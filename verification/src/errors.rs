//! The errors that editing an outline can give.

use vstd::prelude::*;

verus! {

/// Why a change to the structure of an outline was refused.
#[derive(Debug)]
pub enum StructureError {
    /// The arena refused to link the nodes: the change would have put a
    /// section under itself or under one of its own descendants.
    IndextreeError(indextree::NodeError),
    /// The change would have put a section at or above the level of its
    /// parent, or at or below that of one of its children.
    LevelError,
}

/// Why a headline could not be built or set.
#[derive(Debug, Clone, Copy, PartialEq, Eq, Structural)]
pub enum HeadlineError {
    NonEquivalentReparseError,
    InvalidTagsError,
    InvalidPriorityError,
    InvalidBodyError,
    InvalidLevelError,
    InvalidKeywordError,
    InvalidHeadlineError,
}

/// `ToString::to_string` on `indextree::NodeError`: the arena's own words
/// for the error.
#[verifier::external_body]
fn node_error_text(e: &indextree::NodeError) -> (text: String) {
    e.to_string()
}

impl StructureError {
    /// A short description of the error.
    pub fn description(&self) -> (text: String)
        ensures
            self is LevelError ==> text@ == "LevelError"@,
    {
        match self {
            StructureError::IndextreeError(e) => node_error_text(e),
            StructureError::LevelError => "LevelError".to_string(),
        }
    }
}

impl HeadlineError {
    /// The name of the error.
    pub open spec fn name(&self) -> Seq<char> {
        match self {
            HeadlineError::NonEquivalentReparseError => "NonEquivalentReparseError"@,
            HeadlineError::InvalidTagsError => "InvalidTagsError"@,
            HeadlineError::InvalidPriorityError => "InvalidPriorityError"@,
            HeadlineError::InvalidBodyError => "InvalidBodyError"@,
            HeadlineError::InvalidLevelError => "InvalidLevelError"@,
            HeadlineError::InvalidKeywordError => "InvalidKeywordError"@,
            HeadlineError::InvalidHeadlineError => "InvalidHeadlineError"@,
        }
    }

    /// The name of the error.
    pub fn description(&self) -> (text: &'static str)
        ensures
            text@ == self.name(),
    {
        match self {
            HeadlineError::NonEquivalentReparseError => "NonEquivalentReparseError",
            HeadlineError::InvalidTagsError => "InvalidTagsError",
            HeadlineError::InvalidPriorityError => "InvalidPriorityError",
            HeadlineError::InvalidBodyError => "InvalidBodyError",
            HeadlineError::InvalidLevelError => "InvalidLevelError",
            HeadlineError::InvalidKeywordError => "InvalidKeywordError",
            HeadlineError::InvalidHeadlineError => "InvalidHeadlineError",
        }
    }
}

} // verus!
