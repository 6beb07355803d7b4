//! A structural editor for Org-mode outlines: documents are split into a tree
//! of sections by their headline stars, edited in place, and written back
//! character for character.

pub mod arena;
pub mod emit;
pub mod errors;
pub mod forest;
pub mod forest_laws;
pub mod headline;
pub mod outline;
pub mod parse;
pub mod structure;
pub mod text;
pub mod tree;
pub mod tree_model;
pub mod util;
pub mod walk;

pub use crate::arena::Section;
pub use crate::errors::{HeadlineError, StructureError};
pub use crate::forest::Arena;
pub use crate::parse::Document;
pub use crate::headline::timestamp::{
    Activity, Date, Delay, DelayMark, Diary, Interval, Point, Range, Repeater, RepeaterAndDelay,
    RepeaterMark, Time, TimeRange, TimeSpec, TimeUnit, Times, Timestamp, TimestampExt,
};
pub use crate::headline::builder::HeadlineBuilder;
pub use crate::headline::parser::{parse_valid_single_headline, Context, Headline};
pub use crate::headline::section::Tags;
pub use crate::headline::value::{HeadlinePod, InfoPattern, Planning, PlanningKeyword};
