use starsector::{Arena, Section, StructureError};

fn texts(arena: &Arena, sections: &[Section]) -> Vec<String> {
    sections.iter().map(|s| s.text(arena)).collect()
}

fn outline(arena: &mut Arena, text: &str) -> Section {
    arena.parse_str(text).root
}

#[test]
fn checked_append_refuses_a_level_that_is_not_greater() {
    let mut arena = Arena::default();
    let a = arena.new_section("* A").unwrap();
    let b = arena.new_section("* B").unwrap();
    let c = arena.new_section("*** C").unwrap();
    assert!(matches!(
        a.checked_append(&mut arena, b),
        Err(StructureError::LevelError)
    ));
    // A section made from a headline still hangs under the root that it was
    // parsed with.
    let hidden = b.parent(&arena).unwrap();
    assert_eq!(hidden.level(&arena), 0);
    assert_eq!(hidden.children(&arena), vec![b]);
    assert_eq!(b.text(&arena), "* B");
    assert!(a.checked_append(&mut arena, c).is_ok());
    assert_eq!(c.parent(&arena), Some(a));
    assert_eq!(c.text(&arena), "*** C");
    assert_eq!(a.children(&arena), vec![c]);
    assert_eq!(
        StructureError::LevelError.description(),
        "LevelError"
    );
}

#[test]
fn the_arena_refuses_to_hang_a_section_under_itself() {
    let mut arena = Arena::default();
    let root = outline(&mut arena, "* A\n** B\n*** C");
    let a = root.children(&arena)[0];
    let b = a.children(&arena)[0];
    let c = b.children(&arena)[0];
    // `append` raises C above itself and then asks the arena, which says no.
    assert!(matches!(
        c.append(&mut arena, c),
        Err(StructureError::IndextreeError(_))
    ));
    // An ancestor cannot hang under its descendant.
    assert!(matches!(
        c.append(&mut arena, a),
        Err(StructureError::IndextreeError(_))
    ));
    assert!(matches!(
        c.insert_after(&mut arena, b),
        Err(StructureError::IndextreeError(_))
    ));
    let err = c.prepend(&mut arena, b).unwrap_err();
    assert!(!err.description().is_empty());
    assert_eq!(b.parent(&arena), Some(a));
    assert_eq!(c.parent(&arena), Some(b));
}

#[test]
fn children_keep_their_order() {
    let mut arena = Arena::default();
    let root = outline(&mut arena, "* A\n* B\n* C");
    let kids = root.children(&arena);
    let (a, b, c) = (kids[0], kids[1], kids[2]);

    let x = arena.new_section("* X").unwrap();
    b.insert_after(&mut arena, x).unwrap();
    assert_eq!(
        texts(&arena, &root.children(&arena)),
        vec!["* A", "* B", "* X", "* C"]
    );

    let y = arena.new_section("* Y").unwrap();
    b.insert_before(&mut arena, y).unwrap();
    assert_eq!(
        texts(&arena, &root.children(&arena)),
        vec!["* A", "* Y", "* B", "* X", "* C"]
    );

    // Moving a child within its own parent.
    c.checked_insert_before(&mut arena, x).unwrap();
    a.checked_insert_after(&mut arena, c).unwrap();
    assert_eq!(
        texts(&arena, &root.children(&arena)),
        vec!["* A", "* C", "* Y", "* B", "* X"]
    );

    let z = arena.new_section("* Z").unwrap();
    root.prepend(&mut arena, z).unwrap();
    let w = arena.new_section("* W").unwrap();
    root.checked_prepend(&mut arena, w).unwrap();
    root.append(&mut arena, a).unwrap();
    assert_eq!(
        texts(&arena, &root.children(&arena)),
        vec!["* W", "* Z", "* C", "* Y", "* B", "* X", "* A"]
    );
    assert_eq!(
        texts(&arena, &root.reverse_children(&arena)),
        vec!["* A", "* X", "* B", "* Y", "* C", "* Z", "* W"]
    );
    assert_eq!(
        texts(&arena, &b.following_siblings(&arena)),
        vec!["* B", "* X", "* A"]
    );
    assert_eq!(
        texts(&arena, &b.preceding_siblings(&arena)),
        vec!["* B", "* Y", "* C", "* Z", "* W"]
    );
    assert_eq!(texts(&arena, &root.following_siblings(&arena)), vec![""]);
    assert_eq!(
        root.to_rope(&arena),
        "* W\n* Z\n* C\n* Y\n* B\n* X\n* A\n"
    );
}

#[test]
fn a_sibling_is_raised_above_the_parent() {
    let mut arena = Arena::default();
    let root = outline(&mut arena, "* A\n*** B");
    let a = root.children(&arena)[0];
    let b = a.children(&arena)[0];
    let x = arena.new_section("text").unwrap();
    assert_eq!(x.level(&arena), 0);
    b.insert_before(&mut arena, x).unwrap();
    assert_eq!(x.level(&arena), 2);
    assert_eq!(x.text(&arena), "** text");
    assert_eq!(a.children(&arena), vec![x, b]);

    let y = arena.new_section("* Y").unwrap();
    assert!(matches!(
        b.checked_insert_after(&mut arena, y),
        Err(StructureError::LevelError)
    ));
    let z = arena.new_section("** Z").unwrap();
    b.checked_insert_after(&mut arena, z).unwrap();
    assert_eq!(a.children(&arena), vec![x, b, z]);

    // A root takes no sibling.
    let loose = arena.new_section("* L").unwrap();
    assert!(matches!(
        root.insert_after(&mut arena, loose),
        Err(StructureError::LevelError)
    ));
    assert!(matches!(
        root.insert_before(&mut arena, loose),
        Err(StructureError::LevelError)
    ));
}

#[test]
fn removing_and_replacing() {
    let mut arena = Arena::default();
    let root = outline(&mut arena, "* A\n** B\n*** C\n*** D\n** E\n* F");
    let a = root.children(&arena)[0];
    let b = a.children(&arena)[0];
    let e = a.children(&arena)[1];
    let (c, d) = (b.children(&arena)[0], b.children(&arena)[1]);

    assert_eq!(texts(&arena, &c.ancestors(&arena)), vec!["*** C", "** B", "* A", ""]);
    assert_eq!(
        texts(&arena, &a.descendants(&arena)),
        vec!["* A", "** B", "*** C", "*** D", "** E"]
    );

    b.replace_with_children(&mut arena);
    assert!(!arena.contains(b));
    assert!(arena.contains(c));
    assert_eq!(a.children(&arena), vec![c, d, e]);
    assert_eq!(c.parent(&arena), Some(a));
    assert_eq!(root.to_rope(&arena), "* A\n*** C\n*** D\n** E\n* F\n");

    d.remove_subtree(&mut arena);
    assert_eq!(d.parent(&arena), None);
    assert_eq!(a.children(&arena), vec![c, e]);

    a.remove_children(&mut arena);
    assert_eq!(a.children(&arena).len(), 0);
    assert_eq!(c.parent(&arena), None);
    assert_eq!(e.parent(&arena), None);
    assert_eq!(root.to_rope(&arena), "* A\n* F\n");
}

#[test]
fn copies_are_new_sections() {
    let mut arena = Arena::default();
    let root = outline(&mut arena, "* A\n** B\n*** C\n** D");
    let a = root.children(&arena)[0];
    let single = arena.clone_section(a);
    assert_ne!(single, a);
    assert_eq!(single.text(&arena), "* A");
    assert_eq!(single.level(&arena), 1);
    assert_eq!(single.children(&arena).len(), 0);
    assert_eq!(single.parent(&arena), None);

    let copy = a.clone_subtree(&mut arena);
    assert_ne!(copy, a);
    assert_eq!(copy.parent(&arena), None);
    assert_eq!(copy.to_rope(&arena), "* A\n** B\n*** C\n** D\n");
    assert_eq!(a.to_rope(&arena), "* A\n** B\n*** C\n** D\n");
    let b = a.children(&arena)[0];
    b.set_level(&mut arena, 2).unwrap();
    b.set_raw(&mut arena, "** changed").unwrap();
    assert_eq!(copy.to_rope(&arena), "* A\n** B\n*** C\n** D\n");
    assert_eq!(a.to_rope(&arena), "* A\n** changed\n*** C\n** D\n");
}

#[test]
fn levels_only_move_between_parent_and_children() {
    let mut arena = Arena::default();
    let root = outline(&mut arena, "* A\n*** B\n***** C");
    let a = root.children(&arena)[0];
    let b = a.children(&arena)[0];
    assert!(b.set_level(&mut arena, 1).is_err());
    assert!(b.set_level(&mut arena, 5).is_err());
    assert!(b.set_level(&mut arena, 0).is_err());
    assert!(b.set_level(&mut arena, 4).is_ok());
    assert_eq!(b.text(&arena), "**** B");
    assert!(b.set_level(&mut arena, 2).is_ok());
    assert_eq!(b.text(&arena), "** B");
    assert_eq!(b.level(&arena), 2);
    assert!(root.set_level(&mut arena, 0).is_ok());
    assert_eq!(root.to_rope(&arena), "* A\n** B\n***** C\n");
}

#[test]
fn headline_parts_can_be_set_in_place() {
    let mut arena = Arena::default();
    let root = outline(&mut arena, "* TODO Buy milk :shop:\nsoon");
    let s = root.children(&arena)[0];
    s.set_title(&mut arena, "Buy oat milk".into(), None).unwrap();
    s.add_tag(&mut arena, "food", None).unwrap();
    s.set_keyword(&mut arena, Some("DONE".into()), None).unwrap();
    assert_eq!(s.text(&arena), "* DONE Buy oat milk :shop:food:\nsoon");
    s.clear_tag(&mut arena, "shop", None).unwrap();
    s.set_commented(&mut arena, true, None).unwrap();
    s.set_body(&mut arena, "later".into(), None).unwrap();
    assert_eq!(s.text(&arena), "* DONE COMMENT Buy oat milk :food:\nlater");
    assert_eq!(s.keyword(&arena, None).unwrap(), Some("DONE".to_string()));
    assert_eq!(s.title(&arena, None).unwrap(), "Buy oat milk");
    assert_eq!(s.body(&arena, None).unwrap(), "later");
    assert_eq!(s.raw_tags(&arena, None).unwrap(), "food");
    assert!(s.commented(&arena, None).unwrap());
    assert_eq!(s.priority(&arena, None).unwrap(), None);
    s.set_tags(&mut arena, &["a", "b"], None).unwrap();
    s.update_tags(&mut arena, &["b", "c"], None).unwrap();
    s.remove_tags(&mut arena, &["a"], None).unwrap();
    assert_eq!(s.raw_tags(&arena, None).unwrap(), "b:c");
    s.clear_tags(&mut arena, None).unwrap();
    s.set_raw_tags(&mut arena, "x:y", None).unwrap();
    assert_eq!(s.text(&arena), "* DONE COMMENT Buy oat milk :x:y:\nlater");
    // A body with a headline in it is refused, and nothing changes.
    assert!(s.set_body(&mut arena, "* no".into(), None).is_err());
    assert!(s.set_title(&mut arena, "line\nbreak".into(), None).is_err());
    assert_eq!(s.text(&arena), "* DONE COMMENT Buy oat milk :x:y:\nlater");
    let plain = arena.new_section("* x").unwrap();
    assert!(plain.set_title(&mut arena, "TODO again".into(), None).is_err());
    assert!(plain.set_title(&mut arena, "tagged :z:".into(), None).is_err());
    assert_eq!(plain.text(&arena), "* x");
    assert!(root.set_title(&mut arena, "x".into(), None).is_err());
    assert_eq!(root.to_rope(&arena), "* DONE COMMENT Buy oat milk :x:y:\nlater\n");
}

#[test]
fn append_raises_the_section_and_leaves_its_children() {
    let mut arena = Arena::default();
    let a = arena.new_section("** A").unwrap();
    let b = arena.new_section("* B\n** C").unwrap();
    let c = b.children(&arena)[0];
    a.append(&mut arena, b).unwrap();
    assert_eq!(b.text(&arena), "*** B");
    assert_eq!(b.level(&arena), 3);
    assert_eq!(c.text(&arena), "** C");
    assert_eq!(c.level(&arena), 2);
    assert_eq!(c.parent(&arena), Some(b));

    // With children above the new level the order of levels is kept.
    let d = arena.new_section("* D\n***** E").unwrap();
    let e = d.children(&arena)[0];
    a.append(&mut arena, d).unwrap();
    assert_eq!(d.level(&arena), 3);
    assert!(e.level(&arena) > d.level(&arena));
    assert_eq!(a.children(&arena), vec![b, d]);
}
