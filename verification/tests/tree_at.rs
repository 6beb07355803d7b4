use starsector::Arena;

#[test]
fn test_newline() {
    let mut arena = Arena::default();
    let doc = arena.parse_str("");

    assert!(doc.at(&arena, 0).is_none());

    let doc = arena.parse_str("\n");

    let (section, offset) = doc.at(&arena, 0).unwrap();
    assert_eq!(section.id, doc.root.id);
    assert_eq!(offset, 0);

    assert!(doc.at(&arena, 1).is_none());

    let doc = arena.parse_str("\n\n");

    let (section, offset) = doc.at(&arena, 0).unwrap();
    assert_eq!(section.id, doc.root.id);
    assert_eq!(offset, 0);

    let (section, offset) = doc.at(&arena, 1).unwrap();
    assert_eq!(section.id, doc.root.id);
    assert_eq!(offset, 1);

    assert!(doc.at(&arena, 2).is_none());
}

#[test]
fn test_empty() {
    let mut arena = Arena::default();
    let doc = arena.parse_str("");
    assert!(doc.at(&arena, 0).is_none());
}

#[test]
fn test_at_o() {
    let mut arena = Arena::default();
    let doc = arena.parse_str("* foo\n* bar\n");
    let first = doc.root.children(&arena)[0];
    let second = doc.root.children(&arena)[1];

    for pos in 0..6 {
        let (section, offset) = doc.at(&arena, pos).unwrap();
        assert_eq!(section.id, first.id);
        assert_eq!(offset, pos);
    }

    for pos in 6..12 {
        let (section, offset) = doc.at(&arena, pos).unwrap();
        assert_eq!(section.id, second.id);
        assert_eq!(offset, pos - 6);
    }

    assert!(doc.at(&arena, 12).is_none());
}

#[test]
fn test_at_two() {
    let mut arena = Arena::default();
    let doc = arena.parse_str("* foo\n* bar");
    let first = doc.root.children(&arena)[0];
    let second = doc.root.children(&arena)[1];

    for pos in 0..6 {
        let (section, offset) = doc.at(&arena, pos).unwrap();
        assert_eq!(section.id, first.id);
        assert_eq!(offset, pos);
    }

    for pos in 6..11 {
        let (section, offset) = doc.at(&arena, pos).unwrap();
        assert_eq!(section.id, second.id);
        assert_eq!(offset, pos - 6);
    }

    assert!(doc.at(&arena, 11).is_none());
}

#[test]
fn test_at_thre() {
    let mut arena = Arena::default();
    let doc = arena.parse_str("\n* foo\n* bar");
    let first = doc.root.children(&arena)[0];
    let second = doc.root.children(&arena)[1];

    let (section, offset) = doc.at(&arena, 0).unwrap();
    assert_eq!(section.id, doc.root.id);
    assert_eq!(offset, 0);

    for pos in 1..7 {
        let (section, offset) = doc.at(&arena, pos).unwrap();
        assert_eq!(section.id, first.id);
        assert_eq!(offset, pos - 1);
    }

    for pos in 7..12 {
        let (section, offset) = doc.at(&arena, pos).unwrap();
        assert_eq!(section.id, second.id);
        assert_eq!(offset, pos - 7);
    }

    assert!(doc.at(&arena, 12).is_none());
}

#[test]
fn test_at_fo() {
    let mut arena = Arena::default();
    let doc = arena.parse_str("\n* foo\n* bar\n");
    let first = doc.root.children(&arena)[0];
    let second = doc.root.children(&arena)[1];

    let (section, offset) = doc.at(&arena, 0).unwrap();
    assert_eq!(section.id, doc.root.id);
    assert_eq!(offset, 0);

    for pos in 1..7 {
        let (section, offset) = doc.at(&arena, pos).unwrap();
        assert_eq!(section.id, first.id);
        assert_eq!(offset, pos - 1);
    }

    for pos in 7..13 {
        let (section, offset) = doc.at(&arena, pos).unwrap();
        assert_eq!(section.id, second.id);
        assert_eq!(offset, pos - 7);
    }

    assert!(doc.at(&arena, 13).is_none());
}

#[test]
fn test_at_nest() {
    let mut arena = Arena::default();
    let s = "* foo\n** bar\n*** baz\n* qux\n".to_string();
    let doc = arena.parse_str(&s);
    let foo = doc.root.children(&arena).into_iter().next().unwrap();
    let bar = foo.children(&arena).into_iter().next().unwrap();
    let baz = bar.children(&arena).into_iter().next().unwrap();

    let (section, offset) = doc.at(&arena, 0).unwrap();
    assert_eq!(section.id, foo.id);
    assert_eq!(offset, 0);

    let (section, offset) = doc.at(&arena, 8).unwrap();
    assert_eq!(section.id, bar.id);
    assert_eq!(offset, 3);

    let (section, offset) = doc.at(&arena, 18).unwrap();
    assert_eq!(section.id, baz.id);
    assert_eq!(offset, 7);
}
