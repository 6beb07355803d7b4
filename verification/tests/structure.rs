use starsector::{Arena, Section};

use rand::RngCore;

fn make_alphabet() -> Vec<char> {
    let mut alphabet: Vec<char> = Vec::new();
    for c in " \n\r\t*a:() []#@%_<>-092\\/,.+-dwym饭\"␤' …‍Âè♀├á	｜▶ "
        .chars()
        .chain("\u{000b}\u{0085}\u{00a0}\u{1680}\u{2000}\u{2001}\u{2002}\u{2003}\u{2004}\u{2005}\u{2006}\u{2007}\u{2008}\u{2009}\u{200a}\u{2028}\u{2029}\u{202f}\u{205f}\u{3000}".chars())
    {
        if !alphabet.contains(&c) {
            alphabet.push(c);
        }
    }
    alphabet
}

// Calls `check` on every string over `alphabet` that is shorter than
// `lengths`.
fn for_each_string(alphabet: &str, lengths: usize, check: &mut dyn FnMut(&str)) {
    let letters: Vec<char> = alphabet.chars().collect();
    for length in 0..lengths {
        let mut index = vec![0usize; length];
        loop {
            let s: String = index.iter().map(|i| letters[*i]).collect();
            check(&s);
            let mut k = length;
            while k > 0 {
                k -= 1;
                index[k] += 1;
                if index[k] < letters.len() {
                    break;
                }
                index[k] = 0;
                if k == 0 {
                    k = usize::MAX;
                    break;
                }
            }
            if length == 0 || k == usize::MAX {
                break;
            }
        }
    }
}

#[test]
fn test_identity() {
    let mut arena = Arena::default();

    for s in &["", " ", "  ", "* ", "** Hello"] {
        let root = arena.parse_str(s);
        assert_eq!(root.to_rope(&arena).to_string(), *s);
    }
}

#[test]
fn test_identity_nearly_exhaustive_short() {
    let alphabet = " \r\n\t*a饭\u{2028}\u{2029}";
    let mut arena = Arena::default();
    let mut count = 0usize;

    for_each_string(alphabet, 7, &mut |s| {
        let root = arena.parse_str(s);
        assert_eq!(root.to_rope(&arena).to_string(), s);
        count += 1;
    });
    assert_eq!(count, 1 + 9 + 81 + 729 + 6561 + 59049 + 531441);
}

#[test]
fn test_identity_exhaustive_very_short() {
    let alphabet = " \r\n\t*a饭\u{000b}\u{0085}\u{00a0}\u{1680}\u{2001}\u{200a}\u{2028}\u{2029}\u{202f}\u{205f}\u{3000}";
    let mut arena = Arena::default();

    for_each_string(alphabet, 5, &mut |s| {
        let root = arena.parse_str(s);
        assert_eq!(root.to_rope(&arena).to_string(), s);
    });
}

#[test]
fn test_identity_fuzz() {
    let alphabet = make_alphabet();
    let mut arena = Arena::default();

    let mut rng: rand::rngs::StdRng = rand::SeedableRng::seed_from_u64(0);

    let mut s = String::default();
    for _ in 0..10000 {
        s.clear();
        let length = (rng.next_u32() % 75) as usize;
        for _ in 0..length {
            s.push(alphabet[(rng.next_u32() as usize) % alphabet.len()])
        }
        let root = arena.parse_str(&s);
        let fix = root.to_rope(&arena).to_string();
        assert_eq!(fix, s);
    }
}

#[test]
fn test_identity_fuzz_slow() {
    let alphabet = make_alphabet();
    let mut arena = Arena::default();

    let mut rng: rand::rngs::StdRng = rand::SeedableRng::seed_from_u64(2);

    let mut s = String::default();
    for _ in 0..10000 {
        s.clear();
        let length = (rng.next_u32() % 1000) as usize;
        for _ in 0..length {
            s.push(alphabet[(rng.next_u32() as usize) % alphabet.len()])
        }
        let root = arena.parse_str(&s);
        let fix = root.to_rope(&arena).to_string();
        assert_eq!(fix, s);
    }
}

#[test]
fn test_identity_fuzz_big() {
    let alphabet = make_alphabet();
    let mut arena = Arena::default();

    let mut rng: rand::rngs::StdRng = rand::SeedableRng::seed_from_u64(10);

    let mut s = String::default();
    for _ in 0..100 {
        s.clear();
        let length = (rng.next_u32() % 1000 + 10000) as usize;
        for _ in 0..length {
            s.push(alphabet[(rng.next_u32() as usize) % alphabet.len()])
        }
        let root = arena.parse_str(&s);
        let fix = root.to_rope(&arena).to_string();
        assert_eq!(fix, s);
    }
}

#[test]
fn test_parse_section() {
    let mut arena = Arena::default();

    let root = arena.new_section("Hello".into()).unwrap();
    assert_eq!(root.to_rope(&arena).to_string(), "Hello\n");

    let root = arena.new_section("").unwrap();
    assert_eq!(root.to_rope(&arena).to_string(), "");

    let root = arena.new_section(" ".into()).unwrap();
    assert_eq!(root.to_rope(&arena).to_string(), " \n");

    let root = arena.new_section("\n".into()).unwrap();
    assert_eq!(root.to_rope(&arena).to_string(), "");

    let root = arena.new_section(" \n".into()).unwrap();
    assert_eq!(root.to_rope(&arena).to_string(), " \n");

    let root = arena.new_section("\n ".into()).unwrap();
    assert_eq!(root.to_rope(&arena).to_string(), "\n \n");

    let root = arena.new_section("** Hello".into()).unwrap();
    assert_eq!(root.to_rope(&arena).to_string(), "** Hello\n");

    let root = arena.new_section("HI!!!** Hello".into()).unwrap();
    assert_eq!(root.to_rope(&arena).to_string(), "HI!!!** Hello\n");

    // Must have exactly one root node.
    assert!(arena.new_section("* Nope\n* Nope".into()).is_none());

    // Multiple sections are allowed, so long as there is a single root.
    let root = arena.new_section("* Nope\n*** Nope2".into()).unwrap();
    assert_eq!(root.to_rope(&arena).to_string(), "* Nope\n*** Nope2\n");

    let root = arena.new_section("Nope\n* Nope2".into()).unwrap();
    assert_eq!(root.to_rope(&arena).to_string(), "Nope\n* Nope2\n");
}

#[test]
fn test_parsing() {
    let mut arena = Arena::default();

    let doc = arena.parse_str("");
    let root = doc.root;
    assert_eq!(root.text(&arena), "");
    assert_eq!(0, root.level(&arena));
    assert!(root.parent(&arena).is_none());
    assert_eq!(0, root.children(&arena).len());

    let doc = arena.parse_str("* ");
    let root = doc.root;
    assert_eq!(root.text(&arena), "");
    assert_eq!(0, root.level(&arena));
    assert_eq!(1, root.children(&arena).len());
    let child_id = root.children(&arena)[0];
    assert_eq!(0, child_id.children(&arena).len());
    assert_eq!(child_id.parent(&arena), Some(root));

    for text in &[
        " ",
        "\n",
        " \n",
        "hello",
        "hello\n",
        "hello\nworld",
        "hello\nworld",
    ] {
        let doc = arena.parse_str(text);
        let root = doc.root;
        if text.ends_with("\n") {
            assert_eq!(*root.text(&arena), text[..text.len() - 1]);
        } else {
            assert_eq!(root.text(&arena), *text);
        }
        assert_eq!(0, root.level(&arena));
        assert!(root.parent(&arena).is_none());
        assert_eq!(0, root.children(&arena).len());
    }

    for text in &[
        "* ",
        "* \n",
        "* *\n",
        "* * ",
        "* Hello",
        "* Hello\n",
        "*** Hello!!!",
        "* Has body\n  Body",
        "*** Has bullets\n * B1\n * B2\n",
        "* Comma\n,* Hello!\n",
    ] {
        let doc = arena.parse_str(text);
        let root = doc.root;
        assert!(root.text(&arena).is_empty());
        assert!(doc.empty_root_section);

        assert_eq!(0, root.level(&arena));
        assert_eq!(1, root.children(&arena).len());
        let child_id = root.children(&arena)[0];
        assert_eq!(0, child_id.children(&arena).len());
        assert_eq!(child_id.parent(&arena), Some(root));

        if text.ends_with("\n") {
            assert_eq!(*child_id.text(&arena), text[..text.len() - 1]);
        } else {
            assert_eq!(child_id.text(&arena), *text);
        }
    }

    let doc = arena.parse_str("* Curved\n* Swords");
    let root = doc.root;
    assert!(root.text(&arena).is_empty());
    assert!(doc.empty_root_section);

    assert_eq!(0, root.level(&arena));
    assert_eq!(2, root.children(&arena).len());
    let mut ci = root.children(&arena).into_iter();

    let child_id1 = ci.next().unwrap();
    let child_id2 = ci.next().unwrap();

    assert_eq!(0, child_id1.children(&arena).len());
    assert_eq!(child_id1.parent(&arena), Some(root));

    assert_eq!(0, child_id2.children(&arena).len());
    assert_eq!(child_id2.parent(&arena), Some(doc.root));

    assert_eq!(child_id1.text(&arena), "* Curved");
    assert_eq!(child_id2.text(&arena), "* Swords");

    let doc = arena.parse_str("\n* One\n** Two\n** Another\n* One\n*** Three\n     Hello!\n");
    let root = doc.root;
    assert!(root.text(&arena).is_empty());
    assert!(!doc.empty_root_section);

    assert_eq!(0, root.level(&arena));
    assert_eq!(2, root.children(&arena).len());
    let mut ci = root.children(&arena).into_iter();

    let one_id = ci.next().unwrap();
    let one_id2 = ci.next().unwrap();

    assert_eq!(2, one_id.children(&arena).len());
    assert_eq!(1, one_id2.children(&arena).len());

    let two_id = one_id.children(&arena).into_iter().next().unwrap();
    let another_id = one_id.children(&arena).into_iter().skip(1).next().unwrap();
    let three_id = one_id2.children(&arena).into_iter().next().unwrap();

    assert_eq!(one_id.text(&arena), "* One");
    assert_eq!(one_id.level(&arena), 1);

    assert_eq!(another_id.text(&arena), "** Another");
    assert_eq!(another_id.level(&arena), 2);

    assert_eq!(one_id2.text(&arena), "* One");
    assert_eq!(one_id2.level(&arena), 1);

    assert_eq!(three_id.text(&arena), "*** Three\n     Hello!");
    assert_eq!(three_id.level(&arena), 3);

    assert_eq!(two_id.text(&arena), "** Two");
    assert_eq!(two_id.level(&arena), 2);
}

#[test]
fn scenario_nested_headlines() {
    let mut arena = Arena::default();
    let text = "* A\n** B\n*** C\n* D";
    let doc = arena.parse_str(text);
    let top: Vec<Section> = doc.root.children(&arena);
    assert_eq!(top.len(), 2);
    assert_eq!(top[0].text(&arena), "* A");
    assert_eq!(top[1].text(&arena), "* D");
    let b = top[0].children(&arena);
    assert_eq!(b.len(), 1);
    assert_eq!(b[0].text(&arena), "** B");
    let c = b[0].children(&arena);
    assert_eq!(c.len(), 1);
    assert_eq!(c[0].text(&arena), "*** C");
    assert_eq!(c[0].children(&arena).len(), 0);
    assert_eq!(top[1].children(&arena).len(), 0);
    assert!(!doc.terminal_newline);
    assert_eq!(doc.to_rope(&arena), text);
}

#[test]
fn scenario_empty_text() {
    let mut arena = Arena::default();
    let doc = arena.parse_str("");
    assert_eq!(doc.root.text(&arena), "");
    assert!(doc.empty_root_section);
    assert!(!doc.terminal_newline);
    assert_eq!(doc.root.children(&arena).len(), 0);
    assert_eq!(doc.to_rope(&arena), "");
}

#[test]
fn scenario_lone_line_feed() {
    let mut arena = Arena::default();
    let doc = arena.parse_str("\n");
    assert_eq!(doc.root.text(&arena), "");
    assert!(!doc.empty_root_section);
    assert!(doc.terminal_newline);
    assert_eq!(doc.to_rope(&arena), "\n");
}

#[test]
fn scenario_append_raises_level() {
    let mut arena = Arena::default();
    let a = arena.new_section("* A").unwrap();
    let b = arena.new_section("* B").unwrap();
    a.append(&mut arena, b).unwrap();
    assert_eq!(b.text(&arena), "** B");
    assert_eq!(b.level(&arena), 2);
    assert_eq!(b.parent(&arena), Some(a));
    assert_eq!(a.children(&arena), vec![b]);
    assert_eq!(a.to_rope(&arena), "* A\n** B\n");
}

fn compare_node(ours: &Section, theirs: &orgize::Headline, org: &orgize::Org, arena: &Arena) {
    let level = ours.level(&arena) as usize;
    assert_eq!(level, theirs.level());
    let text = ours.text(&arena);
    let mut text: &str = &text;
    if level > 0 {
        text = &text[level + 1..];
    }
    assert_eq!(
        text.split('\n').next().unwrap_or_default().trim(),
        theirs.title(&org).raw.trim()
    );
    let our_kids = ours.children(&arena);
    let their_kids: Vec<orgize::Headline> = theirs.children(&org).collect();
    assert_eq!(our_kids.len(), their_kids.len());

    for (ours, theirs) in our_kids.iter().zip(their_kids.iter()) {
        compare_node(ours, theirs, &org, &arena);
    }
}

// Random outlines are cut into the same headlines by this library and by
// `orgize`.
#[test]
fn outlines_agree_with_orgize() {
    let mut arena = Arena::default();
    let mut rng: rand::rngs::StdRng = rand::SeedableRng::seed_from_u64(30);
    let mut alphabet: Vec<_> = vec![" ", "\n", "a", "饭"]
        .into_iter()
        .map(|s| s.to_string())
        .collect();
    for i in 1..5 {
        let mut ss: Vec<_> = vec![" ", "a", "饭"]
            .into_iter()
            .map(|s| s.to_string())
            .collect();
        let mut s = String::default();
        for _ in 0..i {
            for j in &mut ss {
                s.push('*');
                j.push('*');
            }
        }
        alphabet.append(&mut ss);
        s.push(' ');
        alphabet.push(s);
    }

    let mut test_with_size = |min_size: usize, max_size: usize| {
        let mut s = String::default();
        s.clear();
        let length = ((rng.next_u32() as usize) % (max_size - min_size) + min_size) as usize;
        for _ in 0..length {
            s += &alphabet[(rng.next_u32() as usize) % alphabet.len()];
        }
        let doc = arena.parse_str(&s);
        let org = orgize::Org::parse(&s);

        let ours = doc.root.children(&arena);
        let theirs: Vec<orgize::Headline> = org.document().children(&org).collect();
        assert_eq!(ours.len(), theirs.len());

        for (ours, theirs) in ours.iter().zip(theirs.iter()) {
            compare_node(ours, theirs, &org, &arena);
        }
    };

    for _ in 0..2500 {
        test_with_size(0, 250);
    }

    for _ in 0..15 {
        test_with_size(100000, 120000);
    }
}
