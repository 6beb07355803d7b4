use rand::RngCore;

use starsector::{Arena, HeadlineBuilder, HeadlineError};

#[test]
fn level() {
    HeadlineBuilder::default()
        .level(0)
        .headline(None)
        .unwrap_err();

    HeadlineBuilder::default()
        .level(0)
        .validate_partially(None)
        .unwrap_err();

    HeadlineBuilder::default().level(1).headline(None).unwrap();

    HeadlineBuilder::default()
        .level(1)
        .validate_partially(None)
        .unwrap();

    HeadlineBuilder::default()
        .level(1024)
        .headline(None)
        .unwrap();

    HeadlineBuilder::default()
        .level(1024)
        .validate_partially(None)
        .unwrap();
}

#[test]
fn commented() {
    HeadlineBuilder::default()
        .commented(true)
        .headline(None)
        .unwrap();

    HeadlineBuilder::default()
        .commented(true)
        .validate_partially(None)
        .unwrap();
}

#[test]
fn keyword() {
    for keyword in ["", "TODO", "DONE"] {
        let keyword: Option<String> = if keyword.is_empty() {
            None
        } else {
            Some(keyword.into())
        };

        HeadlineBuilder::default()
            .keyword(keyword.clone())
            .headline(None)
            .unwrap();

        HeadlineBuilder::default()
            .keyword(keyword)
            .validate_partially(None)
            .unwrap();
    }

    let keyword: Option<String> = Some("POTATO".into());

    HeadlineBuilder::default()
        .keyword(keyword.clone())
        .headline(None)
        .unwrap_err();

    HeadlineBuilder::default()
        .keyword(keyword)
        .validate_partially(None)
        .unwrap_err();
}

#[test]
fn priority() {
    HeadlineBuilder::default()
        .priority(None)
        .headline(None)
        .unwrap();

    HeadlineBuilder::default()
        .priority(None)
        .validate_partially(None)
        .unwrap();

    HeadlineBuilder::default()
        .priority(Some('A'))
        .headline(None)
        .unwrap();

    HeadlineBuilder::default()
        .priority(Some('A'))
        .validate_partially(None)
        .unwrap();

    for bad in "a9! ".chars() {
        HeadlineBuilder::default()
            .priority(Some(bad))
            .headline(None)
            .unwrap_err();

        HeadlineBuilder::default()
            .priority(Some(bad))
            .validate_partially(None)
            .unwrap_err();
    }
}

#[test]
fn tags() {
    let invalid = &["+", "-", "@+", "☃", " hi", "hi "];

    for tag in invalid {
        assert_eq!(
            HeadlineBuilder::default().add_tag(*tag).headline(None).ok(),
            None
        );
    }

    let valid = &[
        HeadlineBuilder::default().add_tag("tomatoes").clone(),
        HeadlineBuilder::default().add_tag("#pasta").clone(),
        HeadlineBuilder::default().add_tag("tartine@").clone(),
        HeadlineBuilder::default().add_tag("麻婆豆腐").clone(),
        HeadlineBuilder::default()
            .add_tag("apple:pie")
            .remove_tags(&["pie"])
            .clone(),
        HeadlineBuilder::default().add_tag("abc_123%").clone(),
        HeadlineBuilder::default()
            .set_tags(&["a", "a"])
            .update_tags(&["b", "a", "b"])
            .clone(),
        HeadlineBuilder::default()
            .add_tag("abc_123%")
            .clear_tags()
            .clone(),
        HeadlineBuilder::default()
            .add_tag("%")
            .add_tag("abc")
            .clone(),
        HeadlineBuilder::default()
            .add_tag("%")
            .clear_tag("%")
            .clone(),
        HeadlineBuilder::default()
            .set_raw_tags_string("a:b:c:d:e".to_string())
            .add_tag("%")
            .clear_tag("b")
            .clone(),
        HeadlineBuilder::default()
            .set_raw_tags("a:b:c:d:e")
            .add_tag("%")
            .clear_tag("b")
            .clone(),
    ];

    for builder in valid {
        builder.headline(None).unwrap();
        builder.validate_partially(None).unwrap();
    }
}

#[test]
fn body() {
    let valid = &[
        HeadlineBuilder::default().body(String::default()).clone(),
        HeadlineBuilder::default().body("*".into()).clone(),
        HeadlineBuilder::default().body(" * ".into()).clone(),
        HeadlineBuilder::default().body("- ".into()).clone(),
        HeadlineBuilder::default().body("- Hello".into()).clone(),
        HeadlineBuilder::default()
            .body(" * TODO Hello".into())
            .clone(),
    ];

    for builder in valid {
        builder.headline(None).unwrap();
        builder.validate_partially(None).unwrap();
    }

    let invalid = &[
        HeadlineBuilder::default().body("* ".into()).clone(),
        HeadlineBuilder::default().body("* \n".into()).clone(),
        HeadlineBuilder::default().body("\n* ".into()).clone(),
        HeadlineBuilder::default().body(" \n* ".into()).clone(),
    ];

    for builder in invalid {
        builder.headline(None).unwrap_err();
        builder.validate_partially(None).unwrap_err();
    }
}

#[test]
fn title() {
    HeadlineBuilder::default()
        .title("Hello world!".into())
        .headline(None)
        .unwrap();

    HeadlineBuilder::default()
        .title(String::default())
        .headline(None)
        .unwrap();

    HeadlineBuilder::default()
        .title("* TODO Hello".into())
        .headline(None)
        .unwrap();

    HeadlineBuilder::default()
        .title("[#9] Hello".into())
        .headline(None)
        .unwrap();

    HeadlineBuilder::default()
        .title("[#A] Hello".into())
        .headline(None)
        .unwrap_err();

    HeadlineBuilder::default()
        .title("TODO Hello".into())
        .headline(None)
        .unwrap_err();

    HeadlineBuilder::default()
        .title("Hello :world:".into())
        .headline(None)
        .unwrap_err();

    HeadlineBuilder::default()
        .title("COMMENT Hello".into())
        .headline(None)
        .unwrap_err();

    HeadlineBuilder::default()
        .title("COMMENT".into())
        .headline(None)
        .unwrap_err();
}

#[test]
fn fuzz() {
    let mut rng: rand::rngs::StdRng = rand::SeedableRng::seed_from_u64(30);

    let tags = &["a", "#", "@hello", "50%", "麻婆豆腐", "b", "c:d", "c", "d"];

    let choose_tag = |rng: &mut rand::rngs::StdRng| tags[(rng.next_u32() as usize) % tags.len()];

    let choose_tags = |rng: &mut rand::rngs::StdRng| {
        let mut tags = Vec::new();

        for _ in 0..(rng.next_u32() % 5) {
            tags.push(choose_tag(rng));
        }

        if !tags.is_empty() && rng.next_u32() % 2 == 0 {
            let t = (rng.next_u32() as usize) % tags.len();
            let t = tags[t];
            tags.push(t);
        }

        tags
    };

    let choose_title = |rng: &mut rand::rngs::StdRng| {
        let c = rng.next_u32() % 5;
        if c == 0 {
            ""
        } else if c == 1 {
            "hello"
        } else if c == 2 {
            "- Test"
        } else if c == 3 {
            "* HI"
        } else if c == 4 {
            "* [#A] Hello"
        } else {
            "* TODO Hello"
        }
    };

    let choose_body = |rng: &mut rand::rngs::StdRng| {
        let c = rng.next_u32() % 7;
        if c == 0 {
            ""
        } else if c == 1 {
            "hello"
        } else if c == 2 {
            "- Test\n- That"
        } else if c == 3 {
            "\n"
        } else if c == 4 {
            "\n * HI"
        } else if c == 5 {
            " * [#A] Hello"
        } else if c == 6 {
            " * Hello\n * World"
        } else {
            " * Hello\n * World\n"
        }
    };

    for _ in 0..5000 {
        let mut builder = HeadlineBuilder::default();

        for _ in 0..(rng.next_u32() % 100) {
            let c = rng.next_u32() % 7;
            if c == 0 {
                let c = rng.next_u32() % 10;
                if c == 0 {
                    builder.add_tag(&choose_tag(&mut rng));
                } else if c == 1 {
                    builder.clear_tag(&choose_tag(&mut rng));
                    builder.add_tag(&choose_tag(&mut rng));
                } else if c == 2 {
                    builder.add_tag(&choose_tag(&mut rng));
                    builder.add_tag(&choose_tag(&mut rng));
                } else if c == 3 {
                    builder.clear_tag(&choose_tag(&mut rng));
                    builder.clear_tag(&choose_tag(&mut rng));
                } else if c == 4 {
                    builder.clear_tags();
                } else if c == 5 {
                    builder.update_tags(&choose_tags(&mut rng));
                } else if c == 6 {
                    builder.remove_tags(&choose_tags(&mut rng));
                } else if c == 7 {
                    builder.set_tags(&choose_tags(&mut rng));
                } else if c == 8 {
                    builder.set_raw_tags_string(choose_tags(&mut rng).join(":"));
                } else {
                    builder.canonical_tags();
                }
            } else if c == 1 {
                builder.commented(rng.next_u32() % 2 == 0);
            } else if c == 2 {
                let c = rng.next_u32() % 3;
                if c == 0 {
                    builder.priority(None);
                } else if c == 1 {
                    builder.priority(Some('A'));
                } else if c == 2 {
                    builder.priority(Some('B'));
                }
            } else if c == 3 {
                let c = rng.next_u32() % 3;
                if c == 0 {
                    builder.keyword(None);
                } else if c == 1 {
                    builder.keyword(Some("TODO".into()));
                } else if c == 2 {
                    builder.keyword(Some("DONE".into()));
                }
            } else if c == 4 {
                builder.level((rng.next_u32() % 10 + 1) as u16);
            } else if c == 5 {
                builder.title(choose_title(&mut rng).into());
            } else if c == 6 {
                builder.body(choose_body(&mut rng).into());
            }
        }

        builder.headline(None).unwrap();
    }
}

// Parsing gibberish does not crash, and what was parsed as a headline can
// be built again.
#[test]
fn parse_fuzz() {
    let mut rng: rand::rngs::StdRng = rand::SeedableRng::seed_from_u64(36);

    let mut alphabet: Vec<String> = " \n\t@:#[]*A9饭".chars().map(|c| c.to_string()).collect();

    alphabet.extend(
        vec![
            "\n**",
            "\n** ",
            "\n*****",
            "\n\n",
            "TODO ",
            "COMMENT ",
            "[#B] ",
            " :hello: ",
            " :a:b:",
        ]
        .iter()
        .map(|x| x.to_string()),
    );

    let mut arena = Arena::default();

    for _ in 0..25000 {
        let mut s = String::default();

        for _ in 0..(rng.next_u32() % 100) {
            let c = (rng.next_u32() as usize) % alphabet.len();
            s += &alphabet[c];
        }

        let doc = arena.parse_str(&s);
        if let Some(headline) = doc.root.parse_headline(&arena, None) {
            headline.to_builder().headline(None).unwrap();
        }
    }
}

// Tests that you can change the level/text iff legal.
#[test]
fn text_level_sync() {
    let mut arena = Arena::default();

    let mut h1 = HeadlineBuilder::default();
    h1.title("Bees".into());
    h1.level(1);
    let h1 = h1.headline(/*context=*/ None).unwrap();

    let mut h4 = HeadlineBuilder::default();
    h4.title("Wasps".into());
    h4.level(4);
    let h4 = h4.headline(/*context=*/ None).unwrap();

    // Root section is always level 0, and cannot be changed.
    let doc = arena.parse_str("Hello");
    assert_eq!(doc.root.text(&arena), "Hello");
    assert_eq!(doc.root.level(&arena), 0);
    doc.root.set_level(&mut arena, 0).unwrap();
    assert!(doc.root.set_level(&mut arena, 1).is_err());
    assert!(doc.root.set_level(&mut arena, 4).is_err());
    assert!(doc.root.set_raw(&mut arena, "World".into()).is_ok());
    assert!(doc.root.set_raw(&mut arena, "* World".into()).is_err());
    assert!(doc.root.set_headline(&mut arena, &h1).is_err());
    assert!(doc.root.set_headline(&mut arena, &h4).is_err());

    let doc = arena.parse_str("* Hello\n*** World");
    let hello = doc.root.children(&arena).into_iter().next().unwrap();
    let world = hello.children(&arena).into_iter().next().unwrap();
    assert_eq!(world.text(&arena), "*** World");

    assert!(world.set_level(&mut arena, 2).is_ok());
    assert_eq!(world.text(&arena), "** World");
    assert!(world.set_level(&mut arena, 1).is_err());
    assert!(world.set_level(&mut arena, 5).is_ok());
    assert_eq!(world.text(&arena), "***** World");

    assert!(world.set_raw(&mut arena, "Waterworld".into()).is_err());
    assert!(world.set_raw(&mut arena, "** Westworld".into()).is_ok());
    assert_eq!(world.level(&arena), 2);
    assert!(world.set_raw(&mut arena, "* World".into()).is_err());

    assert!(world.set_headline(&mut arena, &h1).is_err());
    assert!(world.set_headline(&mut arena, &h4).is_ok());
    assert_eq!(world.level(&arena), 4);
    assert_eq!(world.text(&arena), "**** Wasps");

    assert!(hello.set_level(&mut arena, 0).is_err());
    assert!(hello.set_level(&mut arena, 1).is_ok());
    assert!(hello.set_level(&mut arena, 2).is_ok());
    assert!(hello.set_level(&mut arena, 3).is_ok());
    assert!(hello.set_level(&mut arena, 4).is_err());
    assert_eq!(hello.level(&arena), 3);

    assert!(hello.set_headline(&mut arena, &h4).is_err());
    assert!(hello.set_headline(&mut arena, &h1).is_ok());
    assert_eq!(hello.level(&arena), 1);
    assert_eq!(hello.text(&arena), "* Bees");

    assert!(hello.set_raw(&mut arena, "Waterworld".into()).is_err());
    assert!(hello.set_raw(&mut arena, "* Waterworld".into()).is_ok());
    assert_eq!(hello.level(&arena), 1);
    assert_eq!(hello.text(&arena), "* Waterworld");
    assert!(hello.set_raw(&mut arena, "** Waterworld".into()).is_ok());
    assert_eq!(hello.level(&arena), 2);
    assert!(hello.set_raw(&mut arena, "*** Waterworld".into()).is_ok());
    assert_eq!(hello.level(&arena), 3);
    assert!(hello.set_raw(&mut arena, "**** Waterworld".into()).is_err());
}

#[test]
fn each_flaw_gives_its_error() {
    let flaw = |b: &HeadlineBuilder| b.validate_partially(None).unwrap_err();
    assert_eq!(
        flaw(HeadlineBuilder::default().level(0)),
        HeadlineError::InvalidLevelError
    );
    assert_eq!(
        flaw(HeadlineBuilder::default().priority(Some('a'))),
        HeadlineError::InvalidPriorityError
    );
    assert_eq!(
        flaw(HeadlineBuilder::default().set_raw_tags("a b")),
        HeadlineError::InvalidTagsError
    );
    assert_eq!(
        flaw(HeadlineBuilder::default().keyword(Some("LATER".into()))),
        HeadlineError::InvalidKeywordError
    );
    assert_eq!(
        flaw(HeadlineBuilder::default().body("text\n** deeper".into())),
        HeadlineError::InvalidBodyError
    );
    assert_eq!(
        HeadlineBuilder::default()
            .title("TODO in the title".into())
            .headline(None)
            .unwrap_err(),
        HeadlineError::NonEquivalentReparseError
    );
    let mut arena = Arena::default();
    let doc = arena.parse_str("no headline");
    assert_eq!(
        doc.root.title(&arena, None).unwrap_err(),
        HeadlineError::InvalidHeadlineError
    );
    // A level of 0 is reported before a priority that is no capital.
    assert_eq!(
        flaw(HeadlineBuilder::default().level(0).priority(Some('a'))),
        HeadlineError::InvalidLevelError
    );
    assert_eq!(HeadlineError::InvalidTagsError.description(), "InvalidTagsError");
}

#[test]
fn builder_writes_every_part() {
    let mut b = HeadlineBuilder::default();
    b.level(2)
        .keyword(Some("TODO".into()))
        .priority(Some('A'))
        .commented(true)
        .title("Task title".into())
        .set_raw_tags("work:home")
        .body("first\nsecond".into());
    assert_eq!(
        b.to_rope(None).unwrap(),
        "** TODO [#A] COMMENT Task title :work:home:\nfirst\nsecond"
    );
    let h = b.headline(None).unwrap();
    assert_eq!(h.to_builder(), b);
    assert_eq!(
        HeadlineBuilder::default().commented(true).to_rope(None).unwrap(),
        "* COMMENT"
    );
    assert_eq!(HeadlineBuilder::default().to_rope(None).unwrap(), "* ");
}

#[test]
fn tags_are_what_stands_between_colons() {
    let mut b = HeadlineBuilder::default();
    b.set_raw_tags("a::b:a");
    assert!(b.has_tag("a"));
    assert!(b.has_tag("b"));
    assert!(!b.has_tag(""));
    assert!(!b.has_tag("a:"));
    assert!(!b.has_tag("c"));
    let h = b.headline(None).unwrap();
    assert!(h.has_tag("a"));
    assert!(!h.has_tag(""));
    assert_eq!(h.tags().to_vec(), vec!["a", "b", "a"]);
    b.canonical_tags();
    assert_eq!(b.headline(None).unwrap().raw_tags(), "a:b");
    assert!(!HeadlineBuilder::default().has_tag(""));
    b.update_tags(&["c", "a", "", "c"]);
    assert_eq!(b.headline(None).unwrap().raw_tags(), "a:b:c");
    b.clear_tag("b");
    assert_eq!(b.headline(None).unwrap().raw_tags(), "a:c");
}
