//! Tests for the rule, alternation and repetition engine.

use scan_rules::error::{ScanError, ScanErrorKind};
use scan_rules::input::{ComparePolicy, SpacePolicy, WordPolicy};
use scan_rules::rules::{
    scan, Policies, RepeatTerm, Rule, ScanKind, Term, Value,
};

fn lit(s: &str) -> Term {
    Term::Literal(s.as_bytes().to_vec())
}

fn cap(k: ScanKind) -> Term {
    Term::Capture(k)
}

fn rep(pat: Vec<Term>, sep: Vec<Term>, min: usize, max: Option<usize>) -> Term {
    Term::Repeat(RepeatTerm { pat, sep, min, max })
}

fn rule(terms: Vec<Term>) -> Rule {
    Rule { terms }
}

fn ints(values: &[Value]) -> Vec<i64> {
    values
        .iter()
        .filter_map(|v| match v {
            Value::Int(i) => Some(*i),
            _ => None,
        })
        .collect()
}

fn texts(values: &[Value]) -> Vec<String> {
    values
        .iter()
        .filter_map(|v| match v {
            Value::Text(t) => Some(String::from_utf8(t.clone()).unwrap()),
            _ => None,
        })
        .collect()
}

fn scan_ints(input: &str, terms: Vec<Term>) -> Result<Vec<i64>, ScanError> {
    let rules = vec![rule(terms)];
    scan(input.as_bytes(), Policies::new(), &rules).map(|o| ints(&o.values))
}

fn scan_ints_tail(input: &str, mut terms: Vec<Term>) -> Result<(Vec<i64>, String), ScanError> {
    terms.push(Term::Tail);
    let rules = vec![rule(terms)];
    scan(input.as_bytes(), Policies::new(), &rules).map(|o| {
        let tail = match o.values.last().unwrap() {
            Value::Text(t) => String::from_utf8(t.clone()).unwrap(),
            _ => panic!("tail capture should be text"),
        };
        (ints(&o.values), tail)
    })
}

#[test]
fn test_repeating() {
    let int_rep = |sep: Vec<Term>, min: usize, max: Option<usize>| {
        rep(vec![cap(ScanKind::Int)], sep, min, max)
    };

    assert_eq!(
        scan_ints("[]", vec![lit("["), int_rep(vec![], 0, Some(1)), lit("]")]).unwrap(),
        Vec::<i64>::new()
    );
    assert_eq!(
        scan_ints("[]", vec![lit("["), int_rep(vec![], 0, None), lit("]")]).unwrap(),
        Vec::<i64>::new()
    );
    let e = scan_ints("[]", vec![lit("["), int_rep(vec![], 1, None), lit("]")]).unwrap_err();
    assert_eq!(e.at.offset(), 1);
    assert!(matches!(e.kind, ScanErrorKind::Syntax(_)));

    assert_eq!(
        scan_ints("[0]", vec![lit("["), int_rep(vec![], 0, Some(1)), lit("]")]).unwrap(),
        vec![0]
    );
    assert_eq!(
        scan_ints("[0]", vec![lit("["), int_rep(vec![], 0, None), lit("]")]).unwrap(),
        vec![0]
    );
    assert_eq!(
        scan_ints("[0]", vec![lit("["), int_rep(vec![], 1, None), lit("]")]).unwrap(),
        vec![0]
    );

    let e = scan_ints("[0 1]", vec![lit("["), int_rep(vec![], 0, Some(1)), lit("]")])
        .unwrap_err();
    assert_eq!(e.at.offset(), 3);
    assert!(matches!(e.kind, ScanErrorKind::LiteralMismatch));

    assert_eq!(
        scan_ints("[0 1]", vec![lit("["), int_rep(vec![], 0, None), lit("]")]).unwrap(),
        vec![0, 1]
    );
    assert_eq!(
        scan_ints("[0 1]", vec![lit("["), int_rep(vec![], 1, None), lit("]")]).unwrap(),
        vec![0, 1]
    );
    assert_eq!(
        scan_ints("[0 1 2 3]", vec![lit("["), int_rep(vec![], 0, None), lit("]")]).unwrap(),
        vec![0, 1, 2, 3]
    );

    // Two captures per repeat, interleaved in capture order.
    assert_eq!(
        scan_ints(
            "[0 1 2 3]",
            vec![
                lit("["),
                rep(vec![cap(ScanKind::Int), cap(ScanKind::Int)], vec![], 0, None),
                lit("]"),
            ]
        )
        .unwrap(),
        vec![0, 1, 2, 3]
    );

    // Nested repetitions.
    assert_eq!(
        scan_ints(
            "[[0 1] [2 3]]",
            vec![
                lit("["),
                rep(
                    vec![lit("["), rep(vec![cap(ScanKind::Int)], vec![], 0, None), lit("]")],
                    vec![],
                    0,
                    None,
                ),
                lit("]"),
            ]
        )
        .unwrap(),
        vec![0, 1, 2, 3]
    );

    // Bounded repeats with a tail capture.
    let e = scan_ints_tail("0", vec![int_rep(vec![], 2, Some(2))]).unwrap_err();
    assert_eq!(e.at.offset(), 1);
    assert_eq!(
        scan_ints_tail("0 1", vec![int_rep(vec![], 2, Some(2))]).unwrap(),
        (vec![0, 1], String::new())
    );
    assert_eq!(
        scan_ints_tail("0 1 2", vec![int_rep(vec![], 2, Some(2))]).unwrap(),
        (vec![0, 1], " 2".to_string())
    );

    let e = scan_ints_tail("0", vec![int_rep(vec![], 2, None)]).unwrap_err();
    assert_eq!(e.at.offset(), 1);
    assert_eq!(
        scan_ints_tail("0 1", vec![int_rep(vec![], 2, None)]).unwrap(),
        (vec![0, 1], String::new())
    );
    assert_eq!(
        scan_ints_tail("0 1 2", vec![int_rep(vec![], 2, None)]).unwrap(),
        (vec![0, 1, 2], String::new())
    );

    let e = scan_ints_tail("0", vec![int_rep(vec![], 2, Some(3))]).unwrap_err();
    assert_eq!(e.at.offset(), 1);
    assert_eq!(
        scan_ints_tail("0 1", vec![int_rep(vec![], 2, Some(3))]).unwrap(),
        (vec![0, 1], String::new())
    );
    assert_eq!(
        scan_ints_tail("0 1 2", vec![int_rep(vec![], 2, Some(3))]).unwrap(),
        (vec![0, 1, 2], String::new())
    );
    assert_eq!(
        scan_ints_tail("0 1 2 3", vec![int_rep(vec![], 2, Some(3))]).unwrap(),
        (vec![0, 1, 2], " 3".to_string())
    );

    assert_eq!(
        scan_ints_tail("0", vec![int_rep(vec![], 0, Some(3))]).unwrap(),
        (vec![0], String::new())
    );
    assert_eq!(
        scan_ints_tail("0 1 2 3", vec![int_rep(vec![], 0, Some(3))]).unwrap(),
        (vec![0, 1, 2], " 3".to_string())
    );

    // Comma-separated repeats.
    let comma = || vec![lit(",")];
    assert_eq!(
        scan_ints_tail("", vec![int_rep(comma(), 0, None)]).unwrap(),
        (vec![], String::new())
    );
    assert_eq!(
        scan_ints_tail("0", vec![int_rep(comma(), 0, None)]).unwrap(),
        (vec![0], String::new())
    );
    let e = scan_ints_tail("0,", vec![int_rep(comma(), 0, None)]).unwrap_err();
    assert_eq!(e.at.offset(), 2);
    assert_eq!(
        scan_ints_tail("0, 1, 2, 3", vec![int_rep(comma(), 0, None)]).unwrap(),
        (vec![0, 1, 2, 3], String::new())
    );
    assert_eq!(
        scan_ints_tail("0, 1, 2 3", vec![int_rep(comma(), 0, None)]).unwrap(),
        (vec![0, 1, 2], " 3".to_string())
    );
    assert_eq!(
        scan_ints_tail("0, 1 2, 3", vec![int_rep(comma(), 0, None)]).unwrap(),
        (vec![0, 1], " 2, 3".to_string())
    );
    assert_eq!(
        scan_ints_tail("0 1, 2, 3", vec![int_rep(comma(), 0, None)]).unwrap(),
        (vec![0], " 1, 2, 3".to_string())
    );
    let e = scan_ints_tail("0, 1, 2, 3,", vec![int_rep(comma(), 0, None)]).unwrap_err();
    assert_eq!(e.at.offset(), 11);

    // Word-separated repeats.
    let and = || vec![lit("and")];
    assert_eq!(
        scan_ints_tail("0 and 1 and 2 and 3", vec![int_rep(and(), 0, None)]).unwrap(),
        (vec![0, 1, 2, 3], String::new())
    );
    assert_eq!(
        scan_ints_tail("0 and 1 and 2 3", vec![int_rep(and(), 0, None)]).unwrap(),
        (vec![0, 1, 2], " 3".to_string())
    );
    assert_eq!(
        scan_ints_tail("0 and 1 2 and 3", vec![int_rep(and(), 0, None)]).unwrap(),
        (vec![0, 1], " 2 and 3".to_string())
    );
    assert_eq!(
        scan_ints_tail("0 1 and 2 and 3", vec![int_rep(and(), 0, None)]).unwrap(),
        (vec![0], " 1 and 2 and 3".to_string())
    );
    let e = scan_ints_tail("0 and 1 and 2 and 3 and", vec![int_rep(and(), 0, None)])
        .unwrap_err();
    assert_eq!(e.at.offset(), 23);

    // A capturing separator collects its values too.
    let o = scan(
        "0 and 1 and 2 and 3".as_bytes(),
        Policies::new(),
        &vec![rule(vec![rep(
            vec![cap(ScanKind::Int)],
            vec![cap(ScanKind::Word)],
            0,
            None,
        )])],
    )
    .unwrap();
    assert_eq!(ints(&o.values), vec![0, 1, 2, 3]);
    assert_eq!(texts(&o.values), vec!["and", "and", "and"]);
}

#[test]
fn test_multiple_rules() {
    let parse = |s: &str| -> Result<(usize, Vec<Value>), ScanError> {
        let rules = vec![
            rule(vec![lit("line:"), Term::Tail]),
            rule(vec![lit("word:"), cap(ScanKind::Word)]),
            rule(vec![lit("i32:"), cap(ScanKind::Int)]),
        ];
        scan(s.as_bytes(), Policies::new(), &rules).map(|o| (o.rule, o.values))
    };

    let e = parse("").unwrap_err();
    assert_eq!(e.at.offset(), 0);
    assert!(matches!(e.kind, ScanErrorKind::LiteralMismatch));

    let e = parse("wazza: chazza").unwrap_err();
    assert_eq!(e.at.offset(), 0);
    assert!(matches!(e.kind, ScanErrorKind::LiteralMismatch));

    let (r, vals) = parse("line: x y z").unwrap();
    assert_eq!(r, 0);
    assert_eq!(texts(&vals), vec![" x y z"]);

    let (r, vals) = parse("word: x").unwrap();
    assert_eq!(r, 1);
    assert_eq!(texts(&vals), vec!["x"]);

    let (r, vals) = parse("i32: 42").unwrap();
    assert_eq!(r, 2);
    assert_eq!(ints(&vals), vec![42]);

    // "word: x y z" matches no rule in full: the furthest try ends expecting
    // the end of input after the first word, at the post-skip offset.
    let e = parse("word: x y z").unwrap_err();
    assert!(matches!(e.kind, ScanErrorKind::ExpectedEnd));
    assert_eq!(e.at.offset(), 8);

    let e = parse("i32: 42.0").unwrap_err();
    assert!(matches!(e.kind, ScanErrorKind::ExpectedEnd));
    assert_eq!(e.at.offset(), 7);
}

#[test]
fn test_repeat_bounds_property() {
    // A repetition bounded by two and four stops at the bound and demands
    // the minimum.
    let word_rep = || rep(vec![cap(ScanKind::Word)], vec![], 2, Some(4));

    let o = scan(
        b"x x x",
        Policies::new(),
        &vec![rule(vec![word_rep()])],
    )
    .unwrap();
    assert_eq!(o.values.len(), 3);
    assert_eq!(o.consumed, 5);

    assert!(scan(b"x", Policies::new(), &vec![rule(vec![word_rep()])]).is_err());

    let o = scan(
        b"x x x x x",
        Policies::new(),
        &vec![rule(vec![word_rep(), Term::Tail])],
    )
    .unwrap();
    assert_eq!(o.values.len(), 5);
    match o.values.last().unwrap() {
        Value::Text(t) => assert_eq!(t, b" x"),
        _ => panic!("tail capture should be text"),
    }
}

#[test]
fn test_separator_dangling_property() {
    // A trailing separator with no following element fails the repetition.
    let terms = || vec![rep(vec![cap(ScanKind::Word)], vec![lit(",")], 0, None)];

    assert!(scan(b"x,", Policies::new(), &vec![rule(terms())]).is_err());

    let o = scan(b"x,x", Policies::new(), &vec![rule(terms())]).unwrap();
    assert_eq!(o.values.len(), 2);
}

#[test]
fn test_literal_whitespace_policy_property() {
    // Under the default policy the amount and kind of whitespace in a
    // literal is immaterial; under the exact policy it must match.
    let rules = || vec![rule(vec![lit("a b")])];

    assert!(scan(b"a    b", Policies::new(), &rules()).is_ok());
    assert!(scan(b"a\tb", Policies::new(), &rules()).is_ok());

    let exact = Policies {
        cmp: ComparePolicy::Exact,
        space: SpacePolicy::Exact,
        word: WordPolicy::Wordish,
    };
    assert!(scan(b"a b", exact, &rules()).is_ok());
    assert!(scan(b"a    b", exact, &rules()).is_err());
    assert!(scan(b"a\tb", exact, &rules()).is_err());
}

#[test]
fn test_case_policy_property() {
    // A literal match is case-sensitive under exact comparison and not
    // under case-insensitive comparison.
    let rules = || vec![rule(vec![lit("Foo")])];

    let e = scan(b"foo", Policies::new(), &rules()).unwrap_err();
    assert!(matches!(e.kind, ScanErrorKind::LiteralMismatch));
    assert_eq!(e.at.offset(), 0);

    let insensitive = Policies {
        cmp: ComparePolicy::IgnoreCase,
        space: SpacePolicy::Ignore,
        word: WordPolicy::Wordish,
    };
    assert!(scan(b"foo", insensitive, &rules()).is_ok());
    assert!(scan(b"FOO", insensitive, &rules()).is_ok());
}

#[test]
fn test_case_match() {
    let inp = b"UPPERCASE lowercase mIxeDcAsE TitleCase";
    let rules = |a: &str, b: &str, c: &str, d: &str| vec![rule(vec![lit(a), lit(b), lit(c), lit(d)])];
    let with_cmp = |cmp: ComparePolicy| Policies {
        cmp,
        space: SpacePolicy::Ignore,
        word: WordPolicy::Wordish,
    };

    assert!(scan(inp, with_cmp(ComparePolicy::Exact),
        &rules("UPPERCASE", "lowercase", "mIxeDcAsE", "TitleCase")).is_ok());
    let e = scan(inp, with_cmp(ComparePolicy::Exact),
        &rules("UPPERCaSE", "lowercase", "mIxeDcAsE", "TitleCase")).unwrap_err();
    assert_eq!(e.at.offset(), 0);
    let e = scan(inp, with_cmp(ComparePolicy::Exact),
        &rules("UPPERCASE", "lowerCase", "mIxeDcAsE", "TitleCase")).unwrap_err();
    assert_eq!(e.at.offset(), 10);
    let e = scan(inp, with_cmp(ComparePolicy::Exact),
        &rules("UPPERCASE", "lowercase", "mIxEdcAsE", "TitleCase")).unwrap_err();
    assert_eq!(e.at.offset(), 20);
    let e = scan(inp, with_cmp(ComparePolicy::Exact),
        &rules("UPPERCASE", "lowercase", "mIxeDcAsE", "TitLecAse")).unwrap_err();
    assert_eq!(e.at.offset(), 30);

    for variant in [
        ("UPPERCASE", "lowercase", "mIxeDcAsE", "TitleCase"),
        ("UPPERCaSE", "lowercase", "mIxeDcAsE", "TitleCase"),
        ("UPPERCASE", "lowerCase", "mIxeDcAsE", "TitleCase"),
        ("UPPERCASE", "lowercase", "mIxEdcAsE", "TitleCase"),
        ("UPPERCASE", "lowercase", "mIxeDcAsE", "TitLecAse"),
    ] {
        assert!(scan(inp, with_cmp(ComparePolicy::IgnoreCase),
            &rules(variant.0, variant.1, variant.2, variant.3)).is_ok());
        assert!(scan(inp, with_cmp(ComparePolicy::IgnoreAsciiCase),
            &rules(variant.0, variant.1, variant.2, variant.3)).is_ok());
    }
}

#[test]
fn test_alternation_short_circuit_property() {
    // When the first rule matches, its result is the scan's result.
    let rules = vec![
        rule(vec![lit("yes")]),
        rule(vec![cap(ScanKind::Word)]),
    ];
    let o = scan(b"yes", Policies::new(), &rules).unwrap();
    assert_eq!(o.rule, 0);
    assert_eq!(o.values.len(), 0);
}

#[test]
fn test_furthest_error_property() {
    // Of two failing rules, the one that got further into the input names
    // the reported offset, in either order.
    let shallow = || rule(vec![lit("ab"), lit("XX")]);
    let deep = || rule(vec![lit("ab"), lit("cd"), lit("XX")]);

    let e1 = scan(b"ab cd ef", Policies::new(), &vec![shallow(), deep()]).unwrap_err();
    let e2 = scan(b"ab cd ef", Policies::new(), &vec![deep(), shallow()]).unwrap_err();
    assert_eq!(e1.at.offset(), 6);
    assert_eq!(e2.at.offset(), 6);
}

#[test]
fn test_scan_deterministic_property() {
    // Scanning the same input against the same rule set twice yields
    // identical results.
    let build = || {
        vec![
            rule(vec![lit("n"), cap(ScanKind::Int), Term::Tail]),
            rule(vec![cap(ScanKind::Word)]),
        ]
    };
    let r1 = scan(b"n 42 rest", Policies::new(), &build());
    let r2 = scan(b"n 42 rest", Policies::new(), &build());
    let o1 = r1.unwrap();
    let o2 = r2.unwrap();
    assert_eq!(o1.rule, o2.rule);
    assert_eq!(o1.consumed, o2.consumed);
    assert_eq!(o1.values.len(), o2.values.len());
    for (a, b) in o1.values.iter().zip(o2.values.iter()) {
        match (a, b) {
            (Value::Int(x), Value::Int(y)) => assert_eq!(x, y),
            (Value::Bool(x), Value::Bool(y)) => assert_eq!(x, y),
            (Value::Text(x), Value::Text(y)) => assert_eq!(x, y),
            _ => panic!("capture shapes should agree"),
        }
    }
}

#[test]
fn test_scan_space() {
    let inp = "  \t \n x\r\n y z \t\r ";
    let sp = || cap(ScanKind::Space);

    let o = scan(
        inp.as_bytes(),
        Policies::new(),
        &vec![rule(vec![sp(), lit("x"), sp(), lit("y z"), sp(), Term::Tail])],
    )
    .unwrap();
    assert_eq!(texts(&o.values), vec!["  \t \n ", "\r\n ", " \t\r ", ""]);

    let o = scan(
        inp.as_bytes(),
        Policies::new(),
        &vec![rule(vec![
            sp(), lit("x"), sp(), lit("y"), sp(), lit("z"), sp(), Term::Tail,
        ])],
    )
    .unwrap();
    assert_eq!(texts(&o.values), vec!["  \t \n ", "\r\n ", " ", " \t\r ", ""]);

    let o = scan(
        inp.as_bytes(),
        Policies::new(),
        &vec![rule(vec![
            cap(ScanKind::HorSpace),
            cap(ScanKind::Newline),
            cap(ScanKind::HorSpace),
            lit("x"),
            cap(ScanKind::Newline),
            lit("y"),
            sp(),
            lit("z"),
            sp(),
        ])],
    )
    .unwrap();
    assert_eq!(texts(&o.values), vec!["  \t ", "\n", " ", "\r\n", " ", " \t\r "]);
}

#[test]
fn test_ignore_non_line() {
    // Under the non-line policy, a line break is not skipped: it stops the
    // repetition where the default policy would run on.
    let non_line = Policies {
        cmp: ComparePolicy::Exact,
        space: SpacePolicy::NonLine,
        word: WordPolicy::Wordish,
    };
    let terms = || vec![rep(vec![cap(ScanKind::Int)], vec![], 1, None), Term::Tail];

    let o = scan(b"0 1 2\n 3 4 5", Policies::new(), &vec![rule(terms())]).unwrap();
    assert_eq!(ints(&o.values), vec![0, 1, 2, 3, 4, 5]);

    let o = scan(b"0 1 2\n 3 4 5", non_line, &vec![rule(terms())]).unwrap();
    assert_eq!(ints(&o.values), vec![0, 1, 2]);
    match o.values.last().unwrap() {
        Value::Text(t) => assert_eq!(t, b"\n 3 4 5"),
        _ => panic!("tail capture should be text"),
    }
}

#[test]
fn test_case_match_stable_api() {
    let inp = b"UPPERCASE lowercase mIxeDcAsE TitleCase";
    let rules = vec![rule(vec![
        lit("UPPERCASE"),
        lit("lowercase"),
        lit("mIxeDcAsE"),
        lit("TitleCase"),
    ])];
    for cmp in [
        ComparePolicy::Exact,
        ComparePolicy::IgnoreCase,
        ComparePolicy::IgnoreAsciiCase,
    ] {
        let p = Policies { cmp, space: SpacePolicy::Ignore, word: WordPolicy::Wordish };
        assert!(scan(inp, p, &rules).is_ok());
    }
}

#[test]
fn cursor_markers_test_exact_space() {
    let exact = Policies {
        cmp: ComparePolicy::Exact,
        space: SpacePolicy::Exact,
        word: WordPolicy::Wordish,
    };
    let inp = "one ,two \tbuckle\nmy  shoe ".as_bytes();
    let words = || vec![lit("one"), lit(","), lit("two"), lit("buckle"), lit("my"), lit("shoe")];

    assert!(scan(inp, Policies::new(), &vec![rule(words())]).is_ok());

    let e = scan(inp, exact, &vec![rule(words())]).unwrap_err();
    assert!(matches!(e.kind, ScanErrorKind::LiteralMismatch));
    assert_eq!(e.at.offset(), 3);

    let spaced = vec![
        lit("one"), lit(" "), lit(","), lit("two"), lit(" \t"), lit("buckle"),
        lit("\n"), lit("my"), lit("  "), lit("shoe"), lit(" "),
    ];
    assert!(scan(inp, exact, &vec![rule(spaced)]).is_ok());

    let unfinished = vec![
        lit("one"), lit(" "), lit(","), lit("two"), lit(" \t"), lit("buckle"),
        lit("\n"), lit("my"), lit("  "), lit("shoe"),
    ];
    let e = scan(inp, exact, &vec![rule(unfinished)]).unwrap_err();
    assert!(matches!(e.kind, ScanErrorKind::ExpectedEnd));
    assert_eq!(e.at.offset(), 25);

    let split = vec![
        lit("one"), lit(" "), lit(","), lit("two"), lit(" "), lit("\t"), lit("buckle"),
        lit("\n"), lit("my"), lit(" "), lit(" "), lit("shoe"), lit(" "),
    ];
    assert!(scan(inp, exact, &vec![rule(split)]).is_ok());
}

#[test]
fn cursor_markers_test_fuzzy_space() {
    let fuzzy = Policies {
        cmp: ComparePolicy::Exact,
        space: SpacePolicy::Fuzzy,
        word: WordPolicy::Wordish,
    };
    let inp = "one ,two \tbuckle\nmy  shoe ".as_bytes();
    let words = || vec![lit("one"), lit(","), lit("two"), lit("buckle"), lit("my"), lit("shoe")];

    let e = scan(inp, fuzzy, &vec![rule(words())]).unwrap_err();
    assert!(matches!(e.kind, ScanErrorKind::LiteralMismatch));
    assert_eq!(e.at.offset(), 3);

    assert!(scan(inp, fuzzy, &vec![rule(vec![lit("one ,two \tbuckle\nmy  shoe ")])]).is_ok());
    assert!(scan(inp, fuzzy, &vec![rule(vec![lit("one\t,two\n buckle\rmy\t shoe\n")])]).is_ok());

    let e = scan(inp, fuzzy, &vec![rule(vec![lit("one , two \tbuckle\nmy  shoe ")])])
        .unwrap_err();
    assert!(matches!(e.kind, ScanErrorKind::LiteralMismatch));
    assert_eq!(e.at.offset(), 5);

    let e = scan(inp, fuzzy, &vec![rule(vec![lit("one ,two \tbuckle\nmy  shoe")])]).unwrap_err();
    assert!(matches!(e.kind, ScanErrorKind::ExpectedEnd));
    assert_eq!(e.at.offset(), 25);
}

#[test]
fn cursor_markers_test_non_space() {
    let non_space_words = Policies {
        cmp: ComparePolicy::Exact,
        space: SpacePolicy::Ignore,
        word: WordPolicy::NonSpace,
    };
    let inp = "a a2c 1b3 a,c*e a2,d+f-8\u{200b}abc".as_bytes();

    let fine_grained = vec![
        lit("a"), lit("a2c"), lit("1b3"), lit("a"), lit(","), lit("c"), lit("*"), lit("e"),
        lit("a2"), lit(","), lit("d"), lit("+"), lit("f"), lit("-"), lit("8\u{200b}abc"),
    ];
    assert!(scan(inp, Policies::new(), &vec![rule(fine_grained)]).is_ok());

    let whole_tokens = vec![
        lit("a"), lit("a2c"), lit("1b3"), lit("a,c*e"), lit("a2,d+f-8\u{200b}abc"),
    ];
    assert!(scan(inp, non_space_words, &vec![rule(whole_tokens)]).is_ok());
}

#[test]
fn cursor_markers_test_normalized() {
    let normalized = Policies {
        cmp: ComparePolicy::Normalized,
        space: SpacePolicy::Ignore,
        word: WordPolicy::Wordish,
    };
    let composed = "caf\u{E9} b\u{E4}be";
    let decomposed = "cafe\u{301} ba\u{308}be";

    // Byte-for-byte comparison tells the two encodings apart.
    assert!(scan(composed.as_bytes(), Policies::new(), &vec![rule(vec![lit(composed)])]).is_ok());
    let e = scan(composed.as_bytes(), Policies::new(), &vec![rule(vec![lit(decomposed)])])
        .unwrap_err();
    assert!(matches!(e.kind, ScanErrorKind::LiteralMismatch));
    assert_eq!(e.at.offset(), 0);

    // Comparison by canonical decomposition does not.
    assert!(scan(composed.as_bytes(), normalized, &vec![rule(vec![lit(decomposed)])]).is_ok());
    assert!(scan(decomposed.as_bytes(), normalized, &vec![rule(vec![lit(composed)])]).is_ok());
}

#[test]
fn test_tom() {
    let inp = "Hi  , my name  is \t Major Tom! I was born in 1969.".as_bytes();
    let intro = || vec![lit("Hi, my name is Major"), cap(ScanKind::Word)];

    let e = scan(inp, Policies::new(), &vec![rule(intro())]).unwrap_err();
    assert!(matches!(e.kind, ScanErrorKind::ExpectedEnd));
    assert_eq!(e.at.offset(), 29);

    let mut wrong_year = intro();
    wrong_year.push(lit("! I was born in 1947."));
    let e = scan(inp, Policies::new(), &vec![rule(wrong_year)]).unwrap_err();
    assert!(matches!(e.kind, ScanErrorKind::LiteralMismatch));
    assert_eq!(e.at.offset(), 45);

    let lowered = vec![
        lit("hi, my name is major"),
        cap(ScanKind::Word),
        lit("! i was born in 1969."),
    ];
    let e = scan(inp, Policies::new(), &vec![rule(lowered)]).unwrap_err();
    assert!(matches!(e.kind, ScanErrorKind::LiteralMismatch));
    assert_eq!(e.at.offset(), 0);

    let mut full = intro();
    full.push(lit("! I was born in 1969."));
    let o = scan(inp, Policies::new(), &vec![rule(full)]).unwrap();
    assert_eq!(texts(&o.values), vec!["Tom"]);

    let mut tailed = intro();
    tailed.push(Term::Tail);
    let o = scan(inp, Policies::new(), &vec![rule(tailed)]).unwrap();
    assert_eq!(texts(&o.values), vec!["Tom", "! I was born in 1969."]);

    let mut with_year = intro();
    with_year.push(lit("! I was born in"));
    with_year.push(cap(ScanKind::Int));
    with_year.push(lit("."));
    let o = scan(inp, Policies::new(), &vec![rule(with_year)]).unwrap();
    assert_eq!(texts(&o.values), vec!["Tom"]);
    assert_eq!(ints(&o.values), vec![1969]);
}

#[test]
fn test_let_scan() {
    let input = "10\u{A5}, \u{3046}\u{307E}\u{3044}\u{68D2}";
    let terms = vec![cap(ScanKind::Int), lit("\u{A5},"), cap(ScanKind::Word)];
    let o = scan(input.as_bytes(), Policies::new(), &vec![rule(terms)]).unwrap();
    assert_eq!(ints(&o.values), vec![10]);
    assert_eq!(texts(&o.values), vec!["\u{3046}\u{307E}\u{3044}\u{68D2}"]);
}

#[test]
fn test_wordless_literal_is_config_error() {
    // A literal with no comparable word is a caller programming error, not
    // a scan failure: it is reported with the kind `Other`, which no scan
    // failure carries.
    let exact_non_space = Policies {
        cmp: ComparePolicy::Exact,
        space: SpacePolicy::Exact,
        word: WordPolicy::NonSpace,
    };
    let e = scan(b"x", exact_non_space, &vec![rule(vec![lit(" x")])]).unwrap_err();
    assert!(matches!(e.kind, ScanErrorKind::Other(_)));
}
