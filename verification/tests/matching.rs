use cucumber::runner::backlog::{collect, kinds, Entry};
use cucumber::runner::basic::{Basic, ScenarioType};
use cucumber::step::collection::Collection;
use cucumber::step::context::{
    build_matches, captured_text, whole_match, whole_matches, LineCol, Span, Step, StepType,
};
use cucumber::step::error::insert_sorted;
use cucumber::step::location::{location_before, location_same, Location};
use cucumber::step::order::{rank_bytes, rank_keys, Rank};
use cucumber::step::pattern::{anchor, Pattern};

#[test]
fn a_whole_match_covers_the_text() {
    assert!(whole_match(&Some(vec![Some((0, 5))]), "hello"));
    assert!(whole_match(&Some(vec![Some((0, 5)), None, Some((1, 2))]), "hello"));
    assert!(!whole_match(&Some(vec![Some((0, 4))]), "hello"));
    assert!(!whole_match(&Some(vec![Some((1, 5))]), "hello"));
    assert!(!whole_match(&Some(vec![None]), "hello"));
    assert!(!whole_match(&Some(vec![]), "hello"));
    assert!(!whole_match(&None, "hello"));
    assert!(whole_match(&Some(vec![Some((0, 0))]), ""));
    // Offsets count bytes: the text has four characters and five bytes.
    assert!(whole_match(&Some(vec![Some((0, 5))]), "Zoë!"));
    assert!(!whole_match(&Some(vec![Some((0, 4))]), "Zoë!"));
}

#[test]
fn whole_matches_are_listed_in_order() {
    let outcomes = vec![
        Some(vec![Some((0, 2))]),
        None,
        Some(vec![Some((0, 3)), Some((1, 2))]),
        Some(vec![Some((1, 3))]),
        Some(vec![Some((0, 3))]),
    ];
    assert_eq!(whole_matches(&outcomes, "abc"), vec![2, 4]);
    assert_eq!(whole_matches(&outcomes, "ab"), vec![0]);
    assert_eq!(whole_matches(&outcomes, "abcd"), Vec::<usize>::new());
    assert_eq!(whole_matches(&vec![], "abc"), Vec::<usize>::new());
}

#[test]
fn captured_text_is_cut_at_byte_offsets() {
    assert_eq!(captured_text("I have 5 cucumbers", Some((7, 8))), "5");
    assert_eq!(captured_text("I have 5 cucumbers", Some((0, 18))), "I have 5 cucumbers");
    assert_eq!(captured_text("I have 5 cucumbers", Some((3, 3))), "");
    assert_eq!(captured_text("I have 5 cucumbers", None), "");
    assert_eq!(captured_text("Zoë has", Some((0, 4))), "Zoë");
    assert_eq!(captured_text("Zoë has", Some((2, 4))), "ë");
}

#[test]
fn offsets_that_cut_no_text_out_give_the_empty_text() {
    // Past the end, backwards, and inside a character.
    assert_eq!(captured_text("abc", Some((1, 4))), "");
    assert_eq!(captured_text("abc", Some((2, 1))), "");
    assert_eq!(captured_text("Zoë", Some((0, 3))), "");
    assert_eq!(captured_text("Zoë", Some((3, 4))), "");
}

#[test]
fn matches_pair_names_with_texts() {
    let names = vec![None, Some("count".to_string()), None];
    let spans = vec![Some((0, 18)), Some((7, 8)), None];
    assert_eq!(
        build_matches(&names, &spans, "I have 5 cucumbers"),
        vec![
            (None, "I have 5 cucumbers".to_string()),
            (Some("count".to_string()), "5".to_string()),
            (None, String::new()),
        ]
    );
    // As many pairs as both lists have.
    assert_eq!(build_matches(&names, &vec![Some((0, 1))], "I").len(), 1);
    assert_eq!(build_matches(&vec![None], &spans, "I have 5 cucumbers").len(), 1);
    assert!(build_matches(&vec![], &spans, "I have 5 cucumbers").is_empty());
}

#[test]
fn bytes_are_ranked_lexicographically() {
    assert_eq!(rank_bytes(b"abc", b"abd"), Rank::Before);
    assert_eq!(rank_bytes(b"abd", b"abc"), Rank::After);
    assert_eq!(rank_bytes(b"abc", b"abc"), Rank::Same);
    assert_eq!(rank_bytes(b"ab", b"abc"), Rank::Before);
    assert_eq!(rank_bytes(b"abc", b"ab"), Rank::After);
    assert_eq!(rank_bytes(b"", b""), Rank::Same);
    assert_eq!(rank_bytes(b"", b"a"), Rank::Before);
    assert_eq!(rank_bytes(b"b", b"abc"), Rank::After);
    assert_eq!(rank_bytes(&[0xff], &[0x00, 0x01]), Rank::After);
}

#[test]
fn keys_are_ranked_by_text_then_location() {
    let at = |line, column| Some(Location { line, column });
    assert_eq!(rank_keys("a", at(9, 9), "b", None), Rank::Before);
    assert_eq!(rank_keys("b", None, "a", at(9, 9)), Rank::After);
    assert_eq!(rank_keys("a", None, "a", at(1, 1)), Rank::Before);
    assert_eq!(rank_keys("a", at(1, 1), "a", None), Rank::After);
    assert_eq!(rank_keys("a", at(1, 9), "a", at(2, 1)), Rank::Before);
    assert_eq!(rank_keys("a", at(2, 1), "a", at(2, 3)), Rank::Before);
    assert_eq!(rank_keys("a", at(2, 3), "a", at(2, 3)), Rank::Same);
    assert_eq!(rank_keys("a", None, "a", None), Rank::Same);
    // The order is that of `String` and of the derived order of locations.
    assert_eq!(rank_keys("Z", None, "a", None), Rank::Before);
    assert!("Z".to_string() < "a".to_string());
    assert_eq!(rank_keys("é", None, "z", None), Rank::After);
    assert!("é".to_string() > "z".to_string());
    assert!(None < at(0, 0));
    assert!(at(1, 9) < at(2, 1));
}

#[test]
fn locations_compare_by_line_then_column() {
    let at = |line, column| Some(Location { line, column });
    assert!(location_before(None, at(1, 1)));
    assert!(!location_before(at(1, 1), None));
    assert!(!location_before(None, None));
    assert!(location_before(at(1, 5), at(2, 1)));
    assert!(location_before(at(2, 1), at(2, 2)));
    assert!(!location_before(at(2, 2), at(2, 2)));
    assert!(location_same(at(2, 2), at(2, 2)));
    assert!(location_same(None, None));
    assert!(!location_same(None, at(2, 2)));
    assert!(!location_same(at(2, 1), at(2, 2)));
}

#[test]
fn keys_are_inserted_at_their_place() {
    let at = |line, column| Some(Location { line, column });
    let mut keys = Vec::new();
    for key in [("m", None), ("a", at(2, 1)), ("z", None), ("a", None), ("m", at(1, 1))] {
        insert_sorted(&mut keys, (key.0.to_string(), key.1));
    }
    assert_eq!(
        keys,
        vec![
            ("a".to_string(), None),
            ("a".to_string(), at(2, 1)),
            ("m".to_string(), None),
            ("m".to_string(), at(1, 1)),
            ("z".to_string(), None),
        ]
    );
}

#[test]
fn a_cloned_pattern_matches_as_its_source() {
    let pattern = Pattern::new(r"I have (\d+) cucumbers").unwrap();
    let registry: Collection<u8> = Collection::new().given(None, pattern.clone(), 1);
    let copy = registry.clone();
    let step = Step {
        keyword: "Given".to_string(),
        ty: StepType::Given,
        value: "I have 12 cucumbers".to_string(),
        docstring: None,
        table: None,
        span: Span { start: 0, end: 0 },
        position: LineCol { line: 1, col: 1 },
    };
    let (handler, spans, _, context) = copy.find(&step).unwrap().unwrap();
    assert_eq!(*handler, 1);
    assert_eq!(spans, vec![Some((0, 19)), Some((7, 9))]);
    assert_eq!(context.matches[1].1, "12");
    assert_eq!(pattern.as_str(), r"I have (\d+) cucumbers");
}

#[test]
fn the_backlog_keeps_the_order_of_declaration() {
    let tags = |names: &[&str]| names.iter().map(|n| n.to_string()).collect::<Vec<String>>();
    let features = vec![
        vec![tags(&[]), tags(&["serial"])],
        vec![],
        vec![tags(&["serial", "slow"]), tags(&["slow"]), tags(&[])],
    ];
    let backlog = collect(&Basic::new(), &features);
    let entry = |feature, scenario, ty| Entry { feature, scenario, ty };
    assert_eq!(
        backlog,
        vec![
            entry(0, 0, ScenarioType::Concurrent),
            entry(0, 1, ScenarioType::Serial),
            entry(2, 0, ScenarioType::Serial),
            entry(2, 1, ScenarioType::Concurrent),
            entry(2, 2, ScenarioType::Concurrent),
        ]
    );
    assert_eq!(
        kinds(&backlog),
        vec![
            ScenarioType::Concurrent,
            ScenarioType::Serial,
            ScenarioType::Serial,
            ScenarioType::Concurrent,
            ScenarioType::Concurrent,
        ]
    );
    assert!(collect(&Basic::new(), &vec![]).is_empty());
    assert!(kinds(&vec![]).is_empty());
}

#[test]
fn a_pattern_is_anchored_in_a_group_that_captures_nothing() {
    assert_eq!(anchor(r"sam|samwise"), r"\A(?:sam|samwise)\z");
    assert_eq!(anchor(""), r"\A(?:)\z");
    assert_eq!(anchor(r"I have (\d+) cucumbers"), r"\A(?:I have (\d+) cucumbers)\z");
}
