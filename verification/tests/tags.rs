use cucumber::hook::{select, Hook, HookExecutor};
use cucumber::tag::{applies, has_tag, TagExpr};

fn tag(name: &str) -> TagExpr {
    TagExpr::Tag(name.to_string())
}

fn tags(names: &[&str]) -> Vec<String> {
    names.iter().map(|n| n.to_string()).collect()
}

#[test]
fn a_tag_holds_where_it_is_in_the_set() {
    assert!(tag("slow").eval(&tags(&["fast", "slow"])));
    assert!(!tag("slow").eval(&tags(&["fast"])));
    assert!(!tag("slow").eval(&tags(&[])));
    assert!(has_tag(&tags(&["a", "b"]), &"b".to_string()));
    assert!(!has_tag(&tags(&["a", "b"]), &"c".to_string()));
}

#[test]
fn rules_combine() {
    let rule = TagExpr::And(
        Box::new(TagExpr::Not(Box::new(tag("wip")))),
        Box::new(TagExpr::Or(Box::new(tag("db")), Box::new(tag("net")))),
    );
    assert!(rule.eval(&tags(&["db"])));
    assert!(rule.eval(&tags(&["net", "other"])));
    assert!(!rule.eval(&tags(&["db", "wip"])));
    assert!(!rule.eval(&tags(&["other"])));
    let copy = rule.clone();
    assert!(copy.eval(&tags(&["net"])));
    assert!(!copy.eval(&tags(&["wip", "net"])));
}

#[test]
fn an_absent_rule_holds_always() {
    assert!(applies(&None, &tags(&[])));
    assert!(applies(&None, &tags(&["x"])));
    assert!(applies(&Some(tag("x")), &tags(&["x"])));
    assert!(!applies(&Some(tag("x")), &tags(&["y"])));
}

#[test]
fn applicable_hooks_keep_registration_order() {
    let hooks: HookExecutor<&str> = HookExecutor::new()
        .before(None, "always")
        .before(Some(tag("db")), "open database")
        .before(Some(TagExpr::Not(Box::new(tag("db")))), "no database")
        .before(Some(tag("net")), "open socket")
        .after(Some(tag("net")), "close socket")
        .after(Some(tag("db")), "close database")
        .after(None, "always");

    assert_eq!(hooks.applicable_before(&tags(&["db", "net"])), vec![0, 1, 3]);
    assert_eq!(hooks.applicable_after(&tags(&["db", "net"])), vec![0, 1, 2]);
    assert_eq!(hooks.applicable_before(&tags(&["db"])), vec![0, 1]);
    assert_eq!(hooks.applicable_after(&tags(&["db"])), vec![1, 2]);
    assert_eq!(hooks.applicable_before(&tags(&[])), vec![0, 2]);
    assert_eq!(hooks.applicable_after(&tags(&[])), vec![2]);
    assert_eq!(hooks.before[1].run, "open database");
}

#[test]
fn no_hooks_no_choice() {
    let none: Vec<Hook<u8>> = Vec::new();
    assert_eq!(select(&none, &tags(&["a"])), Vec::<usize>::new());
    let hooks: HookExecutor<u8> = HookExecutor::new();
    assert!(hooks.applicable_before(&tags(&["a"])).is_empty());
    assert!(hooks.applicable_after(&tags(&["a"])).is_empty());
}
