use ldap_gateway::filter::{is_sentinel, recurse_filters, SearchFilter};

fn eq(attr: &str, value: &str) -> SearchFilter {
    SearchFilter::Equality(attr.to_string(), value.to_string())
}

#[test]
fn equality_on_uid_gives_its_value() {
    assert_eq!(recurse_filters(&eq("uid", "alice")), "alice");
}

#[test]
fn equality_on_another_attribute_gives_the_sentinel() {
    assert_eq!(recurse_filters(&eq("cn", "alice")), "%");
    assert_eq!(recurse_filters(&eq("UID", "alice")), "%");
    assert_eq!(recurse_filters(&eq("", "alice")), "%");
}

#[test]
fn conjunction_gives_the_first_uid() {
    let f = SearchFilter::And(vec![eq("cn", "x"), eq("uid", "bob")]);
    assert_eq!(recurse_filters(&f), "bob");
}

#[test]
fn disjunction_of_unsupported_gives_the_sentinel() {
    let f = SearchFilter::Or(vec![SearchFilter::Unsupported]);
    assert_eq!(recurse_filters(&f), "%");
}

#[test]
fn unsupported_gives_the_sentinel() {
    assert_eq!(recurse_filters(&SearchFilter::Unsupported), "%");
}

#[test]
fn empty_connectives_give_the_sentinel() {
    assert_eq!(recurse_filters(&SearchFilter::And(vec![])), "%");
    assert_eq!(recurse_filters(&SearchFilter::Or(vec![])), "%");
}

#[test]
fn first_match_wins_by_position() {
    let f = SearchFilter::Or(vec![eq("uid", "first"), eq("uid", "second")]);
    assert_eq!(recurse_filters(&f), "first");
    let g = SearchFilter::And(vec![
        SearchFilter::Unsupported,
        SearchFilter::Or(vec![eq("mail", "m"), SearchFilter::And(vec![eq("uid", "deep")])]),
        eq("uid", "late"),
    ]);
    assert_eq!(recurse_filters(&g), "deep");
}

#[test]
fn a_uid_equal_to_the_sentinel_is_passed_over() {
    let f = SearchFilter::And(vec![eq("uid", "%"), eq("uid", "real")]);
    assert_eq!(recurse_filters(&f), "real");
    assert_eq!(recurse_filters(&eq("uid", "%")), "%");
}

#[test]
fn sentinel_is_the_percent_sign() {
    assert!(is_sentinel(&"%".to_string()));
    assert!(!is_sentinel(&"%%".to_string()));
    assert!(!is_sentinel(&"".to_string()));
    assert!(!is_sentinel(&"alice".to_string()));
}
