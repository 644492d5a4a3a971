use protodec::parse::{Entry, EntryValue};
use protodec::select_query::{is_selected, parse_select, SelectQuery};

#[test]
fn parse_can_parse_empty() {
    assert_eq!(SelectQuery::parse("").unwrap().0, &[]);
    assert_eq!(SelectQuery::parse(".").unwrap().0, &[]);
}

#[test]
fn parse_can_parse_simple() {
    assert_eq!(SelectQuery::parse("1").unwrap().0, &[1]);
    assert_eq!(SelectQuery::parse(".1").unwrap().0, &[1]);
}

#[test]
fn parse_can_parse_multi() {
    assert_eq!(SelectQuery::parse("1.2").unwrap().0, &[1, 2]);
    assert_eq!(SelectQuery::parse(".1.2").unwrap().0, &[1, 2]);
    assert_eq!(SelectQuery::parse("3.3").unwrap().0, &[3, 3]);
}

#[test]
fn parse_handles_error() {
    let err = SelectQuery::parse("1.2_3").unwrap_err();
    assert_eq!(err, "invalid digit found in string");
    let err = SelectQuery::parse("1.2 3").unwrap_err();
    assert_eq!(err, "invalid digit found in string");

    let err = SelectQuery::parse("2_3").unwrap_err();
    assert_eq!(err, "invalid digit found in string");
    let err = SelectQuery::parse("2 3").unwrap_err();
    assert_eq!(err, "invalid digit found in string");

    // Empty components
    let err = SelectQuery::parse(".1..2").unwrap_err();
    assert_eq!(err, "cannot parse integer from empty string");
    let err = SelectQuery::parse(".1.").unwrap_err();
    assert_eq!(err, "cannot parse integer from empty string");
    let err = SelectQuery::parse("..").unwrap_err();
    assert_eq!(err, "cannot parse integer from empty string");
    let err = SelectQuery::parse("..1").unwrap_err();
    assert_eq!(err, "cannot parse integer from empty string");
}

#[test]
fn parse_handles_overflow() {
    let err = SelectQuery::parse("99999999999999999999999").unwrap_err();
    assert_eq!(err, "number too large to fit in target type");
    // the largest accepted component
    assert_eq!(
        SelectQuery::parse("18446744073709551615").unwrap().0,
        &[u64::MAX]
    );
    let err = SelectQuery::parse("18446744073709551616").unwrap_err();
    assert_eq!(err, "number too large to fit in target type");
}

#[test]
fn parse_accepts_leading_plus() {
    assert_eq!(SelectQuery::parse("+1.2").unwrap().0, &[1, 2]);
    let err = SelectQuery::parse("+").unwrap_err();
    assert_eq!(err, "invalid digit found in string");
}

#[test]
fn is_selected_works() {
    let entry = Entry {
        path: vec![1, 2, 3],
        value: EntryValue::Varint(1),
    };
    assert!(is_selected(&entry, &SelectQuery::parse(".1").unwrap()));
    assert!(is_selected(&entry, &SelectQuery::parse(".1.2").unwrap()));
    assert!(is_selected(&entry, &SelectQuery::parse(".1.2.3").unwrap()));
    assert!(!is_selected(
        &entry,
        &SelectQuery::parse(".1.2.3.4").unwrap()
    ));
    assert!(!is_selected(&entry, &SelectQuery::parse(".5").unwrap()));
}

#[test]
fn empty_query_selects_everything() {
    let empty = SelectQuery::parse("").unwrap();
    for path in [vec![], vec![1], vec![7, 7, 7]] {
        let entry = Entry {
            path,
            value: EntryValue::Varint(0),
        };
        assert!(is_selected(&entry, &empty));
    }
}

#[test]
fn can_parse_empty() {
    assert_eq!(parse_select(""), &[]);
    assert_eq!(parse_select("."), &[]);
}

#[test]
fn can_parse_simple() {
    assert_eq!(parse_select("1"), &[1]);
    assert_eq!(parse_select(".1"), &[1]);
}

#[test]
fn can_parse_multi() {
    assert_eq!(parse_select("1.2"), &[1, 2]);
    assert_eq!(parse_select(".1.2"), &[1, 2]);
    assert_eq!(parse_select("3.3"), &[3, 3]);
}
