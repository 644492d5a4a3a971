use protodec::indent::{dotted, spaced};

#[test]
fn dotted_works() {
    assert_eq!(dotted(0), "");
    assert_eq!(dotted(1), "\u{b7} ");
    assert_eq!(dotted(2), "\u{b7} \u{b7} ");
    assert_eq!(dotted(3), "\u{b7} \u{b7} \u{b7} ");
}

#[test]
fn spaced_works() {
    assert_eq!(spaced(0), "");
    assert_eq!(spaced(1), "  ");
    assert_eq!(spaced(2), "    ");
    assert_eq!(spaced(3), "      ");
}
