use protodec::color::ColorMode;
use protodec::parse::{Entry, EntryValue};
use protodec::render::{
    print_bytes, print_fixed32, print_fixed64, print_int, print_path, render_line, IndentStyle,
};
use protodec::select_query::SelectQuery;
use protodec::wire_type_2::{escape_string, show_as, ShowAs};

#[test]
fn escape_string_works() {
    assert_eq!(escape_string(""), r#""""#);
    assert_eq!(escape_string("a"), r#""a""#);
    assert_eq!(escape_string("foo"), r#""foo""#);

    // Spaces need quoting; double quotes are preferred since the content
    // has none of its own
    assert_eq!(escape_string("foo bar"), r#""foo bar""#);

    // Uses single quotes if that avoids escaping
    assert_eq!(escape_string("fo\"o"), r#"'fo"o'"#);
    assert_eq!(escape_string("{\"my\":\"json\"}"), r#"'{"my":"json"}'"#);

    // Uses double quotes if both single and double are in content
    assert_eq!(escape_string("f'o\"o"), r#""f'o\"o""#);
    // This case would use single quotes in prettier which counts single and double
    assert_eq!(
        escape_string("{\"my\":\"json's\"}"),
        r#""{\"my\":\"json's\"}""#
    );
}

#[test]
fn escape_string_prefers_double_quotes() {
    // content without a double quote is double-quoted even where a
    // shell-style escaper would have single-quoted it
    assert_eq!(escape_string("foo $bar"), "\"foo $bar\"");
    assert_eq!(escape_string("don't"), "\"don't\"");
    // escapes appear in the double-quoted form
    assert_eq!(escape_string("a\\b"), "\"a\\\\b\"");
    assert_eq!(escape_string("Newline: \n"), "\"Newline: \\n\"");
}

#[test]
fn show_as_rejects_del_and_c1_controls() {
    // DEL is a control character
    assert_eq!(show_as(b"__\x7f__"), ShowAs::Bytes(b"__\x7f__"));
    // a C1 control (U+0085, next line) is two bytes in UTF-8
    let c1 = "\u{85}".as_bytes();
    assert_eq!(show_as(c1), ShowAs::Bytes(c1));
    // just past the C1 range: U+00A0 (no-break space) stays text
    assert_eq!(show_as("\u{a0}".as_bytes()), ShowAs::String("\u{a0}"));
    // ordinary non-ASCII text stays text
    assert_eq!(show_as("h\u{e9}llo".as_bytes()), ShowAs::String("h\u{e9}llo"));
}

#[test]
fn show_as_works() {
    assert_eq!(show_as(b""), ShowAs::String(""));
    assert_eq!(show_as(b"123"), ShowAs::String("123"));
    assert_eq!(show_as(b"with space"), ShowAs::String("with space"));
    assert_eq!(show_as(b"Newline: \n"), ShowAs::String("Newline: \n"));
    assert_eq!(show_as(b"Tab: \t"), ShowAs::String("Tab: \t"));
    assert_eq!(show_as(b"CR: \r"), ShowAs::String("CR: \r"));

    // Invalid UTF8
    let non_utf8 = vec![0, 159, 146, 150];
    assert_eq!(show_as(&non_utf8), ShowAs::Bytes(&non_utf8));

    // Non-printable ASCII characters are valid UTF8 but should not be printed as string
    assert_eq!(show_as(b"__\0__"), ShowAs::Bytes(b"__\0__")); // Null
    assert_eq!(show_as(b"__\x07__"), ShowAs::Bytes(b"__\x07__")); // Bell
    assert_eq!(show_as(b"__\x0b__"), ShowAs::Bytes(b"__\x0b__")); // Vertical Tab
}

#[test]
fn print_int_works() {
    assert_eq!(print_int(42, ColorMode::Plain), "42");
    assert_eq!(print_int(0, ColorMode::Plain), "0");
    assert_eq!(
        print_int(u128::from(u64::MAX), ColorMode::Plain),
        "18446744073709551615"
    );
    assert_eq!(print_int(42, ColorMode::Colored), "\u{1b}[31m42\u{1b}[0m");
}

#[test]
fn color_painting_works() {
    assert_eq!(
        ColorMode::Colored.yellow("5"),
        "\u{1b}[33m5\u{1b}[0m"
    );
    assert_eq!(ColorMode::Colored.red("x"), "\u{1b}[31mx\u{1b}[0m");
    assert_eq!(ColorMode::Colored.green("y"), "\u{1b}[32my\u{1b}[0m");
    assert_eq!(ColorMode::Plain.yellow("5"), "5");
}

#[test]
fn print_fixed64_works() {
    let bits = 2.0f64.to_bits();
    let float_text = f64::from_bits(bits).to_string();
    assert_eq!(
        print_fixed64(bits, &float_text, ColorMode::Plain),
        "4611686018427387904 / 2"
    );

    // a negative pattern shows the signed reinterpretation as well
    let bits = (-2.0f64).to_bits();
    let float_text = f64::from_bits(bits).to_string();
    assert_eq!(
        print_fixed64(bits, &float_text, ColorMode::Plain),
        "13835058055282163712 / -4611686018427387904 / -2"
    );
}

#[test]
fn print_fixed32_works() {
    let bits = 2.0f32.to_bits();
    let float_text = f32::from_bits(bits).to_string();
    assert_eq!(
        print_fixed32(bits, &float_text, ColorMode::Plain),
        "1073741824 / 2"
    );

    let bits = (-2.0f32).to_bits();
    let float_text = f32::from_bits(bits).to_string();
    assert_eq!(
        print_fixed32(bits, &float_text, ColorMode::Plain),
        "3221225472 / -1073741824 / -2"
    );
}

#[test]
fn print_bytes_works() {
    // displayable text is escaped and quoted
    assert_eq!(
        print_bytes(b"Unknown", ColorMode::Plain, false),
        "\"Unknown\""
    );
    // non-UTF-8 input is hex
    assert_eq!(
        print_bytes(&[0, 159, 146, 150], ColorMode::Plain, false),
        "009f9296"
    );
    // hex is colored green
    assert_eq!(
        print_bytes(&[0xab], ColorMode::Colored, false),
        "\u{1b}[32mab\u{1b}[0m"
    );
}

#[test]
fn print_bytes_truncates_long_hex() {
    let long = vec![0u8; 300];
    let truncated = print_bytes(&long, ColorMode::Plain, false);
    assert_eq!(truncated, format!("{}\u{2026}", "00".repeat(256)));
    let full = print_bytes(&long, ColorMode::Plain, true);
    assert_eq!(full, "00".repeat(300));
}

#[test]
fn print_path_works() {
    assert_eq!(print_path(&[], IndentStyle::Dot), "");
    assert_eq!(print_path(&[7], IndentStyle::Dot), "7");
    assert_eq!(print_path(&[1, 2, 3], IndentStyle::Dot), "\u{b7} \u{b7} 3");
    assert_eq!(print_path(&[1, 2, 3], IndentStyle::Space), "    3");
    assert_eq!(print_path(&[1, 2, 3], IndentStyle::Path), ".1.2.3");
    assert_eq!(print_path(&[], IndentStyle::Path), "");
}

#[test]
fn render_line_strips_selected_prefix() {
    // a select query of `.1.2` shows entries below it with relative paths
    let query = SelectQuery::parse(".1.2").unwrap();
    let entry = Entry {
        path: vec![1, 2, 3],
        value: EntryValue::Varint(7),
    };
    let line = render_line(
        &entry,
        &query,
        IndentStyle::Dot,
        ColorMode::Plain,
        false,
        None,
    );
    assert_eq!(line.unwrap(), "3: 7");

    // and excludes everything else
    let other = Entry {
        path: vec![1, 3],
        value: EntryValue::Varint(7),
    };
    let line = render_line(
        &other,
        &query,
        IndentStyle::Dot,
        ColorMode::Plain,
        false,
        None,
    );
    assert_eq!(line, None);
}

#[test]
fn render_line_formats_each_value() {
    let empty = SelectQuery::parse("").unwrap();
    let bytes_entry = Entry {
        path: vec![2],
        value: EntryValue::Bytes(b"Unknown".to_vec()),
    };
    let line = render_line(
        &bytes_entry,
        &empty,
        IndentStyle::Dot,
        ColorMode::Plain,
        false,
        None,
    );
    assert_eq!(line.unwrap(), "2: (7 bytes) \"Unknown\"");

    let varint_entry = Entry {
        path: vec![1, 2],
        value: EntryValue::Varint(300),
    };
    let line = render_line(
        &varint_entry,
        &empty,
        IndentStyle::Dot,
        ColorMode::Plain,
        false,
        None,
    );
    assert_eq!(line.unwrap(), "\u{b7} 2: 300");

    let fixed_entry = Entry {
        path: vec![3],
        value: EntryValue::Fixed64(2.0f64.to_bits()),
    };
    let line = render_line(
        &fixed_entry,
        &empty,
        IndentStyle::Dot,
        ColorMode::Plain,
        false,
        Some("2"),
    );
    assert_eq!(line.unwrap(), "3: (64 bit) 4611686018427387904 / 2");
}

#[test]
fn render_line_brackets() {
    let empty = SelectQuery::parse("").unwrap();
    let open = Entry {
        path: vec![1],
        value: EntryValue::OpenNested,
    };
    let line = render_line(
        &open,
        &empty,
        IndentStyle::Dot,
        ColorMode::Plain,
        false,
        None,
    );
    assert_eq!(line.unwrap(), "1 {");

    let close = Entry {
        path: vec![1],
        value: EntryValue::CloseNested,
    };
    let line = render_line(
        &close,
        &empty,
        IndentStyle::Dot,
        ColorMode::Plain,
        false,
        None,
    );
    assert_eq!(line.unwrap(), "}");

    // the closing brace is indented to the bracket's depth
    let deep_close = Entry {
        path: vec![1, 2],
        value: EntryValue::CloseNested,
    };
    let line = render_line(
        &deep_close,
        &empty,
        IndentStyle::Dot,
        ColorMode::Plain,
        false,
        None,
    );
    assert_eq!(line.unwrap(), "\u{b7} }");

    // brackets whose whole path was stripped by the query produce no line
    let query = SelectQuery::parse(".1").unwrap();
    let line = render_line(
        &open,
        &query,
        IndentStyle::Dot,
        ColorMode::Plain,
        false,
        None,
    );
    assert_eq!(line, None);
}
