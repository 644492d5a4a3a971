use protodec::parse::{try_parse_entries, try_parse_entries_inner, Entry, EntryValue, ParseConfig};

#[test]
fn try_parse_entries_works() {
    // one
    let entries = try_parse_entries(b"\x12\x07Unknown", ParseConfig::default()).unwrap();
    assert_eq!(
        entries,
        &[Entry {
            path: vec![2],
            value: EntryValue::Bytes(b"Unknown".to_vec())
        }]
    );

    // two
    let entries =
        try_parse_entries(b"\x12\x07Unknown\x12\x07Unknown", ParseConfig::default()).unwrap();
    assert_eq!(
        entries,
        &[
            Entry {
                path: vec![2],
                value: EntryValue::Bytes(b"Unknown".to_vec())
            },
            Entry {
                path: vec![2],
                value: EntryValue::Bytes(b"Unknown".to_vec())
            }
        ]
    );

    // No valid protobuf (incomplete)
    let res = try_parse_entries(b"\x12\x07Unknown\x0a\x0fAtlantic ", ParseConfig::default());
    assert_eq!(res, None);

    // No valid protobuf (wrong wire type)
    // End group (deprecated) in field 2: hex((2 << 3) | 4)
    let res = try_parse_entries(b"\x14\x07Unknown", ParseConfig::default());
    assert_eq!(res, None);
}

#[test]
fn try_parse_entries_returns_none_for_empty() {
    let res = try_parse_entries(b"", ParseConfig::default());
    assert_eq!(res, None);
}

#[test]
fn try_parse_entries_inner_works() {
    // one
    let entries = try_parse_entries_inner(b"\x12\x07Unknown", ParseConfig::default(), &[]).unwrap();
    assert_eq!(
        entries,
        &[Entry {
            path: vec![2],
            value: EntryValue::Bytes(b"Unknown".to_vec())
        }]
    );

    // two
    let entries = try_parse_entries_inner(
        b"\x12\x07Unknown\x12\x07Unknown",
        ParseConfig::default(),
        &[],
    )
    .unwrap();
    assert_eq!(
        entries,
        &[
            Entry {
                path: vec![2],
                value: EntryValue::Bytes(b"Unknown".to_vec())
            },
            Entry {
                path: vec![2],
                value: EntryValue::Bytes(b"Unknown".to_vec())
            }
        ]
    );

    // nested path
    let entries =
        try_parse_entries_inner(b"\x12\x07Unknown", ParseConfig::default(), &[42]).unwrap();
    assert_eq!(
        entries,
        &[Entry {
            path: vec![42, 2],
            value: EntryValue::Bytes(b"Unknown".to_vec())
        }]
    );

    // No valid protobuf (incomplete)
    let res = try_parse_entries_inner(
        b"\x12\x07Unknown\x0a\x0fAtlantic ",
        ParseConfig::default(),
        &[],
    );
    assert_eq!(res, None);

    // No valid protobuf (wrong wire type)
    // End group (deprecated) in field 2: hex((2 << 3) | 4)
    let res = try_parse_entries_inner(b"\x14\x07Unknown", ParseConfig::default(), &[]);
    assert_eq!(res, None);
}

#[test]
fn single_varint_field_decodes_to_one_entry() {
    // tag (1 << 3) | 0, varint 42
    let entries = try_parse_entries(&[0x08, 0x2a], ParseConfig::default()).unwrap();
    assert_eq!(
        entries,
        &[Entry {
            path: vec![1],
            value: EntryValue::Varint(42)
        }]
    );

    // a varint that spans two bytes: 300 = 0b10_0101100
    let entries = try_parse_entries(&[0x08, 0xac, 0x02], ParseConfig::default()).unwrap();
    assert_eq!(
        entries,
        &[Entry {
            path: vec![1],
            value: EntryValue::Varint(300)
        }]
    );
}

#[test]
fn nested_message_is_bracketed() {
    // field 1, length 2, payload = field 1 varint 42
    let entries = try_parse_entries(b"\x0a\x02\x08\x2a", ParseConfig::default()).unwrap();
    assert_eq!(
        entries,
        &[
            Entry {
                path: vec![1],
                value: EntryValue::OpenNested
            },
            Entry {
                path: vec![1, 1],
                value: EntryValue::Varint(42)
            },
            Entry {
                path: vec![1],
                value: EntryValue::CloseNested
            },
        ]
    );
}

#[test]
fn empty_payload_falls_back_to_bytes() {
    // an empty nested message is indistinguishable from an empty string,
    // so it comes back as a bytes entry
    let entries = try_parse_entries(b"\x12\x00", ParseConfig::default()).unwrap();
    assert_eq!(
        entries,
        &[Entry {
            path: vec![2],
            value: EntryValue::Bytes(vec![])
        }]
    );
}

#[test]
fn no_fixed64_fails_whole_message() {
    // tag (1 << 3) | 1 followed by eight bytes
    let input = b"\x09AAAAAAAA";
    let entries = try_parse_entries(input, ParseConfig::default()).unwrap();
    assert_eq!(
        entries,
        &[Entry {
            path: vec![1],
            value: EntryValue::Fixed64(0x4141414141414141)
        }]
    );

    let config = ParseConfig {
        no_fixed64: true,
        no_fixed32: false,
    };
    assert_eq!(try_parse_entries(input, config), None);
}

#[test]
fn no_fixed64_makes_parent_fall_back_to_bytes() {
    // field 1, length 9, payload = a fixed64 field
    let input = b"\x0a\x09\x09AAAAAAAA";
    let entries = try_parse_entries(input, ParseConfig::default()).unwrap();
    assert_eq!(
        entries,
        &[
            Entry {
                path: vec![1],
                value: EntryValue::OpenNested
            },
            Entry {
                path: vec![1, 1],
                value: EntryValue::Fixed64(0x4141414141414141)
            },
            Entry {
                path: vec![1],
                value: EntryValue::CloseNested
            },
        ]
    );

    let config = ParseConfig {
        no_fixed64: true,
        no_fixed32: false,
    };
    let entries = try_parse_entries(input, config).unwrap();
    assert_eq!(
        entries,
        &[Entry {
            path: vec![1],
            value: EntryValue::Bytes(b"\x09AAAAAAAA".to_vec())
        }]
    );
}

#[test]
fn no_fixed32_fails_whole_message() {
    // tag (1 << 3) | 5 followed by four bytes
    let input = b"\x0dAAAA";
    let entries = try_parse_entries(input, ParseConfig::default()).unwrap();
    assert_eq!(
        entries,
        &[Entry {
            path: vec![1],
            value: EntryValue::Fixed32(0x41414141)
        }]
    );

    let config = ParseConfig {
        no_fixed64: false,
        no_fixed32: true,
    };
    assert_eq!(try_parse_entries(input, config), None);
}

#[test]
fn long_varints_decode_up_to_128_bits() {
    // u64::MAX spans ten varint bytes
    let mut input = vec![0x08u8];
    input.extend([0xff; 9]);
    input.push(0x01);
    let entries = try_parse_entries(&input, ParseConfig::default()).unwrap();
    assert_eq!(
        entries,
        &[Entry {
            path: vec![1],
            value: EntryValue::Varint(u64::MAX as u128)
        }]
    );

    // u128::MAX spans nineteen varint bytes, the longest accepted encoding
    let mut input = vec![0x08u8];
    input.extend([0xff; 18]);
    input.push(0x03);
    let entries = try_parse_entries(&input, ParseConfig::default()).unwrap();
    assert_eq!(
        entries,
        &[Entry {
            path: vec![1],
            value: EntryValue::Varint(u128::MAX)
        }]
    );

    // a value just past 128 bits is rejected
    let mut input = vec![0x08u8];
    input.extend([0x80; 18]);
    input.push(0x04);
    assert_eq!(try_parse_entries(&input, ParseConfig::default()), None);

    // an encoding longer than nineteen bytes is rejected outright
    let mut input = vec![0x08u8];
    input.extend([0x80; 19]);
    input.push(0x01);
    assert_eq!(try_parse_entries(&input, ParseConfig::default()), None);
}

fn wrap_in_field_one(payload: &[u8]) -> Vec<u8> {
    let mut out = vec![0x0au8];
    // length prefix as a varint
    let mut len = payload.len();
    loop {
        let byte = (len % 128) as u8;
        len /= 128;
        if len == 0 {
            out.push(byte);
            break;
        }
        out.push(byte | 0x80);
    }
    out.extend_from_slice(payload);
    out
}

#[test]
fn nesting_is_bounded_not_unbounded() {
    // a moderately nested message decodes all the way down
    let mut bytes: Vec<u8> = vec![0x08, 0x01];
    for _ in 0..50 {
        bytes = wrap_in_field_one(&bytes);
    }
    let entries = try_parse_entries(&bytes, ParseConfig::default()).unwrap();
    let opens = entries
        .iter()
        .filter(|e| e.value == EntryValue::OpenNested)
        .count();
    assert_eq!(opens, 50);

    // past the nesting bound the deepest payloads fall back to bytes
    // instead of growing the recursion without limit
    let mut bytes: Vec<u8> = vec![0x08, 0x01];
    for _ in 0..200 {
        bytes = wrap_in_field_one(&bytes);
    }
    let entries = try_parse_entries(&bytes, ParseConfig::default()).unwrap();
    let bytes_entries = entries
        .iter()
        .filter(|e| matches!(e.value, EntryValue::Bytes(_)))
        .count();
    assert_eq!(bytes_entries, 1);
    let opens = entries
        .iter()
        .filter(|e| e.value == EntryValue::OpenNested)
        .count();
    assert!(opens < 200);
}
