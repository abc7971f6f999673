use fiber_stats_chart::MyUuid;

#[test]
fn hyphenated_round_trip() {
    let id = MyUuid::parse("67e55044-10b1-426f-9247-bb680e5fe0c8").unwrap();
    assert_eq!(id.to_pretty_string(), "67e55044-10b1-426f-9247-bb680e5fe0c8");
}

#[test]
fn other_forms_become_hyphenated_lower_case() {
    let simple = MyUuid::parse("67E5504410B1426F9247BB680E5FE0C8").unwrap();
    assert_eq!(simple.to_pretty_string(), "67e55044-10b1-426f-9247-bb680e5fe0c8");
    let braced = MyUuid::parse("{67e55044-10b1-426f-9247-bb680e5fe0c8}").unwrap();
    assert_eq!(braced, simple);
}

#[test]
fn bytes_in_order() {
    let id = MyUuid { bytes: [0, 1, 2, 3, 4, 5, 6, 7, 8, 9, 10, 11, 12, 13, 14, 255] };
    assert_eq!(id.to_pretty_string(), "00010203-0405-0607-0809-0a0b0c0d0eff");
    assert_eq!(MyUuid::parse("00010203-0405-0607-0809-0a0b0c0d0eff"), Some(id));
}

#[test]
fn not_a_uuid() {
    assert_eq!(MyUuid::parse("not-a-uuid"), None);
    assert_eq!(MyUuid::parse(""), None);
    assert_eq!(MyUuid::parse("67e55044-10b1-426f-9247-bb680e5fe0c"), None);
}

#[test]
fn urn_prefix_in_any_case() {
    let a = MyUuid::parse("urn:uuid:67e55044-10b1-426f-9247-bb680e5fe0c8").unwrap();
    let b = MyUuid::parse("URN:Uuid:67E55044-10B1-426F-9247-BB680E5FE0C8").unwrap();
    assert_eq!(a, b);
    assert_eq!(MyUuid::parse("urn:uuix:67e55044-10b1-426f-9247-bb680e5fe0c8"), None);
}

#[test]
fn misplaced_or_foreign_characters_are_rejected() {
    assert_eq!(MyUuid::parse("67e5504410b1-426f-9247-bb680e5fe0c8-"), None);
    assert_eq!(MyUuid::parse("67e55044-10b1-426f-9247-bb680e5fe0cg"), None);
    assert_eq!(MyUuid::parse("67e55044-10b1-426f-9247-bb680e5fe0cé"), None);
    assert_eq!(MyUuid::parse("(67e55044-10b1-426f-9247-bb680e5fe0c8)"), None);
}
