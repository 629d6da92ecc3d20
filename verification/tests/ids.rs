use glados::id::{format_uuid, parse_uuid};

#[test]
fn parse_reads_the_digits_most_significant_first() {
    assert_eq!(parse_uuid(b"00000000-0000-0000-0000-000000000000"), Some(0));
    assert_eq!(parse_uuid(b"00000000-0000-0000-0000-000000000001"), Some(1));
    assert_eq!(parse_uuid(b"00000000-0000-0000-0000-000000000010"), Some(16));
    assert_eq!(parse_uuid(b"10000000-0000-0000-0000-000000000000"), Some(1u128 << 124));
    assert_eq!(parse_uuid(b"ffffffff-ffff-ffff-ffff-ffffffffffff"), Some(u128::MAX));
    assert_eq!(
        parse_uuid(b"12345678-9abc-def0-1234-56789abcdef0"),
        Some(0x1234_5678_9abc_def0_1234_5678_9abc_def0)
    );
}

#[test]
fn parse_takes_either_case() {
    assert_eq!(
        parse_uuid(b"12345678-9ABC-DEF0-1234-56789abcDEF0"),
        Some(0x1234_5678_9abc_def0_1234_5678_9abc_def0)
    );
}

#[test]
fn parse_refuses_other_shapes() {
    assert_eq!(parse_uuid(b""), None);
    assert_eq!(parse_uuid(b"123456789abcdef0123456789abcdef0"), None);
    assert_eq!(parse_uuid(b"12345678-9abc-def0-1234-56789abcdef"), None);
    assert_eq!(parse_uuid(b"12345678-9abc-def0-1234-56789abcdef01"), None);
    assert_eq!(parse_uuid(b"12345678-9abc-def0-1234_56789abcdef0"), None);
    assert_eq!(parse_uuid(b"123456789-abc-def0-1234-56789abcdef0"), None);
    assert_eq!(parse_uuid(b"12345678-9abc-def0-1234-56789abcdefg"), None);
    assert_eq!(parse_uuid(b"1234567--9abc-def0-1234-56789abcdef0"), None);
    assert_eq!(parse_uuid(b"12345678-9abc-def0-1234-56789abcdef "), None);
}

#[test]
fn format_writes_lower_case_groups() {
    assert_eq!(format_uuid(0), b"00000000-0000-0000-0000-000000000000".to_vec());
    assert_eq!(format_uuid(255), b"00000000-0000-0000-0000-0000000000ff".to_vec());
    assert_eq!(format_uuid(u128::MAX), b"ffffffff-ffff-ffff-ffff-ffffffffffff".to_vec());
    assert_eq!(
        format_uuid(0x1234_5678_9abc_def0_1234_5678_9abc_def0),
        b"12345678-9abc-def0-1234-56789abcdef0".to_vec()
    );
}

#[test]
fn parse_undoes_format() {
    let mut v: u128 = 1;
    for _ in 0..200 {
        assert_eq!(parse_uuid(&format_uuid(v)), Some(v));
        v = v.wrapping_mul(6364136223846793005).wrapping_add(1442695040888963407).rotate_left(17);
    }
}
