use oapth::parse_unified_migration;
use oapth::text::is_whitespace;

#[test]
fn whitespace_is_unicode_white_space() {
    for u in 0..=0x10FFFFu32 {
        if let Some(c) = char::from_u32(u) {
            assert_eq!(is_whitespace(c), c.is_whitespace(), "{:#x}", u);
        }
    }
}

#[test]
fn sql_is_trimmed_as_str_trim_does() {
    for u in 0..=0x3000u32 {
        if let Some(c) = char::from_u32(u) {
            let body = format!("{}X{}", c, c);
            let m = parse_unified_migration(&format!("-- oapth UP\n{}", body)).unwrap();
            assert_eq!(m.sql_up, body.trim(), "{:#x}", u);
        }
    }
}
