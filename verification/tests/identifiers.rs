//! Canonical decimal identifier text: parsing and rendering.

use option_codec::{parse_canonical_u64, render_u64};

#[test]
fn render_gives_canonical_decimal() {
    assert_eq!(render_u64(0), "0");
    assert_eq!(render_u64(7), "7");
    assert_eq!(render_u64(1066), "1066");
    assert_eq!(render_u64(u64::MAX), "18446744073709551615");
}

#[test]
fn parse_accepts_only_canonical_text() {
    assert_eq!(parse_canonical_u64("0"), Some(0));
    assert_eq!(parse_canonical_u64("123456789012345678"), Some(123456789012345678));
    assert_eq!(parse_canonical_u64("18446744073709551615"), Some(u64::MAX));
    assert_eq!(parse_canonical_u64(""), None);
    assert_eq!(parse_canonical_u64("007"), None);
    assert_eq!(parse_canonical_u64("-1"), None);
    assert_eq!(parse_canonical_u64("+1"), None);
    assert_eq!(parse_canonical_u64("12a3"), None);
    assert_eq!(parse_canonical_u64("18446744073709551616"), None);
    assert_eq!(parse_canonical_u64("99999999999999999999"), None);
}

#[test]
fn parse_inverts_render() {
    for &n in &[0u64, 1, 9, 10, 4199, u64::MAX, u64::MAX - 1] {
        assert_eq!(parse_canonical_u64(&render_u64(n)), Some(n));
    }
}
