//! Scanning primitives, timestamps and symbol tables.
use flashbook::codec::{CodecError, SymbolTable};
use flashbook::fixed::ParseFixedError;
use flashbook::scan::{parse_rfc3339_ns, Cursor};
use memchr::memmem;

#[test]
fn rfc3339_goldens() {
    // golden values computed independently (python datetime, UTC)
    for (s, want) in [
        ("2026-07-07T22:58:17.164892Z", 1_783_465_097_164_892_000),
        ("1970-01-01T00:00:00Z", 0),
        ("2000-02-29T12:00:00Z", 951_825_600_000_000_000),
        ("2026-01-01T00:00:00Z", 1_767_225_600_000_000_000),
        ("2038-01-19T03:14:08Z", 2_147_483_648_000_000_000),
        ("1999-12-31T23:59:59.999999999Z", 946_684_799_999_999_999),
    ] {
        assert_eq!(parse_rfc3339_ns(s.as_bytes()), Some(want), "{s}");
    }
}

#[test]
fn rfc3339_fraction_scaling() {
    assert_eq!(
        parse_rfc3339_ns(b"1970-01-01T00:00:00.5Z"),
        Some(500_000_000)
    );
    assert_eq!(
        parse_rfc3339_ns(b"1970-01-01T00:00:00.123Z"),
        Some(123_000_000)
    );
    assert_eq!(parse_rfc3339_ns(b"1970-01-01T00:00:00.000000001Z"), Some(1));
}

#[test]
fn rfc3339_rejects() {
    for bad in [
        "",
        "2026-07-07",
        "2026-07-07T22:58:17",             // no Z
        "2026-07-07T22:58:17+00:00",       // offset form not used by venues
        "2026-07-07 22:58:17Z",            // space separator
        "2026-13-07T22:58:17Z",            // month 13
        "2026-00-07T22:58:17Z",            // month 0
        "2026-07-32T22:58:17Z",            // day 32
        "2026-07-00T22:58:17Z",            // day 0
        "2001-02-29T00:00:00Z",            // not a leap year
        "2026-07-07T24:00:00Z",            // hour 24
        "2026-07-07T22:60:00Z",            // minute 60
        "2026-07-07T22:58:60Z",            // second 60 (venues don't emit leap seconds)
        "2026-07-07T22:58:17.Z",           // empty fraction
        "2026-07-07T22:58:17.1234567890Z", // 10-digit fraction
        "2026-07-07T22:58:17Zx",           // trailing junk
        "1969-12-31T23:59:59Z",            // pre-epoch
        "2026-07-07T22:58:1aZ",
    ] {
        assert_eq!(parse_rfc3339_ns(bad.as_bytes()), None, "{bad}");
    }
}

#[test]
fn rfc3339_leap_year_boundaries() {
    assert!(parse_rfc3339_ns(b"2000-02-29T00:00:00Z").is_some()); // 400-rule leap
    assert!(parse_rfc3339_ns(b"1900-02-29T00:00:00Z").is_none()); // pre-epoch anyway
    assert!(parse_rfc3339_ns(b"2100-02-29T00:00:00Z").is_none()); // 100-rule non-leap
    assert!(parse_rfc3339_ns(b"2024-02-29T00:00:00Z").is_some());
    assert!(parse_rfc3339_ns(b"2026-02-29T00:00:00Z").is_none());
}

#[test]
fn cursor_strings_and_numbers() {
    let mut c = Cursor::new(br#"{"price":"63589.64","qty":1.5e-3,"id":42}"#);
    c.skip_past(b"\"price\":").unwrap();
    assert_eq!(c.read_string().unwrap(), b"63589.64");
    c.skip_past(b"\"qty\":").unwrap();
    assert_eq!(c.read_number().unwrap(), b"1.5e-3");
    c.skip_past(b"\"id\":").unwrap();
    assert_eq!(c.read_u64().unwrap(), 42);
    assert!(c.eat(b'}'));
    assert!(c.done());
}

#[test]
fn cursor_rejects_escapes_and_missing() {
    let mut c = Cursor::new(br#""has\"escape""#);
    assert!(c.read_string().is_none());
    let mut c = Cursor::new(b"noquote");
    assert!(c.read_string().is_none());
    let mut c = Cursor::new(b"\"unterminated");
    assert!(c.read_string().is_none());
    let mut c = Cursor::new(b"x123");
    assert!(c.read_number().is_none());
    assert!(c.read_u64().is_none());
    let mut c = Cursor::new(b"99999999999999999999999");
    assert!(c.read_u64().is_none()); // overflow
}

#[test]
fn cursor_finder_navigation() {
    let f = memmem::Finder::new(b"\"s\":");
    let mut c = Cursor::new(br#"{"a":1,"s":"BTCUSDT","x":2}"#);
    c.skip_past_finder(&f).unwrap();
    assert_eq!(c.read_string().unwrap(), b"BTCUSDT");
    assert!(c.skip_past_finder(&f).is_none());
    let before = c.pos();
    assert_eq!(c.pos(), before);
}

#[test]
fn rfc3339_year_zero_is_rejected() {
    assert_eq!(parse_rfc3339_ns(b"0000-01-01T00:00:00Z"), None);
    // beyond what 64 bits of nanoseconds can hold
    assert_eq!(parse_rfc3339_ns(b"9999-12-31T23:59:59Z"), None);
}

#[test]
fn symbol_table_lookup() {
    let t = SymbolTable::new(vec![("BTC-USD".to_string(), 1), ("ETH-USD".to_string(), 2)]);
    assert_eq!(t.lookup(b"BTC-USD"), Some(1));
    assert_eq!(t.lookup(b"ETH-USD"), Some(2));
    assert_eq!(t.lookup(b"DOGE-USD"), None);
    assert_eq!(t.lookup(b"BTC-US"), None);
    assert_eq!(t.lookup(b""), None);
    assert_eq!(t.len(), 2);
    assert!(!t.is_empty());
}

#[test]
fn symbol_table_lists_its_pairs_and_prefers_the_first() {
    let t = SymbolTable::new(vec![("A".to_string(), 1), ("B".to_string(), 2), ("A".to_string(), 3)]);
    assert_eq!(t.lookup(b"A"), Some(1));
    let pairs = t.iter();
    assert_eq!(pairs.len(), 3);
    assert_eq!(pairs[1], (&b"B"[..], 2));
    assert!(SymbolTable::new(Vec::new()).is_empty());
}

#[test]
fn codec_error_messages() {
    assert_eq!(
        CodecError::Structure("no type").message(),
        "json structure: no type"
    );
    assert_eq!(CodecError::UnknownInstrument.message(), "unknown instrument");
    assert_eq!(
        CodecError::Fixed(ParseFixedError::Malformed).message(),
        "fixed-point: malformed decimal token"
    );
}
