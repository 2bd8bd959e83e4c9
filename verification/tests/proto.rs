//! The wire records, fixed-point numbers, instruments, checksums and raw
//! segments.
use flashbook::clock;
use flashbook::event::{flags, CastError, Event, EventKind, Side, Venue, EVENT_SIZE};
use flashbook::fixed::{format_fixed, parse_fixed, ParseFixedError, SCALE};
use flashbook::instrument::{InstrumentMeta, Registry, RegistryError};
use flashbook::kraken_crc::{checksum_digits, kraken_book_crc32};
use flashbook::rawlog::{rkind, scan, RawLogError, RawLogReader, RawLogWriter, MAX_PAYLOAD};

#[test]
fn parses_typical_venue_tokens() {
    // Coinbase/Binance-style strings, Kraken-style number tokens
    assert_eq!(parse_fixed(b"63589.64"), Ok(6_358_964_000_000));
    assert_eq!(parse_fixed(b"63589.64000000"), Ok(6_358_964_000_000));
    assert_eq!(parse_fixed(b"0.00000001"), Ok(1));
    assert_eq!(parse_fixed(b"1"), Ok(SCALE));
    assert_eq!(parse_fixed(b"0"), Ok(0));
    assert_eq!(parse_fixed(b"0.0"), Ok(0));
    assert_eq!(parse_fixed(b"20000"), Ok(2_000_000_000_000));
    assert_eq!(parse_fixed(b"0.12345678"), Ok(12_345_678));
}

#[test]
fn parses_signs_and_edge_shapes() {
    assert_eq!(parse_fixed(b"-1.5"), Ok(-150_000_000));
    assert_eq!(parse_fixed(b"+1.5"), Ok(150_000_000));
    assert_eq!(parse_fixed(b".5"), Ok(50_000_000));
    assert_eq!(parse_fixed(b"5."), Ok(500_000_000));
    assert_eq!(parse_fixed(b"-0"), Ok(0));
    assert_eq!(parse_fixed(b"-0.0000"), Ok(0));
}

#[test]
fn parses_exponent_forms() {
    assert_eq!(parse_fixed(b"1e0"), Ok(SCALE));
    assert_eq!(parse_fixed(b"1e-8"), Ok(1));
    assert_eq!(parse_fixed(b"1.2e-3"), Ok(120_000));
    assert_eq!(parse_fixed(b"1.2E+3"), Ok(120_000_000_000));
    assert_eq!(parse_fixed(b"0e-99999"), Ok(0));
    assert_eq!(parse_fixed(b"0e99999"), Ok(0));
}

#[test]
fn rejects_malformed() {
    for bad in [
        &b""[..],
        b"-",
        b"+",
        b".",
        b"e5",
        b"1e",
        b"1e+",
        b"1..2",
        b"1.2.3",
        b" 1",
        b"1 ",
        b"1,5",
        b"abc",
        b"0x10",
        b"1-",
        b"--1",
    ] {
        assert_eq!(parse_fixed(bad), Err(ParseFixedError::Malformed), "{bad:?}");
    }
}

#[test]
fn rejects_overflow() {
    // i64::MAX at 1e-8 is 92233720368.54775807
    assert_eq!(parse_fixed(b"92233720368.54775807"), Ok(i64::MAX));
    assert_eq!(
        parse_fixed(b"92233720368.54775808"),
        Err(ParseFixedError::Overflow)
    );
    assert_eq!(parse_fixed(b"-92233720368.54775808"), Ok(i64::MIN));
    assert_eq!(
        parse_fixed(b"-92233720368.54775809"),
        Err(ParseFixedError::Overflow)
    );
    assert_eq!(parse_fixed(b"1e30"), Err(ParseFixedError::Overflow));
    assert_eq!(
        parse_fixed(b"99999999999999999999e30"),
        Err(ParseFixedError::Overflow)
    );
}

#[test]
fn rejects_precision_loss() {
    assert_eq!(
        parse_fixed(b"0.000000001"),
        Err(ParseFixedError::PrecisionLoss)
    );
    assert_eq!(
        parse_fixed(b"0.123456789"),
        Err(ParseFixedError::PrecisionLoss)
    );
    assert_eq!(parse_fixed(b"1e-9"), Err(ParseFixedError::PrecisionLoss));
    assert_eq!(parse_fixed(b"1e-40"), Err(ParseFixedError::PrecisionLoss));
    // trailing zeros beyond 8 decimals are exact, not precision loss
    assert_eq!(parse_fixed(b"1.230000000000"), Ok(123_000_000));
}

#[test]
fn format_roundtrips_simple_values() {
    for (m, s) in [
        (0i64, "0"),
        (1, "0.00000001"),
        (SCALE, "1"),
        (-150_000_000, "-1.5"),
        (6_358_964_000_000, "63589.64"),
        (i64::MAX, "92233720368.54775807"),
        (i64::MIN, "-92233720368.54775808"),
    ] {
        assert_eq!(format_fixed(m), s);
        assert_eq!(parse_fixed(s.as_bytes()), Ok(m));
    }
}

#[test]
fn every_digit_count_parses_as_an_exact_reference_does() {
    // an i128 reference over components of the decimal form
    for int_part in [0u64, 7, 63_589, 92_233_720_368, u64::MAX / 2] {
        for frac in ["", "5", "64", "00000001", "123456789", "000000000000"] {
            for exp in [-12i32, -8, -1, 0, 1, 8, 11] {
                for neg in [false, true] {
                    let sign = if neg { "-" } else { "" };
                    let mut s = format!("{sign}{int_part}");
                    if !frac.is_empty() {
                        s.push('.');
                        s.push_str(frac);
                    }
                    s.push_str(&format!("e{exp}"));
                    assert_eq!(
                        parse_fixed(s.as_bytes()),
                        reference(int_part, frac, exp, neg),
                        "input {s}"
                    );
                }
            }
        }
    }
}

fn reference(int_part: u64, frac: &str, exp: i32, neg: bool) -> Result<i64, ParseFixedError> {
    let mut v = i128::from(int_part);
    for c in frac.chars() {
        v = v * 10 + i128::from(c.to_digit(10).unwrap());
    }
    let eff = 8 + exp - i32::try_from(frac.len()).unwrap();
    if eff >= 0 {
        for _ in 0..eff {
            v = v.checked_mul(10).ok_or(ParseFixedError::Overflow)?;
        }
    } else {
        for _ in 0..(-eff) {
            if v % 10 != 0 {
                return Err(ParseFixedError::PrecisionLoss);
            }
            v /= 10;
        }
    }
    if neg {
        v = -v;
    }
    i64::try_from(v).map_err(|_| ParseFixedError::Overflow)
}

#[test]
fn fixed_error_messages() {
    assert_eq!(ParseFixedError::Malformed.message(), "malformed decimal token");
    assert!(!ParseFixedError::Overflow.message().is_empty());
    assert!(!ParseFixedError::PrecisionLoss.message().is_empty());
}

fn sample(i: u64) -> Event {
    Event {
        recv_mono_ns: i,
        recv_wall_ns: i * 2,
        venue_ts_ns: i * 3,
        venue_seq: i * 4,
        price: 6_358_964_000_000,
        qty: 12_345_678,
        aux: 42,
        instrument: 7,
        kind: EventKind::BidSet.code(),
        venue: Venue::Coinbase.code(),
        flags: flags::FROM_SNAPSHOT,
        rsvd: 0,
    }
}

#[test]
fn event_is_one_cache_line() {
    assert_eq!(std::mem::size_of::<Event>(), 64);
    assert_eq!(std::mem::align_of::<Event>(), 8);
}

#[test]
fn cast_slice_roundtrip() {
    let evs: Vec<Event> = (0..10).map(sample).collect();
    let bytes = Event::slice_as_bytes(&evs);
    assert_eq!(bytes.len(), 640);
    let back = Event::bytes_as_slice(&bytes).unwrap();
    assert_eq!(back, evs);
}

#[test]
fn unaligned_iter_matches() {
    let evs: Vec<Event> = (0..4).map(sample).collect();
    let mut buf = vec![0u8; 1 + 4 * EVENT_SIZE];
    buf[1..].copy_from_slice(&Event::slice_as_bytes(&evs));
    // misaligned view starting at offset 1
    let decoded: Vec<Event> = Event::iter_unaligned(&buf[1..]);
    assert_eq!(decoded, evs);
    // strict cast on the misaligned view must fail (alignment), while the
    // aligned original succeeds
    assert!(Event::bytes_as_slice(&buf[1..]).is_err());
}

#[test]
fn kind_and_venue_roundtrip_and_reject_unknown() {
    for k in 1u8..=11 {
        let kind = EventKind::try_from(k).unwrap();
        assert_eq!(kind.code(), k);
    }
    assert!(EventKind::try_from(0).is_err());
    assert!(EventKind::try_from(12).is_err());
    for v in Venue::ALL {
        assert_eq!(Venue::try_from(v.code()), Ok(v));
    }
    assert!(Venue::try_from(0).is_err());
    assert!(Venue::try_from(4).is_err());
}

#[test]
fn side_helpers() {
    let mut e = sample(1);
    assert_eq!(e.side(), Some(Side::Bid));
    assert!(e.is_book());
    e.kind = EventKind::AskSet.code();
    assert_eq!(e.side(), Some(Side::Ask));
    e.kind = EventKind::Trade.code();
    assert_eq!(e.side(), None);
    assert!(!e.is_book());
    e.kind = EventKind::Clear.code();
    assert!(e.is_book());
}

#[test]
fn odd_lengths_are_refused_or_ignored() {
    let bytes = Event::slice_as_bytes(&[sample(3)]);
    assert_eq!(bytes.len(), EVENT_SIZE);
    let short = bytes[..63].to_vec();
    assert_eq!(
        Event::bytes_as_slice(&short),
        Err(CastError::OutputSliceWouldHaveSlop)
    );
    assert!(Event::iter_unaligned(&short).is_empty());
    let mut long = bytes.clone();
    long.push(9);
    assert_eq!(Event::iter_unaligned(&long), vec![sample(3)]);
    // little-endian words in declaration order
    assert_eq!(bytes[0], 3);
    assert_eq!(bytes[8], 6);
    assert_eq!(bytes[60], EventKind::BidSet.code());
}

#[test]
fn builtin_ids_are_stable() {
    let r = Registry::builtin();
    assert_eq!(r.all().len(), 15);
    assert_eq!(r.id_of(Venue::Coinbase, "BTC-USD"), Some(1));
    assert_eq!(r.id_of(Venue::Coinbase, "DOGE-USD"), Some(5));
    assert_eq!(r.id_of(Venue::Binance, "BTCUSDT"), Some(6));
    assert_eq!(r.id_of(Venue::Binance, "DOGEUSDT"), Some(10));
    assert_eq!(r.id_of(Venue::Kraken, "BTC/USD"), Some(11));
    assert_eq!(r.id_of(Venue::Kraken, "DOGE/USD"), Some(15));
    assert_eq!(r.get(11).unwrap().canonical, "BTC-USD");
}

#[test]
fn rejects_duplicates_and_reserved() {
    let m = |id: u32, sym: &str| InstrumentMeta {
        id,
        venue: Venue::Kraken,
        venue_symbol: sym.to_string(),
        canonical: sym.to_string(),
    };
    assert_eq!(
        Registry::new(vec![m(1, "A/USD"), m(1, "B/USD")]).unwrap_err(),
        RegistryError::DuplicateId(1)
    );
    assert_eq!(
        Registry::new(vec![m(1, "A/USD"), m(2, "A/USD")]).unwrap_err(),
        RegistryError::DuplicateSymbol("A/USD".into())
    );
    assert_eq!(
        Registry::new(vec![m(0, "A/USD")]).unwrap_err(),
        RegistryError::ReservedId
    );
}

#[test]
fn registry_lookup_and_insert() {
    let mut r = Registry::builtin();
    let kraken: Vec<u32> = r.for_venue(Venue::Kraken).iter().map(|m| m.id).collect();
    assert_eq!(kraken, vec![11, 12, 13, 14, 15]);
    assert!(r.get(16).is_none());
    let m = |id: u32| InstrumentMeta {
        id,
        venue: Venue::Kraken,
        venue_symbol: "ADA/USD".to_string(),
        canonical: "ADA-USD".to_string(),
    };
    assert_eq!(r.insert(m(3)), Err(RegistryError::DuplicateId(3)));
    assert_eq!(r.insert(m(16)), Ok(()));
    assert_eq!(r.id_of(Venue::Kraken, "ADA/USD"), Some(16));
    assert_eq!(r.id_of(Venue::Binance, "ADA/USD"), None);
    assert_eq!(
        r.insert(m(17)),
        Err(RegistryError::DuplicateSymbol("ADA/USD".to_string()))
    );
}

/// Hand-verified against the first BTC/USD snapshot of the live capture
/// (checksum 423379305, BTC/USD price_dec=1, qty_dec=8).
#[test]
fn kraken_crc_golden_btc_snapshot() {
    let asks: [(i64, i64); 10] = [
        (6_350_190_000_000, 100_000),
        (6_350_200_000_000, 73_311),
        (6_350_210_000_000, 1_946_065),
        (6_350_220_000_000, 6_514_381),
        (6_350_400_000_000, 5_100),
        (6_350_470_000_000, 47_474_367),
        (6_350_480_000_000, 78_734_230),
        (6_350_510_000_000, 786_998),
        (6_350_590_000_000, 78_732_894),
        (6_350_640_000_000, 783_883),
    ];
    let bids: [(i64, i64); 10] = [
        (6_350_160_000_000, 63_889_204),
        (6_350_090_000_000, 5_100),
        (6_349_900_000_000, 78_741_286),
        (6_349_800_000_000, 130_271_205),
        (6_349_770_000_000, 5_100),
        (6_349_700_000_000, 15_000),
        (6_349_640_000_000, 27_044_082),
        (6_349_630_000_000, 81_891_828),
        (6_349_580_000_000, 2_713_013),
        (6_349_520_000_000, 5_990_000),
    ];
    assert_eq!(kraken_book_crc32(&asks, &bids, 1, 8), 423_379_305);
}

/// 5- and 7-decimal price formatting (XRP/DOGE style), cross-checked
/// against a Python zlib.crc32 reference implementation.
#[test]
fn golden_high_decimal_pairs() {
    // DOGE-style: price_dec=7. price 0.1234567, qty 2.5 / bid 0.1234560, 1e-6.
    assert_eq!(
        kraken_book_crc32(&[(12_345_670, 250_000_000)], &[(12_345_600, 100)], 7, 8),
        1_347_474_524
    );
    // XRP-style: price_dec=5. price 0.52345, qty 1000 / bid 0.52344, 1e-8.
    assert_eq!(
        kraken_book_crc32(&[(52_345_000, 100_000_000_000)], &[(52_344_000, 1)], 5, 8),
        984_447_197
    );
}

/// Only the top 10 levels per side count, even if more are passed.
#[test]
fn truncates_to_top_ten() {
    let asks: Vec<(i64, i64)> = (1..=12).map(|i| (100_000_000 * i, 100_000_000)).collect();
    let bids: Vec<(i64, i64)> = (0..12)
        .map(|i| (100_000_000 * (50 - i), 200_000_000))
        .collect();
    let full = kraken_book_crc32(&asks, &bids, 1, 8);
    let top10 = kraken_book_crc32(&asks[..10], &bids[..10], 1, 8);
    assert_eq!(full, top10);
    assert_eq!(full, 1_138_457_654); // python zlib.crc32 reference
}

/// Zero quantities contribute no bytes; the empty book hashes to 0.
#[test]
fn zero_values_and_empty_book() {
    assert_eq!(kraken_book_crc32(&[], &[], 1, 8), 0);
    // a level with qty 0 contributes only its price digits
    let with_zero_qty = kraken_book_crc32(&[(100_000_000, 0)], &[], 1, 8);
    let price_only = crc32fast::hash(b"10");
    assert_eq!(with_zero_qty, price_only);
}

#[test]
fn checksum_text_strips_leading_zeros() {
    let digits = checksum_digits(&[(50_000_000, 1)], &[(100_000_000, 0)], 1, 8);
    assert_eq!(digits, b"5110".to_vec());
}

#[test]
fn mono_is_monotonic() {
    let c = clock::init();
    let mut prev = clock::mono_ns(&c);
    for _ in 0..1000 {
        let now = clock::mono_ns(&c);
        assert!(now >= prev);
        prev = now;
    }
}

#[test]
fn wall_is_sane() {
    // between 2020-01-01 and 2100-01-01
    let w = clock::wall_ns();
    assert!(w > 1_577_836_800_000_000_000);
    assert!(w < 4_102_444_800_000_000_000);
}

#[test]
fn timestamps_saturate() {
    assert_eq!(clock::clamp_ns(5), 5);
    assert_eq!(clock::clamp_ns(u128::from(u64::MAX) + 1), u64::MAX);
    assert_eq!(clock::wall_stamp(None), 0);
    assert_eq!(clock::wall_stamp(Some(7)), 7);
}

fn sample_segment(n: u64) -> Vec<u8> {
    let mut w = RawLogWriter::create(3, 1000, 2000, br#"{"symbols":["BTC/USD"]}"#).unwrap();
    for i in 0..n {
        let payload = format!("{{\"seq\":{i},\"data\":\"xxxxxxxxxx\"}}");
        w.append(rkind::WS_TEXT, i * 10, i * 10 + 1, payload.as_bytes())
            .unwrap();
    }
    assert_eq!(w.records(), n);
    let out = w.take_pending();
    assert_eq!(out.len() as u64, w.bytes());
    out
}

#[test]
fn roundtrip_header_and_records() {
    let data = sample_segment(5);
    let mut rd = RawLogReader::from_reader(&data).unwrap();
    assert_eq!(rd.header.venue, 3);
    assert_eq!(rd.header.start_wall_ns, 1000);
    assert_eq!(rd.header.meta, br#"{"symbols":["BTC/USD"]}"#);
    let mut n = 0u64;
    while let Some(rec) = rd.read_next().unwrap() {
        assert_eq!(rec.rkind, rkind::WS_TEXT);
        assert_eq!(rec.recv_mono_ns, n * 10);
        assert!(rec.payload.starts_with(b"{\"seq\":"));
        n += 1;
    }
    assert_eq!(n, 5);
}

#[test]
fn detects_torn_tail_and_recovers() {
    let mut data = sample_segment(10);
    let full = scan(&data).unwrap();
    assert_eq!(full.records, 10);
    assert!(full.torn.is_none());

    // chop mid-record: cut 3 bytes off the end
    let len = data.len() as u64;
    data.truncate(data.len() - 3);

    let torn = scan(&data).unwrap();
    assert_eq!(torn.records, 9);
    let (valid, _reason) = torn.torn.unwrap();
    assert!(valid < len - 3);

    // truncate to valid prefix -> clean read of 9 records
    data.truncate(valid as usize);
    let clean = scan(&data).unwrap();
    assert_eq!(clean.records, 9);
    assert!(clean.torn.is_none());
}

#[test]
fn detects_crc_corruption() {
    let mut bytes = sample_segment(3);
    // flip one byte inside the last record's payload
    let n = bytes.len();
    bytes[n - 6] ^= 0xFF;
    let rep = scan(&bytes).unwrap();
    assert_eq!(rep.records, 2);
    assert!(rep.torn.is_some());
    assert_eq!(rep.torn.unwrap().1, "crc mismatch");
}

#[test]
fn rejects_bad_header() {
    assert!(matches!(
        RawLogReader::from_reader(b"NOTMAGIC"),
        Err(RawLogError::BadHeader(_))
    ));
    assert!(matches!(
        RawLogReader::from_reader(b"FB"),
        Err(RawLogError::BadHeader(_))
    ));
    let mut bytes = sample_segment(0);
    bytes[8] = 2;
    assert!(matches!(
        RawLogReader::from_reader(&bytes),
        Err(RawLogError::BadHeader("unsupported version"))
    ));
}

#[test]
fn empty_segment_is_valid() {
    let mut w = RawLogWriter::create(1, 5, 6, b"{}").unwrap();
    let data = w.take_pending();
    let rep = scan(&data).unwrap();
    assert_eq!(rep.records, 0);
    assert!(rep.torn.is_none());
    assert_eq!(rep.valid_bytes, data.len() as u64);
}

#[test]
fn segments_survive_every_cut() {
    let data = sample_segment(4);
    let header = RawLogReader::from_reader(&data).unwrap().offset() as usize;
    for cut in header..data.len() {
        let rep = scan(&data[..cut]).unwrap();
        match rep.torn {
            Some((valid, _)) => {
                let clean = scan(&data[..valid as usize]).unwrap();
                assert!(clean.torn.is_none());
                assert_eq!(clean.records, rep.records);
            }
            None => assert_eq!(rep.valid_bytes, cut as u64),
        }
    }
}

#[test]
fn raw_log_limits_and_messages() {
    let mut w = RawLogWriter::create(1, 0, 0, b"").unwrap();
    let before = w.bytes();
    let huge = vec![0u8; MAX_PAYLOAD + 1];
    assert_eq!(w.append(1, 0, 0, &huge), Err(RawLogError::TooLarge));
    assert_eq!(w.bytes(), before);
    assert_eq!(
        RawLogError::BadHeader("bad magic").message(),
        "bad header: bad magic"
    );
    let torn = RawLogError::TornTail {
        valid_bytes: 40,
        reason: "crc mismatch",
    };
    assert_eq!(
        torn.message(),
        "torn tail after 40 valid bytes: crc mismatch"
    );
}

#[test]
fn parsing_goes_by_value() {
    // zeros behind the last digit are exact, however many there are
    let zeros = |n: usize| "0".repeat(n);
    assert_eq!(parse_fixed(format!("1.{}", zeros(40)).as_bytes()), Ok(SCALE));
    assert_eq!(parse_fixed(format!("{}1", zeros(60)).as_bytes()), Ok(SCALE));
    assert_eq!(parse_fixed(format!("1{}e-50", zeros(50)).as_bytes()), Ok(SCALE));
    // an exponent counts in full against the digits of the fraction
    assert_eq!(
        parse_fixed(format!("0.{}1e10006", zeros(10_005)).as_bytes()),
        Ok(SCALE)
    );
    assert_eq!(
        parse_fixed(format!("-1{}e-10000", zeros(10_000)).as_bytes()),
        Ok(-SCALE)
    );
    assert_eq!(
        parse_fixed(b"1e99999999999999999999999999999999999999999999"),
        Err(ParseFixedError::Overflow)
    );
    assert_eq!(
        parse_fixed(b"1e-99999999999999999999999999999999999999999999"),
        Err(ParseFixedError::PrecisionLoss)
    );
    assert_eq!(parse_fixed(b"0e99999999999999999999999999999999999999"), Ok(0));
    // a fraction too fine is no overflow, however many digits it has
    let nines = |n: usize| "9".repeat(n);
    assert_eq!(
        parse_fixed(format!("0.{}", nines(40)).as_bytes()),
        Err(ParseFixedError::PrecisionLoss)
    );
    // too large and too fine: by how many digits the token has
    assert_eq!(
        parse_fixed(b"99999999999.123456789"),
        Err(ParseFixedError::PrecisionLoss)
    );
    assert_eq!(
        parse_fixed(format!("{}.123456789", nines(40)).as_bytes()),
        Err(ParseFixedError::Overflow)
    );
    assert_eq!(
        parse_fixed(format!("{}", nines(40)).as_bytes()),
        Err(ParseFixedError::Overflow)
    );
    // what is no decimal token is malformed, however it starts
    assert_eq!(
        parse_fixed(format!("{}x", nines(60)).as_bytes()),
        Err(ParseFixedError::Malformed)
    );
}

#[test]
fn checksum_of_an_empty_book_is_zero() {
    assert_eq!(kraken_book_crc32(&[], &[], 1, 8), 0);
    assert!(checksum_digits(&[], &[], 1, 8).is_empty());
    // the check value of CRC32 (IEEE): the digits 123456789
    assert_eq!(checksum_digits(&[(12_345, 6_789)], &[], 8, 8), b"123456789".to_vec());
    assert_eq!(kraken_book_crc32(&[(12_345, 6_789)], &[], 8, 8), 0xcbf4_3926);
}
