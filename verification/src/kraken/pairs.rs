//! Decimal precisions of Kraken's pairs, as the book checksum needs them, and
//! the check of the pinned ones against the venue's own list.
use crate::json;
use crate::json::{parse_json, show_array, Json, JsonValue};
use crate::text;
use vstd::prelude::*;
use vstd::string::*;
use vstd::utf8::*;

verus! {

/// Kraken REST endpoint that lists the pairs' precisions (public, no auth).
pub const ASSET_PAIRS_URL: &'static str = "https://api.kraken.com/0/public/AssetPairs";

/// The pinned (price, quantity) decimals of a pair.
pub open spec fn pinned_decimals(symbol: Seq<char>) -> Option<(u32, u32)> {
    if symbol == "BTC/USD"@ {
        Some((1, 8))
    } else if symbol == "ETH/USD"@ || symbol == "SOL/USD"@ {
        Some((2, 8))
    } else if symbol == "XRP/USD"@ {
        Some((5, 8))
    } else if symbol == "DOGE/USD"@ {
        Some((7, 8))
    } else {
        None
    }
}

/// Venue (price, quantity) decimal precisions for the subscribed pairs, as
/// required by the book checksum. Values fetched from Kraken's
/// `/0/public/AssetPairs` (`pair_decimals`, `lot_decimals`) on 2026-07-07.
///
/// NOTE: this table is a point-in-time snapshot - Kraken can change a pair's
/// precisions (it has repriced `pair_decimals` before). If a value drifts,
/// the CRC oracle is the tripwire: every book message's checksum is
/// recomputed downstream from these decimals, so a change surfaces
/// immediately as persistent checksum mismatches for that pair. On such a
/// mismatch storm, re-fetch `/0/public/AssetPairs` and update this table.
pub fn pair_decimals(venue_symbol: &str) -> (r: Option<(u32, u32)>)
    ensures
        r == pinned_decimals(venue_symbol@),
{
    if json::same_str(venue_symbol, "BTC/USD") {
        Some((1, 8))
    } else if json::same_str(venue_symbol, "ETH/USD") || json::same_str(venue_symbol, "SOL/USD") {
        Some((2, 8))
    } else if json::same_str(venue_symbol, "XRP/USD") {
        Some((5, 8))
    } else if json::same_str(venue_symbol, "DOGE/USD") {
        Some((7, 8))
    } else {
        None
    }
}

/// The legacy code of a currency.
pub open spec fn v1_code(code: Seq<char>) -> Seq<char> {
    if code == "BTC"@ {
        "XBT"@
    } else if code == "DOGE"@ {
        "XDG"@
    } else {
        code
    }
}

/// The legacy name of `s`, whose first part starts at `from` and has been
/// read up to `i`: every part between slashes by its legacy code.
pub open spec fn v1_name_from(s: Seq<char>, from: int, i: int) -> Seq<char>
    decreases s.len() - i,
{
    if !(0 <= from <= i < s.len()) {
        v1_code(s.subrange(from, i))
    } else if s[i] == '/' {
        v1_code(s.subrange(from, i)) + seq!['/'] + v1_name_from(s, i + 1, i + 1)
    } else {
        v1_name_from(s, from, i + 1)
    }
}

/// Map a WS v2 modern pair name to the v1 `wsname` used by the REST
/// `AssetPairs` response. Kraken's REST layer still speaks the legacy
/// currency codes for two of our bases: `BTC` is `XBT` and `DOGE` is `XDG`
/// (e.g. v2 `BTC/USD` appears as `wsname` `XBT/USD`); every other code we
/// subscribe to is identical on both sides.
pub fn v1_wsname(v2_symbol: &str) -> (r: String)
    ensures
        r@ == v1_name_from(v2_symbol@, 0, 0),
{
    let ghost s = v2_symbol@;
    let n: usize = v2_symbol.unicode_len();
    let mut out: String = String::new();
    let mut from: usize = 0;
    let mut i: usize = 0;
    assert(out@ + v1_name_from(s, 0, 0) =~= v1_name_from(s, 0, 0));
    while i < n
        invariant
            from <= i <= n,
            n == s.len(),
            s == v2_symbol@,
            out@ + v1_name_from(s, from as int, i as int) == v1_name_from(s, 0, 0),
        decreases n - i,
    {
        if v2_symbol.get_char(i) == '/' {
            let ghost before = out@;
            push_v1_code(&mut out, v2_symbol.substring_char(from, i));
            out.push('/');
            proof {
                let tail = v1_name_from(s, i + 1, i + 1);
                assert(out@ + tail =~= before + v1_name_from(s, from as int, i as int));
            }
            from = i + 1;
        }
        i += 1;
    }
    push_v1_code(&mut out, v2_symbol.substring_char(from, n));
    out
}

/// Append the legacy code of a currency.
fn push_v1_code(out: &mut String, code: &str)
    ensures
        final(out)@ == old(out)@ + v1_code(code@),
{
    if json::same_str(code, "BTC") {
        out.append("XBT");
    } else if json::same_str(code, "DOGE") {
        out.append("XDG");
    } else {
        out.append(code);
    }
}

/// The decimals that one entry of the response gives under its `wsname`.
pub open spec fn entry_decimals(v: JsonValue) -> Option<(Seq<char>, u64, u64)> {
    match (
        json::str_member(v, "wsname"@),
        json::u64_member(v, "pair_decimals"@),
        json::u64_member(v, "lot_decimals"@),
    ) {
        (Some(w), Some(pd), Some(ld)) => Some((w, pd, ld)),
        _ => None,
    }
}

/// The decimals of the pair `wsname` in the response: those of the last
/// entry that gives them.
pub open spec fn venue_decimals(m: Seq<(Seq<char>, JsonValue)>, wsname: Seq<char>) -> Option<
    (u64, u64),
>
    decreases m.len(),
{
    if m.len() == 0 {
        None
    } else {
        match entry_decimals(m.last().1) {
            Some((w, pd, ld)) if w == wsname => Some((pd, ld)),
            _ => venue_decimals(m.drop_last(), wsname),
        }
    }
}

/// A drift line: the pair by both names, and what is wrong with it.
pub open spec fn drift_line(symbol: Seq<char>, what: Seq<char>) -> Seq<char> {
    symbol + " (wsname "@ + v1_name_from(symbol, 0, 0) + "): "@ + what
}

/// The decimal form of a number, as text.
pub open spec fn dec_chars(n: nat) -> Seq<char> {
    text::chars_of(text::dec_bytes(n))
}

/// A precision that is not the pinned one.
pub open spec fn changed(name: Seq<char>, pinned: u32, now: u64) -> Seq<char> {
    name + " pinned "@ + dec_chars(pinned as nat) + ", venue now "@ + dec_chars(now as nat)
}

/// The drift lines of one pinned pair.
pub open spec fn pair_drift(
    m: Seq<(Seq<char>, JsonValue)>,
    symbol: Seq<char>,
    pin: (u32, u32),
) -> Seq<Seq<char>> {
    match venue_decimals(m, v1_name_from(symbol, 0, 0)) {
        None => seq![drift_line(symbol, "missing from AssetPairs response"@)],
        Some((pd, ld)) => (if pd != pin.0 {
            seq![drift_line(symbol, changed("pair_decimals"@, pin.0, pd))]
        } else {
            Seq::empty()
        }) + (if ld != pin.1 {
            seq![drift_line(symbol, changed("lot_decimals"@, pin.1, ld))]
        } else {
            Seq::empty()
        }),
    }
}

/// The drift lines of the first `k` pinned pairs.
pub open spec fn drift(
    m: Seq<(Seq<char>, JsonValue)>,
    pinned: Seq<(String, (u32, u32))>,
    k: int,
) -> Seq<Seq<char>>
    decreases k,
{
    if k <= 0 {
        Seq::empty()
    } else {
        drift(m, pinned, k - 1) + pair_drift(m, pinned[k - 1].0@, pinned[k - 1].1)
    }
}

/// What the response `v`, whose errors are shown as `errors`, says of the
/// pinned pairs: the drift lines, or why it could not be interpreted at all.
pub open spec fn response_drift(
    v: JsonValue,
    errors: Seq<char>,
    pinned: Seq<(String, (u32, u32))>,
) -> Result<Seq<Seq<char>>, Seq<char>> {
    match json::arr_member(v, "error"@) {
        Some(errs) if errs.len() > 0 => Err("AssetPairs: venue error: "@ + errors),
        _ => match json::member(v, "result"@) {
            Some(JsonValue::Obj(m)) => Ok(drift(m, pinned, pinned.len() as int)),
            _ => Err("AssetPairs: missing result object"@),
        },
    }
}

/// The same texts.
pub open spec fn same_lines(r: Seq<String>, lines: Seq<Seq<char>>) -> bool {
    r.len() == lines.len() && forall|i: int| 0 <= i < r.len() ==> (#[trigger] r[i])@ == lines[i]
}

/// The decimals of a pair in the response.
fn find_decimals(m: &Vec<(String, Json)>, wsname: &str) -> (r: Option<(u64, u64)>)
    ensures
        r == venue_decimals(json::member_views(m@), wsname@),
{
    let ghost g = json::member_views(m@);
    let mut n: usize = m.len();
    assert(g.take(n as int) =~= g);
    while n > 0
        invariant
            n <= m@.len(),
            g == json::member_views(m@),
            venue_decimals(g, wsname@) == venue_decimals(g.take(n as int), wsname@),
        decreases n,
    {
        assert(g.take(n as int).drop_last() =~= g.take(n - 1));
        let v: &Json = &m[n - 1].1;
        if let (Some(w), Some(pd), Some(ld)) = (
            v.get_str("wsname"),
            v.get_u64("pair_decimals"),
            v.get_u64("lot_decimals"),
        ) {
            if json::same_str(w, wsname) {
                return Some((pd, ld));
            }
        }
        n -= 1;
    }
    None
}

/// One drift line.
fn line(symbol: &str, wsname: &str, what: &str) -> (r: String)
    requires
        wsname@ == v1_name_from(symbol@, 0, 0),
    ensures
        r@ == drift_line(symbol@, what@),
{
    let mut out: String = symbol.to_owned();
    out.append(" (wsname ");
    out.append(wsname);
    out.append("): ");
    out.append(what);
    out
}

/// The text for a precision that is not the pinned one.
fn changed_text(name: &str, pinned: u32, now: u64) -> (r: String)
    ensures
        r@ == changed(name@, pinned, now),
{
    let mut out: String = name.to_owned();
    out.append(" pinned ");
    text::push_dec(&mut out, pinned as u128);
    out.append(", venue now ");
    text::push_dec(&mut out, now as u128);
    out
}

/// Append the drift lines of one pinned pair.
fn push_drift(m: &Vec<(String, Json)>, symbol: &str, pin: (u32, u32), out: &mut Vec<String>)
    ensures
        forall|lines: Seq<Seq<char>>| #[trigger]
            same_lines(old(out)@, lines) ==> same_lines(
                final(out)@,
                lines + pair_drift(json::member_views(m@), symbol@, pin),
            ),
{
    let wsname: String = v1_wsname(symbol);
    match find_decimals(m, wsname.as_str()) {
        None => {
            out.push(line(symbol, wsname.as_str(), "missing from AssetPairs response"));
        },
        Some((pd, ld)) => {
            if pd != pin.0 as u64 {
                let what: String = changed_text("pair_decimals", pin.0, pd);
                out.push(line(symbol, wsname.as_str(), what.as_str()));
            }
            if ld != pin.1 as u64 {
                let what: String = changed_text("lot_decimals", pin.1, ld);
                out.push(line(symbol, wsname.as_str(), what.as_str()));
            }
        },
    }
}

/// Compare the pinned precisions with the venue's response `doc`, whose errors
/// are shown as `errors`.
pub fn response_drifts(doc: &Json, errors: &str, pinned: &[(String, (u32, u32))]) -> (r: Result<
    Vec<String>,
    String,
>)
    ensures
        match response_drift(doc.view(), errors@, pinned@) {
            Ok(lines) => r matches Ok(v) && same_lines(v@, lines),
            Err(m) => r matches Err(e) && e@ == m,
        },
{
    if let Some(errs) = doc.get_arr("error") {
        if errs.len() > 0 {
            return Err("AssetPairs: venue error: ".to_owned().concat(errors));
        }
    }
    let m: &Vec<(String, Json)> = match doc.get("result") {
        Some(v) => match v.as_obj() {
            Some(m) => m,
            None => {
                return Err("AssetPairs: missing result object".to_owned());
            },
        },
        None => {
            return Err("AssetPairs: missing result object".to_owned());
        },
    };
    let ghost g = json::member_views(m@);
    let mut out: Vec<String> = Vec::new();
    let mut i: usize = 0;
    while i < pinned.len()
        invariant
            i <= pinned@.len(),
            g == json::member_views(m@),
            same_lines(out@, drift(g, pinned@, i as int)),
        decreases pinned@.len() - i,
    {
        push_drift(m, pinned[i].0.as_str(), pinned[i].1, &mut out);
        i += 1;
    }
    Ok(out)
}

/// What the pinned precisions come to against a raw response body.
pub open spec fn body_drift(body: Seq<char>, pinned: Seq<(String, (u32, u32))>) -> Result<
    Seq<Seq<char>>,
    Seq<char>,
> {
    match json::json_of(encode_utf8(body)) {
        Err(m) => Err("AssetPairs: bad JSON: "@ + m),
        Ok(v) => response_drift(
            v,
            match json::shown_array(encode_utf8(body), "error"@) {
                Some(errors) => errors,
                None => Seq::empty(),
            },
            pinned,
        ),
    }
}

/// Compare the pinned [`pair_decimals`] snapshot against a raw
/// `/0/public/AssetPairs` response body.
///
/// `pinned` is `(v2 symbol, (pair_decimals, lot_decimals))` per subscribed
/// pair; lookup into the response goes through [`v1_wsname`]. Returns one
/// human-readable drift line per missing pair or changed precision - an
/// empty vec means the pinned snapshot still matches the venue. `Err` means
/// the response could not be interpreted at all (bad JSON, venue error,
/// missing fields), which callers must treat as "check unavailable", never
/// as drift.
pub fn check_pair_decimals(assetpairs_body: &str, pinned: &[(String, (u32, u32))]) -> (r: Result<
    Vec<String>,
    String,
>)
    ensures
        match body_drift(assetpairs_body@, pinned@) {
            Ok(lines) => r matches Ok(v) && same_lines(v@, lines),
            Err(m) => r matches Err(e) && e@ == m,
        },
{
    match parse_json(assetpairs_body.as_bytes()) {
        Err(m) => Err("AssetPairs: bad JSON: ".to_owned().concat(m.as_str())),
        Ok(doc) => {
            let errors: String = match show_array(assetpairs_body.as_bytes(), "error") {
                Some(errors) => errors,
                None => String::new(),
            };
            response_drifts(&doc, errors.as_str(), pinned)
        },
    }
}

} // verus!
