//! REST bodies in the raw log: the envelope that says which instrument a
//! response body belongs to.
use crate::codec;
use crate::json;
use crate::json::quote_json;
use crate::scan;
use crate::strings::digits_u64;
use crate::text;
use vstd::prelude::*;
use vstd::slice::slice_subrange;
use vstd::utf8::*;

verus! {

/// Errors from [`parse_rest_envelope`].
#[derive(Debug, Clone, Copy, PartialEq, Eq, Structural)]
pub enum EnvelopeError {
    /// Input doesn't start with the expected `{"instrument":` prefix.
    BadPrefix,
    /// Instrument id missing or not a u32.
    BadInstrument,
    /// `"body":` marker or closing brace missing.
    BadBody,
}

impl EnvelopeError {
    /// The message of this error.
    pub open spec fn message_spec(self) -> Seq<char> {
        match self {
            EnvelopeError::BadPrefix => "bad envelope prefix"@,
            EnvelopeError::BadInstrument => "bad instrument id"@,
            EnvelopeError::BadBody => "bad envelope body"@,
        }
    }

    /// The message of this error.
    pub fn message(&self) -> (r: &'static str)
        ensures
            r@ == self.message_spec(),
    {
        match self {
            EnvelopeError::BadPrefix => "bad envelope prefix",
            EnvelopeError::BadInstrument => "bad instrument id",
            EnvelopeError::BadBody => "bad envelope body",
        }
    }
}

/// The envelope of `body`, given the symbol and the URL as JSON strings.
pub open spec fn envelope_bytes(
    instrument: u32,
    symbol: Seq<u8>,
    url: Seq<u8>,
    body: Seq<u8>,
) -> Seq<u8> {
    codec::lit("{\"instrument\":") + (text::dec_bytes(instrument as nat) + codec::lit(
        ",\"venue_symbol\":",
    ) + symbol + codec::lit(",\"url\":") + url + codec::lit(",\"body\":") + body + seq![0x7d])
}

/// The instrument and the body that an envelope holds, or what is wrong with
/// it.
pub open spec fn envelope_parts(env: Seq<u8>) -> Result<(u32, Seq<u8>), EnvelopeError> {
    let prefix = codec::lit("{\"instrument\":");
    let marker = codec::lit(",\"body\":");
    let rest = env.skip(prefix.len() as int);
    let digits = rest.take(text::digit_end(rest, 0));
    if !scan::occurs_at(env, prefix, 0) {
        Err(EnvelopeError::BadPrefix)
    } else if digits.len() == 0 || text::digits_value(digits) > u32::MAX {
        Err(EnvelopeError::BadInstrument)
    } else {
        match scan::find(rest, marker) {
            None => Err(EnvelopeError::BadBody),
            Some(at) => if rest.last() != 0x7d || at + marker.len() >= rest.len() {
                Err(EnvelopeError::BadBody)
            } else {
                Ok(
                    (
                        text::digits_value(digits) as u32,
                        rest.subrange(at + marker.len(), rest.len() - 1),
                    ),
                )
            },
        }
    }
}

/// The bytes of the text around the fields.
proof fn lemma_marks()
    ensures
        codec::lit("{\"instrument\":").len() == 14,
        codec::lit(",\"venue_symbol\":") =~= seq![
            0x2cu8, 0x22, 0x76, 0x65, 0x6e, 0x75, 0x65, 0x5f, 0x73, 0x79, 0x6d, 0x62, 0x6f, 0x6c,
            0x22, 0x3a,
        ],
        codec::lit(",\"url\":") =~= seq![0x2cu8, 0x22, 0x75, 0x72, 0x6c, 0x22, 0x3a],
        codec::lit(",\"body\":") =~= seq![0x2cu8, 0x22, 0x62, 0x6f, 0x64, 0x79, 0x22, 0x3a],
{
    reveal_strlit("{\"instrument\":");
    reveal_strlit(",\"venue_symbol\":");
    reveal_strlit(",\"url\":");
    reveal_strlit(",\"body\":");
    is_ascii_chars_encode_utf8("{\"instrument\":"@);
    is_ascii_chars_encode_utf8(",\"venue_symbol\":"@);
    is_ascii_chars_encode_utf8(",\"url\":"@);
    is_ascii_chars_encode_utf8(",\"body\":"@);
}

/// The marker of the body does not stand before it.
proof fn lemma_no_early_marker(rest: Seq<u8>, n: int, symbol: Seq<u8>, url: Seq<u8>, j: int)
    requires
        json::is_quoted(symbol),
        json::is_quoted(url),
        0 <= n,
        n + 16 + symbol.len() + 7 + url.len() + 8 <= rest.len(),
        forall|k: int| 0 <= k < n ==> text::is_digit(#[trigger] rest[k]),
        rest.subrange(n, n + 16) == codec::lit(",\"venue_symbol\":"),
        rest.subrange(n + 16, n + 16 + symbol.len()) == symbol,
        rest.subrange(n + 16 + symbol.len(), n + 23 + symbol.len()) == codec::lit(",\"url\":"),
        rest.subrange(n + 23 + symbol.len(), n + 23 + symbol.len() + url.len()) == url,
        rest[n + 23 + symbol.len() + url.len()] == 0x2c,
        0 <= j < n + 23 + symbol.len() + url.len(),
    ensures
        !scan::occurs_at(rest, codec::lit(",\"body\":"), j),
{
    lemma_marks();
    let s0 = n + 16;
    let s1 = s0 + symbol.len();
    let u0 = s1 + 7;
    let u1 = u0 + url.len();
    let s_mark = rest.subrange(n, s0);
    let u_mark = rest.subrange(s1, u0);
    if scan::occurs_at(rest, codec::lit(",\"body\":"), j) {
        let w = rest.subrange(j, j + 8);
        assert(w[0] == 0x2c && w[1] == 0x22 && w[2] == 0x62);
        let q = j + 1;
        if q < n {
            assert(text::is_digit(rest[q]));
        } else if q < s0 {
            assert(rest[q] == s_mark[q - n]);
            if q + 1 < s0 {
                assert(rest[q + 1] == s_mark[q + 1 - n]);
            }
        } else if q < s1 {
            assert(rest[q] == rest.subrange(s0, s1)[q - s0]);
            if q > s0 {
                assert(rest[q - 1] == rest.subrange(s0, s1)[q - 1 - s0]);
            } else {
                assert(rest[q - 1] == s_mark[15]);
            }
            assert(rest[s1] == u_mark[0]);
        } else if q < u0 {
            assert(rest[q] == u_mark[q - s1]);
            if q + 1 < u0 {
                assert(rest[q + 1] == u_mark[q + 1 - s1]);
            }
        } else if q < u1 {
            assert(rest[q] == rest.subrange(u0, u1)[q - u0]);
            if q > u0 {
                assert(rest[q - 1] == rest.subrange(u0, u1)[q - 1 - u0]);
            } else {
                assert(rest[q - 1] == u_mark[6]);
            }
        }
        assert(false);
    }
}

/// Where the pieces of an envelope stand.
proof fn lemma_layout(
    d: Seq<u8>,
    a: Seq<u8>,
    s: Seq<u8>,
    b: Seq<u8>,
    u: Seq<u8>,
    m: Seq<u8>,
    body: Seq<u8>,
)
    requires
        m.len() > 0,
    ensures
        ({
            let rest = d + a + s + b + u + m + body + seq![0x7d];
            let s0 = d.len() + a.len();
            let s1 = s0 + s.len();
            let u0 = s1 + b.len();
            let u1 = u0 + u.len();
            let m1 = u1 + m.len();
            &&& rest.len() == m1 + body.len() + 1
            &&& rest.subrange(0, d.len() as int) == d
            &&& rest.subrange(d.len() as int, s0 as int) == a
            &&& rest.subrange(s0 as int, s1 as int) == s
            &&& rest.subrange(s1 as int, u0 as int) == b
            &&& rest.subrange(u0 as int, u1 as int) == u
            &&& rest.subrange(u1 as int, m1 as int) == m
            &&& rest.subrange(m1 as int, rest.len() - 1) == body
            &&& rest.last() == 0x7d
        }),
{
    let rest = d + a + s + b + u + m + body + seq![0x7d];
    let s0 = d.len() + a.len();
    let s1 = s0 + s.len();
    let u0 = s1 + b.len();
    let u1 = u0 + u.len();
    let m1 = u1 + m.len();
    assert(rest.subrange(0, d.len() as int) =~= d);
    assert(rest.subrange(d.len() as int, s0 as int) =~= a);
    assert(rest.subrange(s0 as int, s1 as int) =~= s);
    assert(rest.subrange(s1 as int, u0 as int) =~= b);
    assert(rest.subrange(u0 as int, u1 as int) =~= u);
    assert(rest.subrange(u1 as int, m1 as int) =~= m);
    assert(rest.subrange(m1 as int, rest.len() - 1) =~= body);
}

/// An envelope gives back the instrument and the body it was made of, byte
/// for byte, whatever the symbol, the URL and the body hold.
pub proof fn lemma_envelope_roundtrip(
    instrument: u32,
    symbol: Seq<u8>,
    url: Seq<u8>,
    body: Seq<u8>,
)
    requires
        json::is_quoted(symbol),
        json::is_quoted(url),
    ensures
        envelope_parts(envelope_bytes(instrument, symbol, url, body)) == Ok::<
            (u32, Seq<u8>),
            EnvelopeError,
        >((instrument, body)),
{
    let prefix = codec::lit("{\"instrument\":");
    let s_mark = codec::lit(",\"venue_symbol\":");
    let u_mark = codec::lit(",\"url\":");
    let marker = codec::lit(",\"body\":");
    let d = text::dec_bytes(instrument as nat);
    let n = d.len() as int;
    let env = envelope_bytes(instrument, symbol, url, body);
    let rest = d + s_mark + symbol + u_mark + url + marker + body + seq![0x7d];
    assert(s_mark.len() == 16 && u_mark.len() == 7 && marker.len() == 8 && s_mark[0] == 0x2c
        && marker[0] == 0x2c) by {
        lemma_marks();
    }
    assert(env.skip(prefix.len() as int) =~= rest);
    assert(env.subrange(0, prefix.len() as int) =~= prefix);
    lemma_layout(d, s_mark, symbol, u_mark, url, marker, body);
    text::lemma_dec_bytes(instrument as nat);
    let at = n + 23 + symbol.len() + url.len();
    assert forall|k: int| 0 <= k < n implies text::is_digit(#[trigger] rest[k]) by {
        assert(rest[k] == rest.subrange(0, n)[k]);
    }
    assert(rest[n] == rest.subrange(n, n + 16)[0]);
    text::lemma_digit_end_is(rest, 0, n);
    assert(rest.take(n) =~= d);
    assert(rest[at] == rest.subrange(at, at + 8)[0]);
    assert forall|j: int| 0 <= j < at implies !#[trigger] scan::occurs_at(rest, marker, j) by {
        lemma_no_early_marker(rest, n, symbol, url, j);
    }
    assert(scan::occurs_at(rest, marker, at));
    scan::lemma_find_is(rest, marker, at);
}

/// Wrap a REST response body in the raw-log envelope. The body is inserted
/// **verbatim** (byte-for-byte) so replay re-parses exactly what the venue
/// sent; the other fields are JSON-escaped strings.
pub fn rest_envelope(instrument: u32, venue_symbol: &str, url: &str, body: &[u8]) -> (r: Vec<u8>)
    ensures
        r@ == envelope_bytes(
            instrument,
            encode_utf8(json::json_quoted(venue_symbol@)),
            encode_utf8(json::json_quoted(url@)),
            body@,
        ),
        envelope_parts(r@) == Ok::<(u32, Seq<u8>), EnvelopeError>((instrument, body@)),
{
    let sym: String = quote_json(venue_symbol);
    let link: String = quote_json(url);
    let mut out: Vec<u8> = Vec::new();
    out.extend_from_slice("{\"instrument\":".as_bytes());
    text::push_dec_bytes(&mut out, instrument as u128);
    out.extend_from_slice(",\"venue_symbol\":".as_bytes());
    out.extend_from_slice(sym.as_str().as_bytes());
    out.extend_from_slice(",\"url\":".as_bytes());
    out.extend_from_slice(link.as_str().as_bytes());
    out.extend_from_slice(",\"body\":".as_bytes());
    out.extend_from_slice(body);
    out.push(0x7d);
    proof {
        let (s, u) = (encode_utf8(sym@), encode_utf8(link@));
        assert(out@ =~= envelope_bytes(instrument, s, u, body@));
        lemma_envelope_roundtrip(instrument, s, u, body@);
    }
    out
}

/// Inverse of [`rest_envelope`]: extract `(instrument, verbatim body)` from
/// an envelope. The body slice is exactly the bytes passed to
/// [`rest_envelope`] (no re-serialization, no trimming).
///
/// Framing note: the envelope's final `}` is positional (last byte), so a
/// truncated envelope is only detectable when the surviving last byte isn't
/// `}`. That is fine in practice: envelopes live inside CRC-framed rawlog
/// records, which already reject torn payloads.
pub fn parse_rest_envelope(env: &[u8]) -> (r: Result<(u32, &[u8]), EnvelopeError>)
    ensures
        match r {
            Ok(x) => envelope_parts(env@) == Ok::<(u32, Seq<u8>), EnvelopeError>((x.0, x.1@)),
            Err(e) => envelope_parts(env@) == Err::<(u32, Seq<u8>), EnvelopeError>(e),
        },
{
    let prefix: &[u8] = "{\"instrument\":".as_bytes();
    let marker: &[u8] = ",\"body\":".as_bytes();
    proof {
        lemma_marks();
    }
    let n: usize = prefix.len();
    if env.len() < n || !text::same_bytes(slice_subrange(env, 0, n), prefix) {
        return Err(EnvelopeError::BadPrefix);
    }
    let rest: &[u8] = slice_subrange(env, n, env.len());
    assert(rest@ =~= env@.skip(n as int));
    let end: usize = text::digit_run_end(rest, 0);
    if end == 0 {
        return Err(EnvelopeError::BadInstrument);
    }
    let digits: &[u8] = slice_subrange(rest, 0, end);
    proof {
        text::lemma_digit_end_bounds(rest@, 0);
        assert(digits@ =~= rest@.take(end as int));
        assert(digits@[0] == rest@[0]);
        assert(digits@.skip(0) =~= digits@);
        assert forall|i: int| 0 <= i < digits@.len() implies text::is_digit(
            #[trigger] digits@[i],
        ) by {
            assert(digits@[i] == rest@[i]);
        }
    }
    let instrument: u32 = match digits_u64(digits) {
        Some(v) => if v > u32::MAX as u64 {
            return Err(EnvelopeError::BadInstrument);
        } else {
            v as u32
        },
        None => return Err(EnvelopeError::BadInstrument),
    };
    let found: Option<usize> = scan::memmem_find(rest, marker);
    proof {
        scan::lemma_find(rest@, marker@);
        if found is Some {
            scan::lemma_find_is(rest@, marker@, found->0 as int);
        }
    }
    match found {
        None => Err(EnvelopeError::BadBody),
        Some(at) => {
            let start: usize = at + marker.len();
            if rest[rest.len() - 1] != 0x7d || start >= rest.len() {
                return Err(EnvelopeError::BadBody);
            }
            Ok((instrument, slice_subrange(rest, start, rest.len() - 1)))
        },
    }
}

} // verus!
