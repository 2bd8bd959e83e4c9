//! The soak capture program: its command line, which instruments it
//! subscribes to, and its REST snapshot plans.
//!
//! ```text
//! --data-dir <dir>     raw segment root          (default data/raw)
//! --stats-file <path>  stats JSONL file          (default ops/soak/stats.jsonl)
//! --pid-file <path>    pid file                  (default ops/soak/capture.pid)
//! --venues a,b,c       subset of coinbase,binance,kraken (default all)
//! --symbols A,B,...    base symbols              (default BTC,ETH,SOL,XRP,DOGE)
//! ```
use crate::args;
use crate::args::{owned_or, stop_at, tokenize, value_of, Program, Stop, Token};
use crate::codec::SymbolTable;
use crate::conn::{RestPlan, RestTarget};
use crate::event::Venue;
use crate::instrument;
use crate::instrument::{InstrumentMeta, Registry};
use crate::json::same_str;
use crate::span::Span;
use crate::strings;
use crate::text;
use vstd::prelude::*;
use vstd::string::*;

verus! {

/// The parsed command line.
#[derive(Debug)]
pub struct Args {
    /// Raw segment root.
    pub data_dir: String,
    /// Stats JSONL file.
    pub stats_file: String,
    /// Pid file.
    pub pid_file: String,
    /// Venues to capture.
    pub venues: Vec<Venue>,
    /// Base symbols to capture.
    pub symbols: Vec<String>,
}

/// A parsed command line, as values.
#[verifier::ext_equal]
pub struct Choice {
    pub data_dir: Seq<char>,
    pub stats_file: Seq<char>,
    pub pid_file: Seq<char>,
    pub venues: Seq<Venue>,
    pub symbols: Seq<Seq<char>>,
}

impl View for Args {
    type V = Choice;

    open spec fn view(&self) -> Choice {
        Choice {
            data_dir: self.data_dir@,
            stats_file: self.stats_file@,
            pid_file: self.pid_file@,
            venues: self.venues@,
            symbols: args::words(self.symbols@),
        }
    }
}

/// The flags of the program.
pub open spec fn flags() -> Seq<(Seq<char>, bool)> {
    seq![
        ("--data-dir"@, true),
        ("--stats-file"@, true),
        ("--pid-file"@, true),
        ("--venues"@, true),
        ("--symbols"@, true),
    ]
}

/// What a flag is called.
pub open spec fn flag_name(f: int) -> Seq<char> {
    if 0 <= f < 4 {
        flags()[f].0
    } else {
        "--symbols"@
    }
}

/// The venue that a part of `--venues` names, in any case and with blanks
/// around it.
pub open spec fn venue_named(part: Seq<char>) -> Option<Venue> {
    let name = strings::lowered(strings::trimmed(part));
    if name == "coinbase"@ {
        Some(Venue::Coinbase)
    } else if name == "binance"@ {
        Some(Venue::Binance)
    } else if name == "kraken"@ {
        Some(Venue::Kraken)
    } else {
        None
    }
}

/// The venues that the parts from `k` on name, or the message on the first
/// that names none.
pub open spec fn venues_from(parts: Seq<Seq<char>>, k: int) -> Result<Seq<Venue>, Seq<char>>
    decreases parts.len() - k,
{
    if !(0 <= k < parts.len()) {
        Ok(Seq::empty())
    } else {
        match venue_named(parts[k]) {
            None => Err("unknown venue: "@ + strings::lowered(strings::trimmed(parts[k]))),
            Some(v) => match venues_from(parts, k + 1) {
                Err(e) => Err(e),
                Ok(rest) => Ok(seq![v] + rest),
            },
        }
    }
}

/// The venues that a value of `--venues` names.
pub open spec fn venues_of(v: Seq<char>) -> Result<Seq<Venue>, Seq<char>> {
    venues_from(strings::parts(v), 0)
}

/// The symbols that a value of `--symbols` names.
pub open spec fn symbols_of(v: Seq<char>) -> Seq<Seq<char>> {
    strings::parts(v).map_values(|s: Seq<char>| strings::uppered(strings::trimmed(s)))
}

/// The base symbols that are captured unless others are asked for.
pub open spec fn default_symbols() -> Seq<Seq<char>> {
    seq!["BTC"@, "ETH"@, "SOL"@, "XRP"@, "DOGE"@]
}

/// What a command line asks for, or the message that refuses it.
pub open spec fn choice_of(argv: Seq<Seq<char>>) -> Result<Choice, Seq<char>> {
    let t = args::tokens(argv, flags(), 0);
    match args::first_halt(Capture, t, 0) {
        Some(args::Halt::Error(e)) => Err(e),
        _ => {
            let venues = match args::last_value(t, 3) {
                Some(v) => match venues_of(v) {
                    Ok(list) => list,
                    Err(_) => Seq::empty(),
                },
                None => Venue::ALL@,
            };
            let symbols = match args::last_value(t, 4) {
                Some(v) => symbols_of(v),
                None => default_symbols(),
            };
            if venues.len() == 0 {
                Err("--venues selected no venue"@)
            } else if symbols.len() == 0 {
                Err("--symbols selected no symbol"@)
            } else {
                Ok(
                    Choice {
                        data_dir: args::text_or(args::last_value(t, 0), "data/raw"@),
                        stats_file: args::text_or(
                            args::last_value(t, 1),
                            "ops/soak/stats.jsonl"@,
                        ),
                        pid_file: args::text_or(
                            args::last_value(t, 2),
                            "ops/soak/capture.pid"@,
                        ),
                        venues,
                        symbols,
                    },
                )
            }
        },
    }
}

/// The capture program.
#[derive(Debug, Clone, Copy)]
pub struct Capture;

impl Program for Capture {
    open spec fn halts(&self, t: args::Tok) -> Option<args::Halt> {
        match t {
            args::Tok::Unknown(s) => Some(args::Halt::Error("unknown arg: "@ + s)),
            args::Tok::Missing(f) => Some(
                args::Halt::Error(flag_name(f) + " requires a value"@),
            ),
            args::Tok::Value(f, v) => if f == 3 {
                match venues_of(v) {
                    Err(e) => Some(args::Halt::Error(e)),
                    Ok(_) => None,
                }
            } else {
                None
            },
            args::Tok::Switch(_) => None,
        }
    }

    fn check(&self, t: &Token<'_>) -> (r: Option<Stop>) {
        match *t {
            Token::Unknown(s) => Some(Stop::Error(args::joined("unknown arg: ", s))),
            Token::Missing(f) => {
                let name: &str = if f == 0 {
                    "--data-dir"
                } else if f == 1 {
                    "--stats-file"
                } else if f == 2 {
                    "--pid-file"
                } else if f == 3 {
                    "--venues"
                } else {
                    "--symbols"
                };
                Some(Stop::Error(args::joined(name, " requires a value")))
            },
            Token::Value(f, v) => if f == 3 {
                match read_venues(v) {
                    Err(e) => Some(Stop::Error(e)),
                    Ok(_) => None,
                }
            } else {
                None
            },
            Token::Switch(_) => None,
        }
    }
}

/// The venue that a part of `--venues` names, or the message that refuses it.
fn read_venue(part: &str) -> (r: Result<Venue, String>)
    ensures
        match r {
            Ok(v) => venue_named(part@) == Some(v),
            Err(e) => venue_named(part@) is None && e@ == "unknown venue: "@ + strings::lowered(
                strings::trimmed(part@),
            ),
        },
{
    let name: String = strings::ascii_lower(strings::trim(part));
    if same_str(name.as_str(), "coinbase") {
        Ok(Venue::Coinbase)
    } else if same_str(name.as_str(), "binance") {
        Ok(Venue::Binance)
    } else if same_str(name.as_str(), "kraken") {
        Ok(Venue::Kraken)
    } else {
        Err(args::joined("unknown venue: ", name.as_str()))
    }
}

/// The venues that a value of `--venues` names.
pub fn read_venues(v: &str) -> (r: Result<Vec<Venue>, String>)
    ensures
        match r {
            Ok(list) => venues_of(v@) == Ok::<Seq<Venue>, Seq<char>>(list@),
            Err(e) => venues_of(v@) == Err::<Seq<Venue>, Seq<char>>(e@),
        },
{
    let parts: Vec<&str> = strings::split_commas(v);
    let ghost p = strings::parts(v@);
    let mut out: Vec<Venue> = Vec::new();
    let mut i: usize = 0;
    while i < parts.len()
        invariant
            i <= parts@.len(),
            p == strings::texts(parts@),
            p == strings::parts(v@),
            match venues_from(p, i as int) {
                Ok(rest) => venues_of(v@) == Ok::<Seq<Venue>, Seq<char>>(out@ + rest),
                Err(e) => venues_of(v@) == Err::<Seq<Venue>, Seq<char>>(e),
            },
        decreases parts@.len() - i,
    {
        assert(p[i as int] == parts@[i as int]@);
        match read_venue(parts[i]) {
            Err(e) => {
                return Err(e);
            },
            Ok(venue) => {
                let ghost before = out@;
                out.push(venue);
                proof {
                    if let Ok(rest) = venues_from(p, i + 1) {
                        assert(before + (seq![venue] + rest) =~= out@ + rest);
                    }
                }
            },
        }
        i += 1;
    }
    assert(out@ + Seq::<Venue>::empty() =~= out@);
    Ok(out)
}

/// The symbols that a value of `--symbols` names.
pub fn read_symbols(v: &str) -> (r: Vec<String>)
    ensures
        args::words(r@) == symbols_of(v@),
{
    let parts: Vec<&str> = strings::split_commas(v);
    let mut out: Vec<String> = Vec::new();
    let mut i: usize = 0;
    while i < parts.len()
        invariant
            i <= parts@.len(),
            strings::texts(parts@) == strings::parts(v@),
            args::words(out@) == symbols_of(v@).take(i as int),
        decreases parts@.len() - i,
    {
        let s: String = strings::ascii_upper(strings::trim(parts[i]));
        let ghost before = args::words(out@);
        assert(strings::parts(v@)[i as int] == parts@[i as int]@);
        assert(symbols_of(v@)[i as int] == s@);
        out.push(s);
        assert(args::words(out@) =~= before.push(s@));
        assert(args::words(out@) =~= symbols_of(v@).take(i + 1));
        i += 1;
    }
    assert(symbols_of(v@).take(i as int) =~= symbols_of(v@));
    out
}

/// The base symbols that are captured unless others are asked for.
fn all_symbols() -> (r: Vec<String>)
    ensures
        args::words(r@) == default_symbols(),
{
    let mut out: Vec<String> = Vec::new();
    out.push("BTC".to_owned());
    out.push("ETH".to_owned());
    out.push("SOL".to_owned());
    out.push("XRP".to_owned());
    out.push("DOGE".to_owned());
    assert(args::words(out@) =~= default_symbols());
    out
}

/// All venues.
fn all_venues() -> (r: Vec<Venue>)
    ensures
        r@ == Venue::ALL@,
{
    let mut out: Vec<Venue> = Vec::new();
    out.push(Venue::Coinbase);
    out.push(Venue::Binance);
    out.push(Venue::Kraken);
    assert(out@ =~= Venue::ALL@);
    out
}

/// Parse the command line (everything after the program's name).
pub fn parse_args(argv: &[String]) -> (r: Result<Args, String>)
    ensures
        match r {
            Ok(a) => choice_of(args::words(argv@)) == Ok::<Choice, Seq<char>>(a@),
            Err(e) => choice_of(args::words(argv@)) == Err::<Choice, Seq<char>>(e@),
        },
{
    let names: [(&str, bool); 5] = [
        ("--data-dir", true),
        ("--stats-file", true),
        ("--pid-file", true),
        ("--venues", true),
        ("--symbols", true),
    ];
    assert(args::table(names@) =~= flags());
    let toks: Vec<Token<'_>> = tokenize(argv, names.as_slice());
    let t: &[Token<'_>] = toks.as_slice();
    if let Some(Stop::Error(e)) = stop_at(&Capture, t) {
        return Err(e);
    }
    let venues: Vec<Venue> = match value_of(t, 3) {
        Some(v) => match read_venues(v) {
            Ok(list) => list,
            Err(_) => Vec::new(),
        },
        None => all_venues(),
    };
    let symbols: Vec<String> = match value_of(t, 4) {
        Some(v) => read_symbols(v),
        None => all_symbols(),
    };
    if venues.len() == 0 {
        return Err("--venues selected no venue".to_owned());
    }
    if symbols.len() == 0 {
        return Err("--symbols selected no symbol".to_owned());
    }
    Ok(
        Args {
            data_dir: owned_or(value_of(t, 0), "data/raw"),
            stats_file: owned_or(value_of(t, 1), "ops/soak/stats.jsonl"),
            pid_file: owned_or(value_of(t, 2), "ops/soak/capture.pid"),
            venues,
            symbols,
        },
    )
}

/// The base symbol of a canonical name: what stands before the first dash.
pub open spec fn base_from(canonical: Seq<char>, i: int) -> Seq<char>
    decreases canonical.len() - i,
{
    if !(0 <= i < canonical.len()) || canonical[i] == '-' {
        canonical.take(i)
    } else {
        base_from(canonical, i + 1)
    }
}

/// An instrument of `venue` that one of the symbols asks for.
pub open spec fn wanted(m: instrument::Meta, venue: Venue, symbols: Seq<Seq<char>>) -> bool {
    m.venue == venue && symbols.contains(base_from(m.canonical, 0))
}

/// The instruments that some metas are.
pub open spec fn listed(v: Seq<&InstrumentMeta>) -> Seq<instrument::Meta> {
    Seq::new(v.len(), |i: int| v[i]@)
}

/// The base symbol of a canonical name.
fn base_symbol(canonical: &str) -> (r: &str)
    ensures
        r@ == base_from(canonical@, 0),
{
    let n: usize = canonical.unicode_len();
    let mut i: usize = 0;
    while i < n && canonical.get_char(i) != '-'
        invariant
            i <= n,
            n == canonical@.len(),
            base_from(canonical@, 0) == base_from(canonical@, i as int),
        decreases n - i,
    {
        i += 1;
    }
    assert(canonical@.subrange(0, i as int) =~= canonical@.take(i as int));
    canonical.substring_char(0, i)
}

/// True if `s` is among the symbols.
fn names(symbols: &[String], s: &str) -> (r: bool)
    ensures
        r == args::words(symbols@).contains(s@),
{
    let mut i: usize = 0;
    while i < symbols.len()
        invariant
            i <= symbols@.len(),
            forall|k: int| 0 <= k < i ==> #[trigger] args::words(symbols@)[k] != s@,
        decreases symbols@.len() - i,
    {
        if same_str(symbols[i].as_str(), s) {
            assert(args::words(symbols@)[i as int] == s@);
            return true;
        }
        i += 1;
    }
    false
}

/// The instruments of `venue` that the symbols ask for, in registry order.
pub fn select<'a>(registry: &'a Registry, venue: Venue, symbols: &[String]) -> (r: Vec<
    &'a InstrumentMeta,
>)
    ensures
        listed(r@) == registry@.filter(
            |m: instrument::Meta| wanted(m, venue, args::words(symbols@)),
        ),
{
    let all: &'a [InstrumentMeta] = registry.all();
    let ghost keep = |m: instrument::Meta| wanted(m, venue, args::words(symbols@));
    let ghost t = registry@;
    let mut out: Vec<&'a InstrumentMeta> = Vec::new();
    let mut i: usize = 0;
    proof {
        reveal(Seq::filter);
        assert(t.take(0).filter(keep) =~= Seq::<instrument::Meta>::empty());
        assert(listed(out@) =~= Seq::<instrument::Meta>::empty());
    }
    while i < all.len()
        invariant
            i <= all@.len(),
            t == instrument::metas_view(all@),
            keep == (|m: instrument::Meta| wanted(m, venue, args::words(symbols@))),
            listed(out@) == t.take(i as int).filter(keep),
        decreases all@.len() - i,
    {
        let ghost before = listed(out@);
        let m: &'a InstrumentMeta = &all[i];
        proof {
            reveal(Seq::filter);
            assert(t.take(i + 1).drop_last() =~= t.take(i as int));
            assert(t.take(i + 1).last() == m@);
        }
        if m.venue == venue && names(symbols, base_symbol(m.canonical.as_str())) {
            out.push(m);
            assert(listed(out@) =~= before.push(m@));
        }
        i += 1;
    }
    assert(t.take(i as int) =~= t);
    out
}

/// The symbol table of some instruments, as values.
pub open spec fn table_of(metas: Seq<instrument::Meta>) -> Seq<(Seq<u8>, u32)> {
    metas.map_values(|m: instrument::Meta| (vstd::utf8::encode_utf8(m.symbol), m.id))
}

/// The symbol table of some instruments.
pub fn symbol_table(metas: &[&InstrumentMeta]) -> (r: SymbolTable)
    ensures
        r@ == table_of(listed(metas@)),
{
    let mut pairs: Vec<(String, u32)> = Vec::new();
    let mut i: usize = 0;
    while i < metas.len()
        invariant
            i <= metas@.len(),
            pairs@.len() == i,
            forall|k: int|
                0 <= k < i ==> (#[trigger] pairs@[k]).0@ == metas@[k].venue_symbol@ && pairs@[k].1
                    == metas@[k].id,
        decreases metas@.len() - i,
    {
        pairs.push((metas[i].venue_symbol.as_str().to_owned(), metas[i].id));
        i += 1;
    }
    let r: SymbolTable = SymbolTable::new(pairs);
    assert(r@ =~= table_of(listed(metas@)));
    r
}

/// The symbols and ids of some instruments, for a segment's metadata.
pub fn symbol_ids<'a>(metas: &[&'a InstrumentMeta]) -> (r: Vec<(&'a str, u32)>)
    ensures
        r@.len() == metas@.len(),
        forall|k: int|
            0 <= k < r@.len() ==> (#[trigger] r@[k]).0@ == metas@[k].venue_symbol@ && r@[k].1
                == metas@[k].id,
{
    let mut out: Vec<(&'a str, u32)> = Vec::new();
    let mut i: usize = 0;
    while i < metas.len()
        invariant
            i <= metas@.len(),
            out@.len() == i,
            forall|k: int|
                0 <= k < i ==> (#[trigger] out@[k]).0@ == metas@[k].venue_symbol@ && out@[k].1
                    == metas@[k].id,
        decreases metas@.len() - i,
    {
        out.push((metas[i].venue_symbol.as_str(), metas[i].id));
        i += 1;
    }
    out
}

/// The URL of an instrument's book snapshot at a venue that has one.
pub open spec fn snapshot_url(venue: Venue, symbol: Seq<char>) -> Seq<char> {
    match venue {
        Venue::Binance => "https://api.binance.com/api/v3/depth?symbol="@ + symbol
            + "&limit=1000"@,
        _ => "https://api.exchange.coinbase.com/products/"@ + symbol + "/book?level=2"@,
    }
}

/// The plan fetches each of the instruments, in their order.
pub open spec fn targets_all(plan: RestPlan, venue: Venue, metas: Seq<instrument::Meta>) -> bool {
    &&& plan.targets@.len() == metas.len()
    &&& forall|i: int|
        0 <= i < metas.len() ==> {
            let t = #[trigger] plan.targets@[i];
            &&& t.instrument == metas[i].id
            &&& t.venue_symbol@ == metas[i].symbol
            &&& t.url@ == snapshot_url(venue, metas[i].symbol)
        }
}

/// The targets of a plan.
fn rest_targets(venue: Venue, metas: &[&InstrumentMeta]) -> (r: Vec<RestTarget>)
    ensures
        r@.len() == metas@.len(),
        forall|i: int|
            0 <= i < r@.len() ==> {
                let t = #[trigger] r@[i];
                &&& t.instrument == metas@[i].id
                &&& t.venue_symbol@ == metas@[i].venue_symbol@
                &&& t.url@ == snapshot_url(venue, metas@[i].venue_symbol@)
            },
{
    let mut out: Vec<RestTarget> = Vec::new();
    let mut i: usize = 0;
    while i < metas.len()
        invariant
            i <= metas@.len(),
            out@.len() == i,
            forall|i: int|
                0 <= i < out@.len() ==> {
                    let t = #[trigger] out@[i];
                    &&& t.instrument == metas@[i].id
                    &&& t.venue_symbol@ == metas@[i].venue_symbol@
                    &&& t.url@ == snapshot_url(venue, metas@[i].venue_symbol@)
                },
        decreases metas@.len() - i,
    {
        let symbol: &str = metas[i].venue_symbol.as_str();
        let mut url: String = match venue {
            Venue::Binance => "https://api.binance.com/api/v3/depth?symbol=".to_owned(),
            _ => "https://api.exchange.coinbase.com/products/".to_owned(),
        };
        url.append(symbol);
        match venue {
            Venue::Binance => url.append("&limit=1000"),
            _ => url.append("/book?level=2"),
        }
        out.push(
            RestTarget { instrument: metas[i].id, venue_symbol: symbol.to_owned(), url },
        );
        i += 1;
    }
    out
}

/// REST snapshot plan for one venue over its subscribed instruments.
///
/// Binance: `depth?limit=1000` costs 250 of the 6000/min weight budget; 1.5 s
/// spacing keeps even a reconnect storm far under it. Coinbase: the public
/// rate limit is ~10 req/s; 15-min staggered polls are trivial. Kraken
/// resyncs in-band (snapshot on subscribe, CRC verification).
pub fn rest_plan(venue: Venue, metas: &[&InstrumentMeta]) -> (r: RestPlan)
    ensures
        match venue {
            Venue::Binance => {
                &&& targets_all(r, venue, listed(metas@))
                &&& r.on_connect
                &&& r.refresh_every == Some(Span { nanos: 1_800_000_000_000 })
                &&& r.min_spacing.nanos == 1_500_000_000
            },
            Venue::Coinbase => {
                &&& targets_all(r, venue, listed(metas@))
                &&& !r.on_connect
                &&& r.refresh_every == Some(Span { nanos: 900_000_000_000 })
                &&& r.min_spacing.nanos == 500_000_000
            },
            Venue::Kraken => r.is_none(),
        },
{
    match venue {
        Venue::Binance => RestPlan {
            targets: rest_targets(venue, metas),
            on_connect: true,
            refresh_every: Some(Span::from_secs(1800)),
            min_spacing: Span::from_millis(1500),
        },
        Venue::Coinbase => RestPlan {
            targets: rest_targets(venue, metas),
            on_connect: false,
            refresh_every: Some(Span::from_secs(900)),
            min_spacing: Span::from_millis(500),
        },
        Venue::Kraken => RestPlan::none(),
    }
}

/// The last line of the stats file, newline-terminated.
pub open spec fn shutdown_text(ts_wall_ns: u64, clean: bool) -> Seq<char> {
    "{\"event\":\"shutdown\",\"ts_wall_ns\":"@ + text::chars_of(
        text::dec_bytes(ts_wall_ns as nat),
    ) + if clean {
        ",\"clean\":true}\n"@
    } else {
        ",\"clean\":false}\n"@
    }
}

/// The last line of the stats file: when capture ended, and whether every
/// venue task ended with it.
pub fn shutdown_line(ts_wall_ns: u64, clean: bool) -> (r: String)
    ensures
        r@ == shutdown_text(ts_wall_ns, clean),
{
    let mut out: String = "{\"event\":\"shutdown\",\"ts_wall_ns\":".to_owned();
    text::push_dec(&mut out, ts_wall_ns as u128);
    if clean {
        out.append(",\"clean\":true}\n");
    } else {
        out.append(",\"clean\":false}\n");
    }
    out
}

} // verus!
