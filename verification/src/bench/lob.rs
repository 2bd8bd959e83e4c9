//! The book-replay benchmark: its command line, venue-routed books and the
//! digests that every pass must agree on.
use crate::args;
use crate::args::{joined, stop_at, tokenize, value_of, Program, Stop, Token};
use crate::bench::options;
use crate::bench::options::{parse_size, read_options, shared_stop, Options};
use crate::book::{Apply, BookState, L2Book};
use crate::btree::BTreeBook;
use crate::bookset;
use crate::bookset::BookSet;
use crate::event::{Event, Venue};
use crate::ladder::LadderBook;
use crate::text;
use vstd::prelude::*;
use vstd::string::*;

verus! {

/// Measured passes of a full run.
pub const PASSES_FULL: usize = 5;

/// Measured passes under `--quick` (smoke runs on a busy machine).
pub const PASSES_QUICK: usize = 2;

/// Measured passes for the throughput phase.
pub fn measured_passes(quick: bool) -> (r: usize)
    ensures
        r == if quick {
            PASSES_QUICK
        } else {
            PASSES_FULL
        },
{
    if quick {
        PASSES_QUICK
    } else {
        PASSES_FULL
    }
}

/// How the program is used.
pub open spec fn usage_spec() -> Seq<char> {
    "usage: bench-lob --data <raw dir> [--quick] [--results-dir DIR] [--kraken-depth N] [--overwrite]"@
}

/// How the program is used.
pub fn usage() -> (r: &'static str)
    ensures
        r@ == usage_spec(),
{
    "usage: bench-lob --data <raw dir> [--quick] [--results-dir DIR] [--kraken-depth N] [--overwrite]"
}

/// Parsed command line.
#[derive(Debug, Clone, PartialEq, Eq)]
pub struct Config {
    /// Raw capture directory.
    pub data: String,
    /// Kraken venue depth cap (100 for smoke/soak captures).
    pub kraken_depth: usize,
    /// What every benchmark is told.
    pub options: Options,
}

/// A parsed command line, as values.
#[verifier::ext_equal]
pub struct Choice {
    pub data: Seq<char>,
    pub kraken_depth: usize,
    pub options: options::Told,
}

impl View for Config {
    type V = Choice;

    open spec fn view(&self) -> Choice {
        Choice { data: self.data@, kraken_depth: self.kraken_depth, options: self.options@ }
    }
}

/// The place of `--data` among the flags.
pub const DATA: usize = 5;

/// The place of `--kraken-depth`.
pub const KRAKEN_DEPTH: usize = 6;

/// The flags of the program.
pub open spec fn flags() -> Seq<(Seq<char>, bool)> {
    options::shared_flags() + seq![("--data"@, true), ("--kraken-depth"@, true)]
}

/// The book-replay benchmark.
#[derive(Debug, Clone, Copy)]
pub struct LobBench;

impl Program for LobBench {
    open spec fn halts(&self, t: args::Tok) -> Option<args::Halt> {
        let depth = Some(args::Halt::Error("--kraken-depth needs an integer"@));
        match t {
            args::Tok::Missing(f) if f == KRAKEN_DEPTH => depth,
            args::Tok::Value(f, v) if f == KRAKEN_DEPTH && options::size_of_text(v) is None => depth,
            _ => options::shared_halt(t, usage_spec(), "--results-dir needs a path"@, false),
        }
    }

    fn check(&self, t: &Token<'_>) -> (r: Option<Stop>) {
        let bad: bool = match *t {
            Token::Missing(f) => f == KRAKEN_DEPTH,
            Token::Value(f, v) => f == KRAKEN_DEPTH && parse_size(v).is_none(),
            _ => false,
        };
        if bad {
            return Some(Stop::Error("--kraken-depth needs an integer".to_owned()));
        }
        shared_stop(t, usage(), "--results-dir needs a path", false)
    }
}

/// What a command line asks for, or the message that refuses it.
pub open spec fn config_of(argv: Seq<Seq<char>>) -> Result<Choice, Seq<char>> {
    let t = args::tokens(argv, flags(), 0);
    match args::first_halt(LobBench, t, 0) {
        Some(args::Halt::Error(e)) => Err(e),
        _ => match args::last_value(t, DATA as int) {
            None => Err("--data <dir> required\n"@ + usage_spec()),
            Some(data) => Ok(
                Choice {
                    data,
                    kraken_depth: match args::last_value(t, KRAKEN_DEPTH as int) {
                        Some(v) => match options::size_of_text(v) {
                            Some(n) => n,
                            None => 100,
                        },
                        None => 100,
                    },
                    options: options::told(t),
                },
            ),
        },
    }
}

/// Parse CLI args (everything after the program's name). Returns a usage
/// error string on bad input.
pub fn parse_args(argv: &[String]) -> (r: Result<Config, String>)
    ensures
        match r {
            Ok(c) => config_of(args::words(argv@)) == Ok::<Choice, Seq<char>>(c@),
            Err(e) => config_of(args::words(argv@)) == Err::<Choice, Seq<char>>(e@),
        },
{
    let names: [(&str, bool); 7] = [
        ("--quick", false),
        ("--results-dir", true),
        ("--overwrite", false),
        ("--help", false),
        ("-h", false),
        ("--data", true),
        ("--kraken-depth", true),
    ];
    assert(args::table(names@) =~= flags());
    let toks: Vec<Token<'_>> = tokenize(argv, names.as_slice());
    let t: &[Token<'_>] = toks.as_slice();
    if let Some(Stop::Error(e)) = stop_at(&LobBench, t) {
        return Err(e);
    }
    match value_of(t, DATA) {
        None => Err(joined("--data <dir> required\n", usage())),
        Some(data) => {
            let kraken_depth: usize = match value_of(t, KRAKEN_DEPTH) {
                Some(v) => match parse_size(v) {
                    Some(n) => n,
                    None => 100,
                },
                None => 100,
            };
            Ok(Config { data: data.to_owned(), kraken_depth, options: read_options(t) })
        },
    }
}

/// Fresh venue-routed book pair: Kraken events go to a depth-capped set,
/// everything else to an unlimited set.
#[verifier::reject_recursive_types(B)]
pub struct RoutedBooks<B: L2Book, F: Fn(Option<usize>) -> B> {
    other: BookSet<B, F>,
    kraken: BookSet<B, F>,
}

/// The state of each book of either set.
#[verifier::ext_equal]
pub struct Routed {
    pub other: Map<u32, BookState>,
    pub kraken: Map<u32, BookState>,
}

impl Routed {
    /// No books.
    pub open spec fn empty() -> Routed {
        Routed { other: Map::empty(), kraken: Map::empty() }
    }

    /// What one event does, and what it reports.
    pub open spec fn step(self, depth: Option<usize>, ev: Event) -> (Routed, Apply) {
        if ev.venue == Venue::Kraken.code_spec() {
            let s = bookset::set_step(self.kraken, depth, ev);
            (Routed { kraken: s.0, ..self }, s.1)
        } else {
            let s = bookset::set_step(self.other, None, ev);
            (Routed { other: s.0, ..self }, s.1)
        }
    }

    /// The books after some events.
    pub open spec fn run(depth: Option<usize>, evs: Seq<Event>) -> Routed
        decreases evs.len(),
    {
        if evs.len() == 0 {
            Routed::empty()
        } else {
            Routed::run(depth, evs.drop_last()).step(depth, evs.last()).0
        }
    }

    /// The digest of both sets.
    pub open spec fn digest(self) -> u64 {
        bookset::set_digest(self.other) ^ rotated(bookset::set_digest(self.kraken))
    }

    /// No book has dropped as many as `n` events.
    pub open spec fn dropped_below(self, n: int) -> bool {
        &&& forall|k: u32| #[trigger] self.other.contains_key(k) ==> self.other[k].dropped < n
        &&& forall|k: u32| #[trigger] self.kraken.contains_key(k) ==> self.kraken[k].dropped < n
    }
}

/// A number with its bits rotated left by one.
pub open spec fn rotated(x: u64) -> u64 {
    (x << 1) | (x >> 63)
}

impl<B: L2Book, F: Fn(Option<usize>) -> B> RoutedBooks<B, F> {
    /// The state of each book.
    pub closed spec fn state(&self) -> Routed {
        Routed { other: self.other.states(), kraken: self.kraken.states() }
    }

    /// The depth of the Kraken books.
    pub closed spec fn depth(&self) -> Option<usize> {
        self.kraken.cap()
    }

    /// Both sets are sound.
    pub closed spec fn wf(&self) -> bool {
        self.other.wf() && self.kraken.wf() && self.other.cap() is None
    }

    /// Two empty sets; the functions build a book given the depth cap.
    pub fn new(make_other: F, make_kraken: F, kraken_depth: Option<usize>) -> (r: Self)
        requires
            bookset::makes_books::<B, F>(make_other),
            bookset::makes_books::<B, F>(make_kraken),
        ensures
            r.wf(),
            r.state() == Routed::empty(),
            r.depth() == kraken_depth,
    {
        RoutedBooks {
            other: BookSet::new(None, make_other),
            kraken: BookSet::new(kraken_depth, make_kraken),
        }
    }

    /// Apply an event to its instrument's book.
    pub fn apply(&mut self, ev: &Event) -> (r: Apply)
        requires
            old(self).wf(),
            old(self).state().dropped_below(u64::MAX as int),
        ensures
            final(self).wf(),
            final(self).depth() == old(self).depth(),
            (final(self).state(), r) == old(self).state().step(old(self).depth(), *ev),
    {
        if ev.venue == Venue::Kraken.code() {
            self.kraken.apply(ev)
        } else {
            self.other.apply(ev)
        }
    }

    /// Combined digest of both sets.
    pub fn combined_digest(&self) -> (r: u64)
        requires
            self.wf(),
        ensures
            r == self.state().digest(),
    {
        let k: u64 = self.kraken.combined_digest();
        self.other.combined_digest() ^ ((k << 1) | (k >> 63))
    }
}

/// An event drops at most one event of a book.
pub proof fn lemma_dropped_below(depth: Option<usize>, evs: Seq<Event>)
    ensures
        Routed::run(depth, evs).dropped_below((evs.len() + 1) as int),
    decreases evs.len(),
{
    if evs.len() > 0 {
        lemma_dropped_below(depth, evs.drop_last());
    }
}

/// Apply every event once into fresh books; return the final combined
/// digest. This is the body of one throughput pass.
pub fn apply_all<B: L2Book, F: Fn(Option<usize>) -> B>(
    events: &[Event],
    make_other: F,
    make_kraken: F,
    kraken_depth: Option<usize>,
) -> (r: u64)
    requires
        bookset::makes_books::<B, F>(make_other),
        bookset::makes_books::<B, F>(make_kraken),
    ensures
        r == Routed::run(kraken_depth, events@).digest(),
{
    let mut books: RoutedBooks<B, F> = RoutedBooks::new(make_other, make_kraken, kraken_depth);
    let n: usize = events.len();
    let mut i: usize = 0;
    assert(events@.take(0) =~= Seq::<Event>::empty());
    while i < n
        invariant
            i <= n,
            n == events@.len(),
            books.wf(),
            books.depth() == kraken_depth,
            books.state() == Routed::run(kraken_depth, events@.take(i as int)),
        decreases n - i,
    {
        proof {
            lemma_dropped_below(kraken_depth, events@.take(i as int));
            assert(events@.take(i + 1).drop_last() =~= events@.take(i as int));
        }
        let _ = books.apply(&events[i]);
        i += 1;
    }
    assert(events@.take(i as int) =~= events@);
    books.combined_digest()
}

/// An apply that changed the top of its book: the ones whose latency is kept.
pub fn top_changed(a: &Apply) -> (r: bool)
    ensures
        r == (*a == (Apply::Mutated { top_changed: true })),
{
    match a {
        Apply::Mutated { top_changed } => *top_changed,
        _ => false,
    }
}

/// A ladder book of the given depth.
pub fn make_ladder(depth: Option<usize>) -> (r: LadderBook)
    ensures
        r.wf(),
        r.state() == BookState::fresh(depth),
{
    match depth {
        Some(n) => LadderBook::with_max_depth(n),
        None => LadderBook::new(),
    }
}

/// A tree book of the given depth.
pub fn make_btree(depth: Option<usize>) -> (r: BTreeBook)
    ensures
        r.wf(),
        r.state() == BookState::fresh(depth),
{
    match depth {
        Some(n) => BTreeBook::with_max_depth(n),
        None => BTreeBook::new(),
    }
}

/// The digit of a value below sixteen.
pub open spec fn hex_digit(d: int) -> char {
    if d < 10 {
        (0x30 + d) as char
    } else {
        (0x57 + d) as char
    }
}

/// The last `n` hexadecimal digits of `x`.
pub open spec fn hex(x: int, n: nat) -> Seq<char>
    decreases n,
{
    if n == 0 {
        Seq::empty()
    } else {
        hex(x / 16, (n - 1) as nat).push(hex_digit(x % 16))
    }
}

/// Append the last `n` hexadecimal digits of `x`.
fn push_hex(out: &mut String, x: u64, n: u32)
    ensures
        final(out)@ == old(out)@ + hex(x as int, n as nat),
    decreases n,
{
    if n > 0 {
        push_hex(out, x / 16, n - 1);
        let d: u8 = (x % 16) as u8;
        let c: u8 = if d < 10 {
            0x30 + d
        } else {
            0x57 + d
        };
        out.push(c as char);
    }
    assert(out@ =~= old(out)@ + hex(x as int, n as nat));
}

/// What is said of a pass whose digest is not that of the warmup.
pub open spec fn mismatch_text(digest: u64, pass: u64, d: u64) -> Seq<char> {
    "digest mismatch across passes: warmup "@ + hex(digest as int, 16) + " vs pass "@
        + text::chars_of(text::dec_bytes(pass as nat)) + " "@ + hex(d as int, 16)
}

/// Check the digest of a measured pass against the warmup's.
pub fn check_digest(digest: u64, pass: u64, d: u64) -> (r: Result<(), String>)
    ensures
        match r {
            Ok(_) => d == digest,
            Err(e) => d != digest && e@ == mismatch_text(digest, pass, d),
        },
{
    if d == digest {
        return Ok(());
    }
    let mut out: String = "digest mismatch across passes: warmup ".to_owned();
    push_hex(&mut out, digest, 16);
    out.append(" vs pass ");
    text::push_dec(&mut out, pass as u128);
    out.append(" ");
    push_hex(&mut out, d, 16);
    Err(out)
}

} // verus!
