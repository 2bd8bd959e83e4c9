//! Hand-parsed command lines: the arguments as a list of known flags, their
//! values and whatever else stands there.
use crate::json::same_str;
use vstd::prelude::*;
use vstd::string::*;

verus! {

/// One thing that a command line says. Flags go by their place in the table.
pub enum Tok {
    /// A flag that takes no value.
    Switch(int),
    /// A flag and its value.
    Value(int, Seq<char>),
    /// A flag at the end of the line that lacks its value.
    Missing(int),
    /// An argument that is no flag.
    Unknown(Seq<char>),
}

/// One thing that a command line says.
#[derive(Debug, Clone, Copy)]
pub enum Token<'a> {
    /// A flag that takes no value.
    Switch(usize),
    /// A flag and its value.
    Value(usize, &'a str),
    /// A flag at the end of the line that lacks its value.
    Missing(usize),
    /// An argument that is no flag.
    Unknown(&'a str),
}

impl<'a> View for Token<'a> {
    type V = Tok;

    open spec fn view(&self) -> Tok {
        match *self {
            Token::Switch(f) => Tok::Switch(f as int),
            Token::Value(f, v) => Tok::Value(f as int, v@),
            Token::Missing(f) => Tok::Missing(f as int),
            Token::Unknown(s) => Tok::Unknown(s@),
        }
    }
}

/// The texts of the arguments.
pub open spec fn words(argv: Seq<String>) -> Seq<Seq<char>> {
    argv.map_values(|s: String| s@)
}

/// The names of the flags, and whether they take a value.
pub open spec fn table(flags: Seq<(&str, bool)>) -> Seq<(Seq<char>, bool)> {
    flags.map_values(|f: (&str, bool)| (f.0@, f.1))
}

/// What some tokens say.
pub open spec fn said(v: Seq<Token<'_>>) -> Seq<Tok> {
    v.map_values(|t: Token<'_>| t@)
}

/// The first flag called `name`, from place `k` on.
pub open spec fn flag_from(flags: Seq<(Seq<char>, bool)>, name: Seq<char>, k: int) -> Option<int>
    decreases flags.len() - k,
{
    if !(0 <= k < flags.len()) {
        None
    } else if flags[k].0 == name {
        Some(k)
    } else {
        flag_from(flags, name, k + 1)
    }
}

/// What the command line says from argument `i` on: a flag that takes a value
/// takes the next argument, whatever it is.
pub open spec fn tokens(
    argv: Seq<Seq<char>>,
    flags: Seq<(Seq<char>, bool)>,
    i: int,
) -> Seq<Tok>
    decreases argv.len() - i,
{
    if !(0 <= i < argv.len()) {
        Seq::empty()
    } else {
        match flag_from(flags, argv[i], 0) {
            None => seq![Tok::Unknown(argv[i])] + tokens(argv, flags, i + 1),
            Some(f) => if !flags[f].1 {
                seq![Tok::Switch(f)] + tokens(argv, flags, i + 1)
            } else if i + 1 < argv.len() {
                seq![Tok::Value(f, argv[i + 1])] + tokens(argv, flags, i + 2)
            } else {
                seq![Tok::Missing(f)]
            },
        }
    }
}

/// The flag `f` is given.
pub open spec fn switched(t: Seq<Tok>, f: int) -> bool {
    exists|k: int| 0 <= k < t.len() && #[trigger] t[k] == Tok::Switch(f)
}

/// The value that the flag `f` was given last, if it has one then.
pub open spec fn last_value(t: Seq<Tok>, f: int) -> Option<Seq<char>>
    decreases t.len(),
{
    if t.len() == 0 {
        None
    } else {
        match t.last() {
            Tok::Value(g, v) => if g == f {
                Some(v)
            } else {
                last_value(t.drop_last(), f)
            },
            Tok::Missing(g) => if g == f {
                None
            } else {
                last_value(t.drop_last(), f)
            },
            _ => last_value(t.drop_last(), f),
        }
    }
}

/// Why reading a command line stops.
pub enum Halt {
    /// Usage was asked for.
    Help,
    /// An argument is refused.
    Error(Seq<char>),
}

/// Why reading a command line stops.
#[derive(Debug)]
pub enum Stop {
    /// Usage was asked for.
    Help,
    /// An argument is refused, with this message.
    Error(String),
}

impl View for Stop {
    type V = Halt;

    open spec fn view(&self) -> Halt {
        match self {
            Stop::Help => Halt::Help,
            Stop::Error(e) => Halt::Error(e@),
        }
    }
}

/// What `Option<Stop>` says.
pub open spec fn halt_view(s: Option<Stop>) -> Option<Halt> {
    match s {
        Some(x) => Some(x@),
        None => None,
    }
}

/// A program that takes a command line.
pub trait Program: Sized {
    /// Why the program stops at a token, if it does.
    spec fn halts(&self, t: Tok) -> Option<Halt>;

    /// Why the program stops at a token, if it does.
    fn check(&self, t: &Token<'_>) -> (r: Option<Stop>)
        ensures
            halt_view(r) == self.halts(t@),
    ;
}

/// Why the program stops at the first token, from `i` on, at which it does.
pub open spec fn first_halt<P: Program>(p: P, t: Seq<Tok>, i: int) -> Option<Halt>
    decreases t.len() - i,
{
    if !(0 <= i < t.len()) {
        None
    } else {
        match p.halts(t[i]) {
            Some(h) => Some(h),
            None => first_halt(p, t, i + 1),
        }
    }
}

/// The place of the flag called `name`.
fn flag_place(flags: &[(&str, bool)], name: &str) -> (r: Option<usize>)
    ensures
        match r {
            Some(f) => f < flags@.len() && flag_from(table(flags@), name@, 0) == Some(f as int),
            None => flag_from(table(flags@), name@, 0) is None,
        },
{
    let mut k: usize = 0;
    while k < flags.len()
        invariant
            k <= flags@.len(),
            flag_from(table(flags@), name@, 0) == flag_from(table(flags@), name@, k as int),
        decreases flags@.len() - k,
    {
        if same_str(flags[k].0, name) {
            return Some(k);
        }
        k += 1;
    }
    None
}

/// What the command line says.
pub fn tokenize<'a>(argv: &'a [String], flags: &[(&str, bool)]) -> (r: Vec<Token<'a>>)
    ensures
        said(r@) == tokens(words(argv@), table(flags@), 0),
{
    let ghost a = words(argv@);
    let ghost fl = table(flags@);
    let mut out: Vec<Token<'a>> = Vec::new();
    let mut i: usize = 0;
    assert(said(out@) + tokens(a, fl, 0) =~= tokens(a, fl, 0));
    while i < argv.len()
        invariant
            i <= argv@.len(),
            a == words(argv@),
            fl == table(flags@),
            said(out@) + tokens(a, fl, i as int) == tokens(a, fl, 0),
        decreases argv@.len() - i,
    {
        let ghost before = out@;
        let word: &'a str = argv[i].as_str();
        let tok: Token<'a> = match flag_place(flags, word) {
            None => Token::Unknown(word),
            Some(f) => if !flags[f].1 {
                Token::Switch(f)
            } else if argv.len() - i > 1 {
                Token::Value(f, argv[i + 1].as_str())
            } else {
                Token::Missing(f)
            },
        };
        out.push(tok);
        assert(said(out@) =~= said(before).push(tok@));
        let ghost from = i as int;
        match tok {
            Token::Value(_, _) => {
                i += 2;
            },
            Token::Missing(_) => {
                i = argv.len();
            },
            _ => {
                i += 1;
            },
        }
        assert(said(out@) + tokens(a, fl, i as int) =~= said(before) + tokens(a, fl, from));
    }
    assert(said(out@) + tokens(a, fl, i as int) =~= said(out@));
    out
}

/// True if the flag `f` is given.
pub fn has_switch(toks: &[Token<'_>], f: usize) -> (r: bool)
    ensures
        r == switched(said(toks@), f as int),
{
    let ghost t = said(toks@);
    let mut i: usize = 0;
    while i < toks.len()
        invariant
            i <= toks@.len(),
            t == said(toks@),
            forall|k: int| 0 <= k < i ==> #[trigger] t[k] != Tok::Switch(f as int),
        decreases toks@.len() - i,
    {
        assert(t[i as int] == toks@[i as int]@);
        if let Token::Switch(g) = toks[i] {
            if g == f {
                assert(t[i as int] == Tok::Switch(f as int));
                return true;
            }
        }
        i += 1;
    }
    false
}

/// The value that the flag `f` was given last, if it has one then.
pub fn value_of<'a>(toks: &[Token<'a>], f: usize) -> (r: Option<&'a str>)
    ensures
        match r {
            Some(v) => last_value(said(toks@), f as int) == Some(v@),
            None => last_value(said(toks@), f as int) is None,
        },
{
    let ghost t = said(toks@);
    let mut i: usize = toks.len();
    assert(t.take(i as int) =~= t);
    while i > 0
        invariant
            i <= toks@.len(),
            t == said(toks@),
            last_value(t, f as int) == last_value(t.take(i as int), f as int),
        decreases i,
    {
        assert(t.take(i as int).last() == toks@[i - 1]@);
        assert(t.take(i as int).drop_last() =~= t.take(i - 1));
        match toks[i - 1] {
            Token::Value(g, v) => if g == f {
                return Some(v);
            },
            Token::Missing(g) => if g == f {
                return None;
            },
            _ => {},
        }
        i -= 1;
    }
    None
}

/// Why the program stops, if it does.
pub fn stop_at<P: Program>(p: &P, toks: &[Token<'_>]) -> (r: Option<Stop>)
    ensures
        halt_view(r) == first_halt(*p, said(toks@), 0),
{
    let ghost t = said(toks@);
    let mut i: usize = 0;
    while i < toks.len()
        invariant
            i <= toks@.len(),
            t == said(toks@),
            first_halt(*p, t, 0) == first_halt(*p, t, i as int),
        decreases toks@.len() - i,
    {
        assert(t[i as int] == toks@[i as int]@);
        let stop: Option<Stop> = p.check(&toks[i]);
        if stop.is_some() {
            return stop;
        }
        i += 1;
    }
    None
}

/// The text of the value that a flag was given last, or its default.
pub open spec fn text_or(v: Option<Seq<char>>, default: Seq<char>) -> Seq<char> {
    match v {
        Some(s) => s,
        None => default,
    }
}

/// The value that a flag was given last, or its default.
pub fn owned_or(v: Option<&str>, default: &str) -> (r: String)
    ensures
        r@ == text_or(
            match v {
                Some(s) => Some(s@),
                None => None,
            },
            default@,
        ),
{
    match v {
        Some(s) => s.to_owned(),
        None => default.to_owned(),
    }
}

/// Two texts, one behind the other.
pub fn joined(a: &str, b: &str) -> (r: String)
    ensures
        r@ == a@ + b@,
{
    let mut out: String = a.to_owned();
    out.append(b);
    out
}

/// What is said of an argument that is no flag.
pub open spec fn unknown_arg(s: Seq<char>, usage: Seq<char>) -> Seq<char> {
    "unknown arg: "@ + s + "\n"@ + usage
}

/// What is said of an argument that is no flag.
pub fn unknown_message(s: &str, usage: &str) -> (r: String)
    ensures
        r@ == unknown_arg(s@, usage@),
{
    let mut out: String = "unknown arg: ".to_owned();
    out.append(s);
    out.append("\n");
    out.append(usage);
    out
}

} // verus!
