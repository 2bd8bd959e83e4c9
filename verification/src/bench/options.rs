//! The options that all benchmark programs share: `--quick`,
//! `--results-dir DIR`, `--overwrite` and `--help`.
use crate::args;
use crate::args::{has_switch, owned_or, unknown_message, value_of, Stop, Token};
use crate::strings;
use vstd::prelude::*;
use vstd::string::*;
use vstd::utf8::*;

verus! {

/// The place of `--quick` among the flags of every program.
pub const QUICK: usize = 0;

/// The place of `--results-dir`.
pub const RESULTS_DIR: usize = 1;

/// The place of `--overwrite`.
pub const OVERWRITE: usize = 2;

/// The place of `--help`.
pub const HELP: usize = 3;

/// The place of `-h`.
pub const HELP_SHORT: usize = 4;

/// The flags that every program has, before its own.
pub open spec fn shared_flags() -> Seq<(Seq<char>, bool)> {
    seq![
        ("--quick"@, false),
        ("--results-dir"@, true),
        ("--overwrite"@, false),
        ("--help"@, false),
        ("-h"@, false),
    ]
}

/// What every benchmark program is told.
#[derive(Debug, Clone, PartialEq, Eq)]
pub struct Options {
    /// Smaller workloads; marks the result non-official.
    pub quick: bool,
    /// Where result files are written.
    pub results_dir: String,
    /// Allow clobbering an existing result file.
    pub overwrite: bool,
}

/// What a program is told, as values.
#[verifier::ext_equal]
pub struct Told {
    pub quick: bool,
    pub results_dir: Seq<char>,
    pub overwrite: bool,
}

impl View for Options {
    type V = Told;

    open spec fn view(&self) -> Told {
        Told { quick: self.quick, results_dir: self.results_dir@, overwrite: self.overwrite }
    }
}

/// What the shared flags of a command line say.
pub open spec fn told(t: Seq<args::Tok>) -> Told {
    Told {
        quick: args::switched(t, QUICK as int),
        results_dir: args::text_or(args::last_value(t, RESULTS_DIR as int), "bench/results"@),
        overwrite: args::switched(t, OVERWRITE as int),
    }
}

/// What the shared flags of a command line say.
pub fn read_options(t: &[Token<'_>]) -> (r: Options)
    ensures
        r@ == told(args::said(t@)),
{
    Options {
        quick: has_switch(t, QUICK),
        results_dir: owned_or(value_of(t, RESULTS_DIR), "bench/results"),
        overwrite: has_switch(t, OVERWRITE),
    }
}

/// Why every program stops at a token: an argument that is no flag, a result
/// directory that is missing (`needs` says so), or a call for help, which is
/// an error to the programs that do not offer it.
pub open spec fn shared_halt(
    t: args::Tok,
    usage: Seq<char>,
    needs: Seq<char>,
    offers_help: bool,
) -> Option<args::Halt> {
    match t {
        args::Tok::Unknown(s) => Some(args::Halt::Error(args::unknown_arg(s, usage))),
        args::Tok::Missing(f) => if f == RESULTS_DIR {
            Some(args::Halt::Error(needs))
        } else {
            None
        },
        args::Tok::Switch(f) => if f == HELP || f == HELP_SHORT {
            Some(
                if offers_help {
                    args::Halt::Help
                } else {
                    args::Halt::Error(usage)
                },
            )
        } else {
            None
        },
        args::Tok::Value(_, _) => None,
    }
}

/// Why every program stops at a token.
pub fn shared_stop(t: &Token<'_>, usage: &str, needs: &str, offers_help: bool) -> (r: Option<Stop>)
    ensures
        args::halt_view(r) == shared_halt(t@, usage@, needs@, offers_help),
{
    match *t {
        Token::Unknown(s) => Some(Stop::Error(unknown_message(s, usage))),
        Token::Missing(f) => if f == RESULTS_DIR {
            Some(Stop::Error(needs.to_owned()))
        } else {
            None
        },
        Token::Switch(f) => if f == HELP || f == HELP_SHORT {
            Some(
                if offers_help {
                    Stop::Help
                } else {
                    Stop::Error(usage.to_owned())
                },
            )
        } else {
            None
        },
        Token::Value(_, _) => None,
    }
}

/// The machine-sized number that a text is.
pub open spec fn size_of_text(s: Seq<char>) -> Option<usize> {
    match strings::number_of(encode_utf8(s)) {
        Some(n) => if n <= usize::MAX {
            Some(n as usize)
        } else {
            None
        },
        None => None,
    }
}

/// The machine-sized number that a text is.
pub fn parse_size(s: &str) -> (r: Option<usize>)
    ensures
        r == size_of_text(s@),
{
    match strings::parse_u64(s) {
        Some(n) => if n <= usize::MAX as u64 {
            Some(n as usize)
        } else {
            None
        },
        None => None,
    }
}

/// The `--quick` disclaimer appended to every note.
pub fn quick_note(quick: bool) -> (r: &'static str)
    ensures
        r@ == if quick {
            " QUICK RUN: reduced passes/queries on a possibly busy machine; numbers are NOT official."@
        } else {
            ""@
        },
{
    if quick {
        " QUICK RUN: reduced passes/queries on a possibly busy machine; numbers are NOT official."
    } else {
        ""
    }
}

} // verus!
