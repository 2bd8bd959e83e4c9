//! Laws of texts: trimming, numbers, letters, lists, command lines and JSON
//! strings.
use crate::args;
use crate::args::Tok;
use crate::json;
use crate::json::JsonValue;
use crate::strings;
use crate::text;
use vstd::prelude::*;

verus! {

/// Every character is white space.
pub open spec fn all_white(s: Seq<char>) -> bool {
    forall|i: int| 0 <= i < s.len() ==> strings::is_white(#[trigger] s[i])
}

/// White space: the blank, the controls from tab to carriage return, and
/// what Unicode has besides; no other ASCII character is.
pub proof fn lemma_white(c: char)
    ensures
        strings::is_white(' '),
        strings::is_white('\t'),
        strings::is_white('\n'),
        strings::is_white('\r'),
        (c as int) < 0x80 ==> (strings::is_white(c) <==> c as int == 0x20 || 9 <= c as int <= 13),
        c as int >= 0x80 ==> (strings::is_white(c) <==> seq![
            0x85int,
            0xa0,
            0x1680,
            0x2028,
            0x2029,
            0x202f,
            0x205f,
            0x3000,
        ].contains(c as int) || 0x2000 <= c as int <= 0x200a),
{
    let w = seq![0x85int, 0xa0, 0x1680, 0x2028, 0x2029, 0x202f, 0x205f, 0x3000];
    assert(w[0] == 0x85 && w[1] == 0xa0 && w[2] == 0x1680 && w[3] == 0x2028 && w[4] == 0x2029
        && w[5] == 0x202f && w[6] == 0x205f && w[7] == 0x3000);
}

/// A trimmed text lies in the text with nothing but white space around it,
/// and neither starts nor ends with any.
pub proof fn lemma_trimmed(s: Seq<char>)
    ensures
        exists|a: Seq<char>, b: Seq<char>|
            #![trigger all_white(a), all_white(b)]
            all_white(a) && all_white(b) && s == a + strings::trimmed(s) + b,
        strings::trimmed(s).len() > 0 ==> !strings::is_white(strings::trimmed(s)[0])
            && !strings::is_white(strings::trimmed(s).last()),
{
    let a = lemma_trim_front(s);
    let f = strings::trim_front(s);
    let b = lemma_trim_back(f);
    let t = strings::trimmed(s);
    assert(s =~= a + t + b);
    assert(all_white(a) && all_white(b));
    if t.len() > 0 {
        assert(t[0] == f[0]);
    }
}

proof fn lemma_trim_front(s: Seq<char>) -> (a: Seq<char>)
    ensures
        all_white(a),
        s == a + strings::trim_front(s),
        strings::trim_front(s).len() > 0 ==> !strings::is_white(strings::trim_front(s)[0]),
    decreases s.len(),
{
    if s.len() > 0 && strings::is_white(s[0]) {
        let a = lemma_trim_front(s.drop_first());
        let r = seq![s[0]] + a;
        assert(s =~= seq![s[0]] + s.drop_first());
        assert(r + strings::trim_front(s) =~= seq![s[0]] + (a + strings::trim_front(s)));
        r
    } else {
        assert(s =~= Seq::<char>::empty() + s);
        Seq::empty()
    }
}

proof fn lemma_trim_back(s: Seq<char>) -> (b: Seq<char>)
    ensures
        all_white(b),
        s == strings::trim_back(s) + b,
        strings::trim_back(s).len() > 0 ==> !strings::is_white(strings::trim_back(s).last()),
    decreases s.len(),
{
    if s.len() > 0 && strings::is_white(s.last()) {
        let b = lemma_trim_back(s.drop_last());
        let r = b.push(s.last());
        assert(s =~= s.drop_last().push(s.last()));
        assert(strings::trim_back(s) + r =~= (strings::trim_back(s) + b).push(s.last()));
        r
    } else {
        assert(s =~= s + Seq::<char>::empty());
        Seq::empty()
    }
}

/// A number is at least one digit, behind a plus sign or none, and its value
/// fits 64 bits; nothing else is a number.
pub proof fn lemma_number(d: Seq<u8>, b: Seq<u8>)
    ensures
        d.len() > 0 && text::all_digits(d) ==> {
            let v = text::digits_value(d);
            &&& v <= u64::MAX ==> strings::number_of(d) == Some(v as u64) && strings::number_of(
                seq![0x2bu8] + d,
            ) == Some(v as u64)
            &&& v > u64::MAX ==> strings::number_of(d) is None && strings::number_of(
                seq![0x2bu8] + d,
            ) is None
        },
        strings::number_of(b) is Some ==> b.len() > 0 && (0x30 <= b[0] <= 0x39 || (b[0] == 0x2b
            && b.len() > 1)),
        strings::number_of(b) is Some ==> forall|i: int|
            1 <= i < b.len() ==> 0x30 <= #[trigger] b[i] <= 0x39,
{
    if d.len() > 0 && text::all_digits(d) {
        assert(text::is_digit(d[0]));
        assert(d.skip(0) =~= d);
        assert((seq![0x2bu8] + d).skip(1) =~= d);
    }
    if strings::number_of(b) is Some {
        let i: int = if b.len() > 0 && b[0] == 0x2b {
            1
        } else {
            0
        };
        let e = b.skip(i);
        assert(text::is_digit(e[0]));
        assert forall|k: int| 1 <= k < b.len() implies 0x30 <= #[trigger] b[k] <= 0x39 by {
            assert(text::is_digit(e[k - i]));
        }
    }
}

/// The ASCII letters lie 32 apart; any other character stays as it is.
pub proof fn lemma_letters(c: char, s: Seq<char>, i: int)
    ensures
        0x41 <= c as int <= 0x5a ==> strings::lower(c) as int == c as int + 32,
        !(0x41 <= c as int <= 0x5a) ==> strings::lower(c) == c,
        0x61 <= c as int <= 0x7a ==> strings::upper(c) as int == c as int - 32,
        !(0x61 <= c as int <= 0x7a) ==> strings::upper(c) == c,
        strings::lowered(s).len() == s.len(),
        strings::uppered(s).len() == s.len(),
        0 <= i < s.len() ==> strings::lowered(s)[i] == strings::lower(s[i])
            && strings::uppered(s)[i] == strings::upper(s[i]),
{
}

/// The parts of a list: none of an empty text, the text itself where it has
/// no comma, and those of both sides where it has one.
pub proof fn lemma_parts(a: Seq<char>, b: Seq<char>)
    ensures
        strings::parts(Seq::empty()).len() == 0,
        a.len() > 0 && !a.contains(',') ==> strings::parts(a) == seq![a],
        strings::parts(a + seq![','] + b) == strings::parts(a) + strings::parts(b),
{
    if a.len() > 0 && !a.contains(',') {
        lemma_one_part(a, 0);
    }
    lemma_parts_split(a, b, 0, 0);
}

proof fn lemma_one_part(a: Seq<char>, i: int)
    requires
        0 <= i <= a.len(),
        a.len() > 0,
        !a.contains(','),
    ensures
        strings::parts_from(a, 0, i) == seq![a],
    decreases a.len() - i,
{
    if i < a.len() {
        assert(a.contains(a[i]));
        lemma_one_part(a, i + 1);
    } else {
        assert(a.subrange(0, i) =~= a);
    }
}

proof fn lemma_parts_split(a: Seq<char>, b: Seq<char>, from: int, i: int)
    requires
        0 <= from <= i <= a.len(),
    ensures
        strings::parts_from(a + seq![','] + b, from, i) == strings::parts_from(a, from, i)
            + strings::parts(b),
    decreases a.len() - i,
{
    let s = a + seq![','] + b;
    assert(s.subrange(from, i) =~= a.subrange(from, i));
    let part = if from < i {
        seq![a.subrange(from, i)]
    } else {
        Seq::<Seq<char>>::empty()
    };
    if i < a.len() {
        assert(s[i] == a[i]);
        if a[i] == ',' {
            lemma_parts_split(a, b, i + 1, i + 1);
            assert(strings::parts_from(s, from, i) =~= strings::parts_from(a, from, i)
                + strings::parts(b));
        } else {
            lemma_parts_split(a, b, from, i + 1);
        }
    } else {
        assert(s[i] == ',');
        assert(s.skip(i + 1) =~= b);
        lemma_parts_behind(s, b, i + 1, 0, 0);
        assert(strings::parts_from(a, from, i) =~= part);
        assert(strings::parts_from(s, from, i) =~= strings::parts_from(a, from, i)
            + strings::parts(b));
    }
}

proof fn lemma_parts_behind(s: Seq<char>, b: Seq<char>, at: int, from: int, i: int)
    requires
        0 <= from <= i <= b.len(),
        0 <= at,
        at + b.len() == s.len(),
        s.skip(at) == b,
    ensures
        strings::parts_from(s, at + from, at + i) == strings::parts_from(b, from, i),
    decreases b.len() - i,
{
    assert(s.subrange(at + from, at + i) =~= b.subrange(from, i)) by {
        assert forall|k: int| 0 <= k < i - from implies s.subrange(at + from, at + i)[k]
            == b.subrange(from, i)[k] by {
            assert(s.skip(at)[from + k] == s[at + from + k]);
        }
    }
    if i < b.len() {
        assert(s.skip(at)[i] == s[at + i]);
        if b[i] == ',' {
            lemma_parts_behind(s, b, at, i + 1, i + 1);
        } else {
            lemma_parts_behind(s, b, at, from, i + 1);
        }
    }
}

/// A flag is found by its name, the first of that name.
pub proof fn lemma_flag(flags: Seq<(Seq<char>, bool)>, name: Seq<char>, k: int)
    requires
        0 <= k <= flags.len(),
    ensures
        match args::flag_from(flags, name, k) {
            Some(f) => k <= f < flags.len() && flags[f].0 == name && forall|j: int|
                k <= j < f ==> (#[trigger] flags[j]).0 != name,
            None => forall|j: int| k <= j < flags.len() ==> (#[trigger] flags[j]).0 != name,
        },
    decreases flags.len() - k,
{
    if k < flags.len() && flags[k].0 != name {
        lemma_flag(flags, name, k + 1);
    }
}

proof fn lemma_tokens_skip(
    argv: Seq<Seq<char>>,
    rest: Seq<Seq<char>>,
    flags: Seq<(Seq<char>, bool)>,
    at: int,
    i: int,
)
    requires
        0 <= at,
        0 <= i <= rest.len(),
        at + rest.len() == argv.len(),
        argv.skip(at) == rest,
    ensures
        args::tokens(argv, flags, at + i) == args::tokens(rest, flags, i),
    decreases rest.len() - i,
{
    if i < rest.len() {
        assert(argv.skip(at)[i] == argv[at + i]);
        lemma_tokens_skip(argv, rest, flags, at, i + 1);
        if i + 1 < rest.len() {
            assert(argv.skip(at)[i + 1] == argv[at + i + 1]);
            lemma_tokens_skip(argv, rest, flags, at, i + 2);
        }
    }
}

/// A command line is read argument by argument: what is no flag is unknown, a
/// flag without a value stands for itself, and one with a value takes the
/// next argument, whatever it is, or misses it at the end.
pub proof fn lemma_command_line(
    w: Seq<char>,
    v: Seq<char>,
    rest: Seq<Seq<char>>,
    flags: Seq<(Seq<char>, bool)>,
)
    ensures
        args::tokens(Seq::empty(), flags, 0).len() == 0,
        match args::flag_from(flags, w, 0) {
            None => args::tokens(seq![w] + rest, flags, 0) == seq![Tok::Unknown(w)] + args::tokens(
                rest,
                flags,
                0,
            ),
            Some(f) => {
                &&& !flags[f].1 ==> args::tokens(seq![w] + rest, flags, 0) == seq![Tok::Switch(f)]
                    + args::tokens(rest, flags, 0)
                &&& flags[f].1 ==> args::tokens(seq![w, v] + rest, flags, 0) == seq![
                    Tok::Value(f, v),
                ] + args::tokens(rest, flags, 0)
                &&& flags[f].1 ==> args::tokens(seq![w], flags, 0) == seq![Tok::Missing(f)]
            },
        },
{
    let one = seq![w] + rest;
    let two = seq![w, v] + rest;
    assert(one.skip(1) =~= rest);
    assert(two.skip(2) =~= rest);
    lemma_tokens_skip(one, rest, flags, 1, 0);
    lemma_tokens_skip(two, rest, flags, 2, 0);
    assert(one[0] == w && two[0] == w && two[1] == v);
}

/// The last word on a flag counts: behind its value that value is given,
/// behind its missing value none, and any other token changes nothing.
pub proof fn lemma_last_value(t: Seq<Tok>, x: Tok, f: int, v: Seq<char>)
    ensures
        args::last_value(Seq::empty(), f) is None,
        args::last_value(t.push(Tok::Value(f, v)), f) == Some(v),
        args::last_value(t.push(Tok::Missing(f)), f) is None,
        (x matches Tok::Value(g, _) ==> g != f) && (x matches Tok::Missing(g) ==> g != f)
            ==> args::last_value(t.push(x), f) == args::last_value(t, f),
{
    assert(t.push(Tok::Value(f, v)).drop_last() =~= t);
    assert(t.push(Tok::Missing(f)).drop_last() =~= t);
    assert(t.push(x).drop_last() =~= t);
}

/// What an escaped character of a JSON string means: one character for
/// itself, or a backslash and a letter, or a backslash, `u` and four
/// hexadecimal digits.
pub open spec fn meant(e: Seq<char>) -> int {
    if e.len() == 1 {
        e[0] as int
    } else if e.len() == 2 {
        if e[1] == 'b' {
            8
        } else if e[1] == 't' {
            9
        } else if e[1] == 'n' {
            10
        } else if e[1] == 'f' {
            12
        } else if e[1] == 'r' {
            13
        } else {
            e[1] as int
        }
    } else {
        ((hex_value(e[2]) * 16 + hex_value(e[3])) * 16 + hex_value(e[4])) * 16 + hex_value(e[5])
    }
}

/// The value of a hexadecimal digit.
pub open spec fn hex_value(c: char) -> int {
    if 0x30 <= c as int <= 0x39 {
        c as int - 0x30
    } else {
        c as int - 0x61 + 10
    }
}

/// An escaped character means the character; only a quote, a backslash and
/// the control characters are escaped, and no control character is left.
pub proof fn lemma_escape(c: char)
    ensures
        ({
            let e = json::json_escaped(c);
            &&& meant(e) == c as int
            &&& (e.len() == 1 <==> c as int >= 0x20 && c != '"' && c != '\\')
            &&& e.len() > 1 ==> e[0] == '\\'
            &&& e.len() == 6 ==> e[1] == 'u' && e[2] == '0' && e[3] == '0'
            &&& e.len() == 1 || e.len() == 2 || e.len() == 6
            &&& forall|i: int| 0 <= i < e.len() ==> (#[trigger] e[i]) as int >= 0x20
        }),
{
}

/// A text is escaped character by character, and stands between quotes.
pub proof fn lemma_quoted(a: Seq<char>, b: Seq<char>, c: char)
    ensures
        json::all_escaped(Seq::empty()).len() == 0,
        json::all_escaped(seq![c]) == json::json_escaped(c),
        json::all_escaped(a + b) == json::all_escaped(a) + json::all_escaped(b),
        json::json_quoted(a) == seq!['"'] + json::all_escaped(a) + seq!['"'],
    decreases b.len(),
{
    let none = Seq::<char>::empty();
    assert(seq![c].drop_last() =~= none);
    assert(json::all_escaped(none) =~= none);
    assert(json::all_escaped(seq![c]) =~= json::json_escaped(c));
    if b.len() == 0 {
        assert(a + b =~= a);
        assert(json::all_escaped(a) + none =~= json::all_escaped(a));
    } else {
        lemma_quoted(a, b.drop_last(), c);
        assert((a + b).drop_last() =~= a + b.drop_last());
        assert(json::all_escaped(a + b) =~= json::all_escaped(a) + json::all_escaped(b));
    }
}

/// A member of an object is the first one under its key.
pub proof fn lemma_member(m: Seq<(Seq<char>, JsonValue)>, key: Seq<char>, i: int)
    requires
        0 <= i < m.len(),
        m[i].0 == key,
        forall|j: int| 0 <= j < i ==> (#[trigger] m[j]).0 != key,
    ensures
        json::member(JsonValue::Obj(m), key) == Some(m[i].1),
    decreases i,
{
    if i > 0 {
        let t = m.drop_first();
        assert(m[0].0 != key);
        assert forall|j: int| 0 <= j < i - 1 implies (#[trigger] t[j]).0 != key by {
            assert(t[j] == m[j + 1]);
        }
        lemma_member(t, key, i - 1);
    }
}

/// What is no object has no member, and an object none under a key that none
/// of its members has.
pub proof fn lemma_no_member(v: JsonValue, key: Seq<char>)
    ensures
        v matches JsonValue::Obj(m) ==> (json::member(v, key) is Some <==> exists|i: int|
            0 <= i < m.len() && (#[trigger] m[i]).0 == key),
        !(v is Obj) ==> json::member(v, key) is None,
{
    if let JsonValue::Obj(m) = v {
        lemma_member_exists(m, key);
    }
}

proof fn lemma_member_exists(m: Seq<(Seq<char>, JsonValue)>, key: Seq<char>)
    ensures
        json::member_in(m, key) is Some <==> exists|i: int|
            0 <= i < m.len() && (#[trigger] m[i]).0 == key,
    decreases m.len(),
{
    if m.len() > 0 {
        let t = m.drop_first();
        lemma_member_exists(t, key);
        if m[0].0 != key {
            if exists|i: int| 0 <= i < m.len() && (#[trigger] m[i]).0 == key {
                let i = choose|i: int| 0 <= i < m.len() && (#[trigger] m[i]).0 == key;
                assert(t[i - 1].0 == key);
            }
            if exists|i: int| 0 <= i < t.len() && (#[trigger] t[i]).0 == key {
                let i = choose|i: int| 0 <= i < t.len() && (#[trigger] t[i]).0 == key;
                assert(m[i + 1].0 == key);
            }
        }
    }
}

} // verus!
