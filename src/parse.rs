use vstd::prelude::*;

use crate::text::{chars_of, string_of};
use crate::value::{StructuredValue, ValueModel};

verus! {

/// How deeply arrays and objects may nest in a decoded message.
pub const MAX_DEPTH: u64 = 128;

/// Why a text is not a JSON value.
#[derive(Clone, Copy, PartialEq, Eq, Structural, Debug)]
pub enum JsonError {
    /// Not well-formed JSON, or nested deeper than [`MAX_DEPTH`].
    Malformed,
    /// A value followed by more than whitespace.
    TrailingText,
}

pub open spec fn is_ws(c: char) -> bool {
    c == ' ' || c == '\t' || c == '\n' || c == '\r'
}

pub open spec fn is_digit(c: char) -> bool {
    '0' <= c && c <= '9'
}

pub open spec fn skip_ws(s: Seq<char>) -> Seq<char>
    decreases s.len(),
{
    if s.len() > 0 && is_ws(s[0]) {
        skip_ws(s.drop_first())
    } else {
        s
    }
}

/// How many digits `s` begins with.
pub open spec fn digits_len(s: Seq<char>) -> nat
    decreases s.len(),
{
    if s.len() > 0 && is_digit(s[0]) {
        1 + digits_len(s.drop_first())
    } else {
        0
    }
}

/// The number that a string of decimal digits writes.
pub open spec fn digits_value(s: Seq<char>) -> nat
    decreases s.len(),
{
    if s.len() == 0 {
        0
    } else {
        digits_value(s.drop_last()) * 10 + ((s.last() as u32) - ('0' as u32)) as nat
    }
}

/// Where the fraction of a number ends, `digits_end` being where its integer digits
/// end: there is none unless a `.` follows, which needs a digit after it.
pub open spec fn frac_end(s: Seq<char>, digits_end: int) -> Option<int> {
    if digits_end < s.len() && s[digits_end] == '.' {
        let d = digits_len(s.subrange(digits_end + 1, s.len() as int));
        if d == 0 {
            None
        } else {
            Some(digits_end + 1 + d)
        }
    } else {
        Some(digits_end)
    }
}

/// Where the exponent of a number ends, `frac_stop` being where its fraction ends:
/// there is none unless an `e` or `E` follows, then an optional sign and at
/// least one digit.
pub open spec fn exp_end(s: Seq<char>, frac_stop: int) -> Option<int> {
    if frac_stop < s.len() && (s[frac_stop] == 'e' || s[frac_stop] == 'E') {
        let q = if frac_stop + 1 < s.len() && (s[frac_stop + 1] == '+' || s[frac_stop + 1] == '-') {
            frac_stop + 2
        } else {
            frac_stop + 1
        };
        let d = digits_len(s.subrange(q, s.len() as int));
        if d == 0 {
            None
        } else {
            Some(q + d)
        }
    } else {
        Some(frac_stop)
    }
}

/// The length of the number token that `s` begins with,
/// `-?d+(.d+)?([eE][+-]?d+)?`, and whether it is an integer (no fraction, no
/// exponent).
pub open spec fn number_token(s: Seq<char>) -> Option<(int, bool)> {
    let a: int = if s.len() > 0 && s[0] == '-' {
        1
    } else {
        0
    };
    let d1 = digits_len(s.subrange(a, s.len() as int));
    if d1 == 0 {
        None
    } else {
        match frac_end(s, a + d1) {
            Some(frac_stop) => match exp_end(s, frac_stop) {
                Some(exp_stop) => Some((exp_stop, frac_stop == a + d1 && exp_stop == frac_stop)),
                None => None,
            },
            None => None,
        }
    }
}

/// The value of an integer token: `Integer` when it fits in 64 signed bits,
/// else kept as its text in a `Float`.
pub open spec fn integer_value(t: Seq<char>) -> ValueModel {
    let neg = t.len() > 0 && t[0] == '-';
    let mag = digits_value(
        if neg {
            t.drop_first()
        } else {
            t
        },
    ) as int;
    let i = if neg {
        -mag
    } else {
        mag
    };
    if i64::MIN <= i <= i64::MAX {
        ValueModel::Integer(i)
    } else {
        ValueModel::Float(t)
    }
}

pub open spec fn parse_number(s: Seq<char>) -> Option<(ValueModel, Seq<char>)> {
    match number_token(s) {
        Some((n, integral)) => {
            let t = s.subrange(0, n);
            Some(
                (
                    if integral {
                        integer_value(t)
                    } else {
                        ValueModel::Float(t)
                    },
                    s.subrange(n, s.len() as int),
                ),
            )
        },
        None => None,
    }
}

pub open spec fn hex_value(c: char) -> Option<nat> {
    if '0' <= c && c <= '9' {
        Some(((c as u32) - ('0' as u32)) as nat)
    } else if 'a' <= c && c <= 'f' {
        Some(((c as u32) - ('a' as u32) + 10) as nat)
    } else if 'A' <= c && c <= 'F' {
        Some(((c as u32) - ('A' as u32) + 10) as nat)
    } else {
        None
    }
}

/// The number written by the four hex digits that `s` begins with.
pub open spec fn hex4(s: Seq<char>) -> Option<nat> {
    if s.len() < 4 {
        None
    } else {
        match (hex_value(s[0]), hex_value(s[1]), hex_value(s[2]), hex_value(s[3])) {
            (Some(a), Some(b), Some(c), Some(d)) => Some(((a * 16 + b) * 16 + c) * 16 + d),
            _ => None,
        }
    }
}

pub open spec fn code_of(c: char) -> nat {
    c as u32 as nat
}

/// The char with code point `code`.
pub open spec fn char_of(code: nat) -> char {
    choose|c: char| #[trigger] code_of(c) == code
}

/// The char that the escape sequence at the start of `s` (which begins with
/// a backslash) stands for, and the sequence's length. A `\u` escape of a high
/// surrogate must be followed by one of a low surrogate.
pub open spec fn escape_at(s: Seq<char>) -> Option<(char, int)> {
    if s.len() < 2 {
        None
    } else if s[1] == '"' {
        Some(('"', 2))
    } else if s[1] == '\\' {
        Some(('\\', 2))
    } else if s[1] == '/' {
        Some(('/', 2))
    } else if s[1] == 'b' {
        Some(('\u{8}', 2))
    } else if s[1] == 'f' {
        Some(('\u{c}', 2))
    } else if s[1] == 'n' {
        Some(('\n', 2))
    } else if s[1] == 'r' {
        Some(('\r', 2))
    } else if s[1] == 't' {
        Some(('\t', 2))
    } else if s[1] == 'u' {
        match hex4(s.subrange(2, s.len() as int)) {
            Some(h) => if 0xD800 <= h < 0xDC00 {
                if s.len() >= 8 && s[6] == '\\' && s[7] == 'u' {
                    match hex4(s.subrange(8, s.len() as int)) {
                        Some(l) => if 0xDC00 <= l < 0xE000 {
                            Some((char_of((0x10000 + (h - 0xD800) * 0x400 + (l - 0xDC00)) as nat), 12))
                        } else {
                            None
                        },
                        None => None,
                    }
                } else {
                    None
                }
            } else if 0xDC00 <= h < 0xE000 {
                None
            } else {
                Some((char_of(h), 6))
            },
            None => None,
        }
    } else {
        None
    }
}

/// The chars of a string literal whose opening quote has been read, and what
/// follows its closing quote.
pub open spec fn string_body(s: Seq<char>) -> Option<(Seq<char>, Seq<char>)>
    decreases s.len(),
{
    if s.len() == 0 {
        None
    } else if s[0] == '"' {
        Some((Seq::empty(), s.drop_first()))
    } else if s[0] == '\\' {
        match escape_at(s) {
            Some((c, n)) => if 1 <= n <= s.len() {
                match string_body(s.subrange(n, s.len() as int)) {
                    Some((t, rest)) => Some((seq![c] + t, rest)),
                    None => None,
                }
            } else {
                None
            },
            None => None,
        }
    } else if (s[0] as u32) < 0x20 {
        None
    } else {
        match string_body(s.drop_first()) {
            Some((t, rest)) => Some((seq![s[0]] + t, rest)),
            None => None,
        }
    }
}

pub open spec fn starts_with_seq(s: Seq<char>, p: Seq<char>) -> bool {
    p.len() <= s.len() && s.subrange(0, p.len() as int) == p
}

/// The value that `s` begins with, after any whitespace, and what follows
/// it; arrays and objects may nest `depth` deep.
pub open spec fn parse_value(s: Seq<char>, depth: nat) -> Option<(ValueModel, Seq<char>)>
    decreases s.len(), 0nat,
{
    if s.len() == 0 {
        None
    } else if is_ws(s[0]) {
        parse_value(s.drop_first(), depth)
    } else if s[0] == 'n' {
        if starts_with_seq(s, seq!['n', 'u', 'l', 'l']) {
            Some((ValueModel::Null, s.subrange(4, s.len() as int)))
        } else {
            None
        }
    } else if s[0] == 't' {
        if starts_with_seq(s, seq!['t', 'r', 'u', 'e']) {
            Some((ValueModel::Bool(true), s.subrange(4, s.len() as int)))
        } else {
            None
        }
    } else if s[0] == 'f' {
        if starts_with_seq(s, seq!['f', 'a', 'l', 's', 'e']) {
            Some((ValueModel::Bool(false), s.subrange(5, s.len() as int)))
        } else {
            None
        }
    } else if s[0] == '"' {
        match string_body(s.drop_first()) {
            Some((t, rest)) => Some((ValueModel::Str(t), rest)),
            None => None,
        }
    } else if s[0] == '[' {
        if depth == 0 {
            None
        } else {
            parse_array(s.drop_first(), (depth - 1) as nat)
        }
    } else if s[0] == '{' {
        if depth == 0 {
            None
        } else {
            parse_object(s.drop_first(), (depth - 1) as nat)
        }
    } else {
        parse_number(s)
    }
}

/// An array whose `[` has been read.
pub open spec fn parse_array(s: Seq<char>, depth: nat) -> Option<(ValueModel, Seq<char>)>
    decreases s.len(), 2nat,
{
    if s.len() > 0 && is_ws(s[0]) {
        parse_array(s.drop_first(), depth)
    } else if s.len() > 0 && s[0] == ']' {
        Some((ValueModel::Array(Seq::empty()), s.drop_first()))
    } else {
        array_items(s, depth, Seq::empty())
    }
}

/// The elements of an array from one that is due, `done` being those read.
pub open spec fn array_items(s: Seq<char>, depth: nat, done: Seq<ValueModel>) -> Option<
    (ValueModel, Seq<char>),
>
    decreases s.len(), 1nat,
{
    match parse_value(s, depth) {
        Some((v, rest)) => if rest.len() < s.len() {
            after_item(rest, depth, done.push(v))
        } else {
            None
        },
        None => None,
    }
}

/// What follows an element: more elements after a comma, or the end.
pub open spec fn after_item(s: Seq<char>, depth: nat, done: Seq<ValueModel>) -> Option<
    (ValueModel, Seq<char>),
>
    decreases s.len(), 3nat,
{
    if s.len() == 0 {
        None
    } else if is_ws(s[0]) {
        after_item(s.drop_first(), depth, done)
    } else if s[0] == ',' {
        array_items(s.drop_first(), depth, done)
    } else if s[0] == ']' {
        Some((ValueModel::Array(done), s.drop_first()))
    } else {
        None
    }
}

/// An object whose `{` has been read.
pub open spec fn parse_object(s: Seq<char>, depth: nat) -> Option<(ValueModel, Seq<char>)>
    decreases s.len(), 2nat,
{
    if s.len() > 0 && is_ws(s[0]) {
        parse_object(s.drop_first(), depth)
    } else if s.len() > 0 && s[0] == '}' {
        Some((ValueModel::Object(Seq::empty()), s.drop_first()))
    } else {
        object_members(s, depth, Seq::empty())
    }
}

/// The text after a member's key: whitespace, then a colon.
pub open spec fn after_key(s: Seq<char>) -> Option<Seq<char>>
    decreases s.len(),
{
    if s.len() == 0 {
        None
    } else if is_ws(s[0]) {
        after_key(s.drop_first())
    } else if s[0] == ':' {
        Some(s.drop_first())
    } else {
        None
    }
}

/// The members of an object from one that is due, `done` being those read.
pub open spec fn object_members(
    s: Seq<char>,
    depth: nat,
    done: Seq<(Seq<char>, ValueModel)>,
) -> Option<(ValueModel, Seq<char>)>
    decreases s.len(), 1nat,
{
    let t = skip_ws(s);
    if t.len() > s.len() || t.len() == 0 || t[0] != '"' {
        None
    } else {
        match string_body(t.drop_first()) {
            Some((key, r1)) => match after_key(r1) {
                Some(r2) => if r2.len() < s.len() {
                    match parse_value(r2, depth) {
                        Some((v, r3)) => if r3.len() < s.len() {
                            after_member(r3, depth, done.push((key, v)))
                        } else {
                            None
                        },
                        None => None,
                    }
                } else {
                    None
                },
                None => None,
            },
            None => None,
        }
    }
}

/// What follows a member: more members after a comma, or the end.
pub open spec fn after_member(
    s: Seq<char>,
    depth: nat,
    done: Seq<(Seq<char>, ValueModel)>,
) -> Option<(ValueModel, Seq<char>)>
    decreases s.len(), 3nat,
{
    if s.len() == 0 {
        None
    } else if is_ws(s[0]) {
        after_member(s.drop_first(), depth, done)
    } else if s[0] == ',' {
        object_members(s.drop_first(), depth, done)
    } else if s[0] == '}' {
        Some((ValueModel::Object(done), s.drop_first()))
    } else {
        None
    }
}

/// What a whole text decodes to: one value, then only whitespace.
pub open spec fn parsed(s: Seq<char>) -> Result<ValueModel, JsonError> {
    match parse_value(s, MAX_DEPTH as nat) {
        Some((v, rest)) => if skip_ws(rest).len() == 0 {
            Ok(v)
        } else {
            Err(JsonError::TrailingText)
        },
        None => Err(JsonError::Malformed),
    }
}

} // verus!

verus! {

/// The text of `cs` from position `pos` on.
pub open spec fn suffix(cs: Seq<char>, pos: int) -> Seq<char> {
    cs.subrange(pos, cs.len() as int)
}

/// Relies on `char::from_u32`: the char with that code point, which exists
/// for every code point up to `0x10FFFF` outside the surrogate range.
#[verifier::external_body]
fn char_from_code(code: u32) -> (r: Option<char>)
    ensures
        match r {
            Some(c) => code_of(c) == code,
            None => code > 0x10FFFF || (0xD800 <= code && code < 0xE000),
        },
{
    char::from_u32(code)
}

pub(crate) proof fn lemma_char_of(c: char)
    ensures
        char_of(code_of(c)) == c,
{
    let d = char_of(code_of(c));
    assert(code_of(d) == code_of(c));
}

proof fn lemma_suffix_next(cs: Seq<char>, pos: int)
    requires
        0 <= pos < cs.len(),
    ensures
        suffix(cs, pos).len() > 0,
        suffix(cs, pos)[0] == cs[pos],
        suffix(cs, pos).drop_first() == suffix(cs, pos + 1),
{
    assert(suffix(cs, pos).drop_first() =~= suffix(cs, pos + 1));
}

/// How many digits begin at `pos`.
fn digit_run(cs: &Vec<char>, pos: usize) -> (r: usize)
    requires
        pos <= cs@.len(),
    ensures
        pos + r <= cs@.len(),
        r == digits_len(suffix(cs@, pos as int)),
{
    let mut p = pos;
    while p < cs.len() && '0' <= cs[p] && cs[p] <= '9'
        invariant
            pos <= p <= cs@.len(),
            digits_len(suffix(cs@, pos as int)) == (p - pos) + digits_len(suffix(cs@, p as int)),
        decreases cs@.len() - p,
    {
        proof {
            lemma_suffix_next(cs@, p as int);
        }
        p = p + 1;
    }
    proof {
        if p < cs@.len() {
            lemma_suffix_next(cs@, p as int);
        }
    }
    p - pos
}

/// The chars of `cs` from `from` to `to`.
fn copy_range(cs: &Vec<char>, from: usize, to: usize) -> (r: Vec<char>)
    requires
        from <= to <= cs@.len(),
    ensures
        r@ == cs@.subrange(from as int, to as int),
{
    let mut r: Vec<char> = Vec::new();
    let mut i = from;
    while i < to
        invariant
            from <= i <= to <= cs@.len(),
            r@ == cs@.subrange(from as int, i as int),
        decreases to - i,
    {
        r.push(cs[i]);
        proof {
            assert(r@ =~= cs@.subrange(from as int, i + 1));
        }
        i = i + 1;
    }
    r
}

/// The value of decimal digits `cs[from..to]`, if at most `limit`.
fn digits_up_to(cs: &Vec<char>, from: usize, to: usize, limit: u64) -> (r: Option<u64>)
    requires
        from <= to <= cs@.len(),
        forall|i: int| from <= i < to ==> is_digit(cs@[i]),
        limit >= 9,
    ensures
        match r {
            Some(v) => v == digits_value(cs@.subrange(from as int, to as int)) && v <= limit,
            None => digits_value(cs@.subrange(from as int, to as int)) > limit,
        },
{
    let mut acc: u64 = 0;
    let mut i = from;
    while i < to
        invariant
            from <= i <= to <= cs@.len(),
            forall|k: int| from <= k < to ==> is_digit(cs@[k]),
            acc == digits_value(cs@.subrange(from as int, i as int)),
            acc <= limit,
            limit >= 9,
        decreases to - i,
    {
        let d = (cs[i] as u32 - '0' as u32) as u64;
        proof {
            let t = cs@.subrange(from as int, i + 1);
            assert(t.drop_last() =~= cs@.subrange(from as int, i as int));
        }
        if acc > (limit - d) / 10 {
            proof {
                lemma_digits_value_grows(cs@, from as int, i + 1, to as int);
                assert(acc * 10 + d > limit) by (nonlinear_arith)
                    requires
                        acc > (limit - d) / 10,
                        d <= 9,
                        limit >= 9,
                ;
            }
            return None;
        }
        assert(acc * 10 + d <= limit) by (nonlinear_arith)
            requires
                acc <= (limit - d) / 10,
                d <= 9,
                limit >= 9,
        ;
        acc = acc * 10 + d;
        i = i + 1;
    }
    Some(acc)
}

proof fn lemma_digits_value_grows(cs: Seq<char>, from: int, mid: int, to: int)
    requires
        0 <= from <= mid <= to <= cs.len(),
    ensures
        digits_value(cs.subrange(from, mid)) <= digits_value(cs.subrange(from, to)),
    decreases to - mid,
{
    if mid < to {
        lemma_digits_value_grows(cs, from, mid, to - 1);
        assert(cs.subrange(from, to).drop_last() =~= cs.subrange(from, to - 1));
    }
}


pub(crate) proof fn lemma_digits_len(x: Seq<char>)
    ensures
        digits_len(x) <= x.len(),
        forall|k: int| 0 <= k < digits_len(x) ==> is_digit(#[trigger] x[k]),
        digits_len(x) < x.len() ==> !is_digit(x[digits_len(x) as int]),
    decreases x.len(),
{
    if x.len() > 0 && is_digit(x[0]) {
        lemma_digits_len(x.drop_first());
        assert forall|k: int| 0 <= k < digits_len(x) implies is_digit(#[trigger] x[k]) by {
            if k > 0 {
                assert(x[k] == x.drop_first()[k - 1]);
            }
        }
    }
}

/// The value of the integer token `cs[from..to]`, which is an optional `-`
/// and then digits only.
fn integer_at(cs: &Vec<char>, from: usize, to: usize, neg: bool) -> (r: StructuredValue)
    requires
        from < to <= cs@.len(),
        neg == (cs@[from as int] == '-'),
        neg ==> from + 1 < to,
        forall|i: int| (if neg { from + 1 } else { from as int }) <= i < to ==> is_digit(cs@[i]),
    ensures
        r@ == integer_value(cs@.subrange(from as int, to as int)),
{
    let ghost t = cs@.subrange(from as int, to as int);
    let start = if neg { from + 1 } else { from };
    proof {
        if neg {
            assert(t.drop_first() =~= cs@.subrange(start as int, to as int));
        } else {
            assert(t =~= cs@.subrange(start as int, to as int));
        }
    }
    if neg {
        match digits_up_to(cs, start, to, 0x8000_0000_0000_0000u64) {
            Some(m) => {
                if m == 0x8000_0000_0000_0000u64 {
                    StructuredValue::Integer(i64::MIN)
                } else {
                    StructuredValue::Integer(-(m as i64))
                }
            },
            None => StructuredValue::Float(string_of(&copy_range(cs, from, to))),
        }
    } else {
        match digits_up_to(cs, start, to, 0x7fff_ffff_ffff_ffffu64) {
            Some(m) => StructuredValue::Integer(m as i64),
            None => StructuredValue::Float(string_of(&copy_range(cs, from, to))),
        }
    }
}

fn frac_end_at(cs: &Vec<char>, pos: usize, digits_end: usize) -> (r: Option<usize>)
    requires
        pos + digits_end <= cs@.len(),
    ensures
        match r {
            Some(p) => frac_end(suffix(cs@, pos as int), digits_end as int) == Some(p as int) && digits_end <= p
                && pos + p <= cs@.len(),
            None => frac_end(suffix(cs@, pos as int), digits_end as int) is None,
        },
{
    let ghost s = suffix(cs@, pos as int);
    let n = cs.len();
    if pos + digits_end < n && cs[pos + digits_end] == '.' {
        let d = digit_run(cs, pos + digits_end + 1);
        proof {
            assert(s.subrange(digits_end + 1, s.len() as int) =~= suffix(cs@, pos + digits_end + 1));
        }
        if d == 0 {
            None
        } else {
            Some(digits_end + 1 + d)
        }
    } else {
        Some(digits_end)
    }
}

fn exp_end_at(cs: &Vec<char>, pos: usize, frac_stop: usize) -> (r: Option<usize>)
    requires
        pos + frac_stop <= cs@.len(),
    ensures
        match r {
            Some(p) => exp_end(suffix(cs@, pos as int), frac_stop as int) == Some(p as int) && frac_stop <= p
                && pos + p <= cs@.len(),
            None => exp_end(suffix(cs@, pos as int), frac_stop as int) is None,
        },
{
    let ghost s = suffix(cs@, pos as int);
    let n = cs.len();
    if pos + frac_stop < n && (cs[pos + frac_stop] == 'e' || cs[pos + frac_stop] == 'E') {
        let q = if pos + frac_stop + 1 < cs.len() && (cs[pos + frac_stop + 1] == '+' || cs[pos + frac_stop + 1]
            == '-') {
            frac_stop + 2
        } else {
            frac_stop + 1
        };
        let d = digit_run(cs, pos + q);
        proof {
            assert(s.subrange(q as int, s.len() as int) =~= suffix(cs@, pos + q));
        }
        if d == 0 {
            None
        } else {
            Some(q + d)
        }
    } else {
        Some(frac_stop)
    }
}

#[verifier::rlimit(60)]
fn parse_number_at(cs: &Vec<char>, pos: usize) -> (r: Option<(StructuredValue, usize)>)
    requires
        pos <= cs@.len(),
    ensures
        match r {
            Some((v, p)) => pos < p <= cs@.len() && parse_number(suffix(cs@, pos as int)) == Some(
                (v@, suffix(cs@, p as int)),
            ),
            None => parse_number(suffix(cs@, pos as int)) is None,
        },
{
    let ghost s = suffix(cs@, pos as int);
    let a: usize = if pos < cs.len() && cs[pos] == '-' {
        1
    } else {
        0
    };
    let d1 = digit_run(cs, pos + a);
    proof {
        assert(s.subrange(a as int, s.len() as int) =~= suffix(cs@, pos + a));
        lemma_digits_len(suffix(cs@, pos + a));
    }
    if d1 == 0 {
        return None;
    }
    let digits_end = a + d1;
    let frac_stop = match frac_end_at(cs, pos, digits_end) {
        Some(p) => p,
        None => {
            return None;
        },
    };
    let exp_stop = match exp_end_at(cs, pos, frac_stop) {
        Some(p) => p,
        None => {
            return None;
        },
    };
    let end = pos + exp_stop;
    let integral = frac_stop == digits_end && exp_stop == frac_stop;
    proof {
        assert(number_token(s) == Some((exp_stop as int, integral)));
        assert(s.subrange(0, exp_stop as int) =~= cs@.subrange(pos as int, end as int));
        assert(s.subrange(exp_stop as int, s.len() as int) =~= suffix(cs@, end as int));
    }
    let v = if integral {
        proof {
            assert forall|i: int| (if a == 1 { pos + 1 } else { pos as int }) <= i < end implies is_digit(cs@[i]) by {
                assert(cs@[i] == suffix(cs@, pos + a)[i - pos - a]);
            }
        }
        integer_at(cs, pos, end, a == 1)
    } else {
        StructuredValue::Float(string_of(&copy_range(cs, pos, end)))
    };
    Some((v, end))
}


fn hex_digit_value(c: char) -> (r: Option<u32>)
    ensures
        match r {
            Some(v) => hex_value(c) == Some(v as nat) && v < 16,
            None => hex_value(c) is None,
        },
{
    if '0' <= c && c <= '9' {
        Some(c as u32 - '0' as u32)
    } else if 'a' <= c && c <= 'f' {
        Some(c as u32 - 'a' as u32 + 10)
    } else if 'A' <= c && c <= 'F' {
        Some(c as u32 - 'A' as u32 + 10)
    } else {
        None
    }
}

fn hex4_at(cs: &Vec<char>, p: usize) -> (r: Option<u32>)
    requires
        p <= cs@.len(),
    ensures
        match r {
            Some(v) => hex4(suffix(cs@, p as int)) == Some(v as nat) && v < 0x10000,
            None => hex4(suffix(cs@, p as int)) is None,
        },
{
    let ghost s = suffix(cs@, p as int);
    if cs.len() - p < 4 {
        return None;
    }
    proof {
        assert(s[0] == cs@[p as int] && s[1] == cs@[p + 1] && s[2] == cs@[p + 2] && s[3] == cs@[p
            + 3]);
    }
    match (
        hex_digit_value(cs[p]),
        hex_digit_value(cs[p + 1]),
        hex_digit_value(cs[p + 2]),
        hex_digit_value(cs[p + 3]),
    ) {
        (Some(a), Some(b), Some(c), Some(d)) => Some(((a * 16 + b) * 16 + c) * 16 + d),
        _ => None,
    }
}

/// See [`escape_at`].
fn escape_at_exec(cs: &Vec<char>, p: usize) -> (r: Option<(char, usize)>)
    requires
        p < cs@.len(),
        cs@[p as int] == '\\',
    ensures
        match r {
            Some((c, n)) => escape_at(suffix(cs@, p as int)) == Some((c, n as int)) && 2 <= n && p
                + n <= cs@.len(),
            None => escape_at(suffix(cs@, p as int)) is None,
        },
{
    let ghost s = suffix(cs@, p as int);
    let n = cs.len();
    if n - p < 2 {
        return None;
    }
    let e = cs[p + 1];
    proof {
        assert(s[1] == e);
    }
    if e == '"' {
        Some(('"', 2))
    } else if e == '\\' {
        Some(('\\', 2))
    } else if e == '/' {
        Some(('/', 2))
    } else if e == 'b' {
        Some(('\u{8}', 2))
    } else if e == 'f' {
        Some(('\u{c}', 2))
    } else if e == 'n' {
        Some(('\n', 2))
    } else if e == 'r' {
        Some(('\r', 2))
    } else if e == 't' {
        Some(('\t', 2))
    } else if e == 'u' {
        proof {
            assert(s.subrange(2, s.len() as int) =~= suffix(cs@, p + 2));
        }
        let h = match hex4_at(cs, p + 2) {
            Some(h) => h,
            None => {
                return None;
            },
        };
        if 0xD800 <= h && h < 0xDC00 {
            if n - p >= 8 && cs[p + 6] == '\\' && cs[p + 7] == 'u' {
                proof {
                    assert(s[6] == cs@[p + 6] && s[7] == cs@[p + 7]);
                    assert(s.subrange(8, s.len() as int) =~= suffix(cs@, p + 8));
                }
                match hex4_at(cs, p + 8) {
                    Some(l) => {
                        if 0xDC00 <= l && l < 0xE000 {
                            let code = 0x10000 + (h - 0xD800) * 0x400 + (l - 0xDC00);
                            match char_from_code(code) {
                                Some(c) => {
                                    proof {
                                        lemma_char_of(c);
                                    }
                                    Some((c, 12))
                                },
                                None => None,
                            }
                        } else {
                            None
                        }
                    },
                    None => None,
                }
            } else {
                proof {
                    if s.len() >= 8 {
                        assert(s[6] == cs@[p + 6] && s[7] == cs@[p + 7]);
                    }
                }
                None
            }
        } else if 0xDC00 <= h && h < 0xE000 {
            None
        } else {
            match char_from_code(h) {
                Some(c) => {
                    proof {
                        lemma_char_of(c);
                    }
                    Some((c, 6))
                },
                None => None,
            }
        }
    } else {
        None
    }
}

pub open spec fn prepend(acc: Seq<char>, o: Option<(Seq<char>, Seq<char>)>) -> Option<
    (Seq<char>, Seq<char>),
> {
    match o {
        Some((t, rest)) => Some((acc + t, rest)),
        None => None,
    }
}

/// See [`string_body`].
fn string_body_at(cs: &Vec<char>, pos: usize) -> (r: Option<(String, usize)>)
    requires
        pos <= cs@.len(),
    ensures
        match r {
            Some((t, p)) => pos < p <= cs@.len() && string_body(suffix(cs@, pos as int)) == Some(
                (t@, suffix(cs@, p as int)),
            ),
            None => string_body(suffix(cs@, pos as int)) is None,
        },
{
    let mut acc: Vec<char> = Vec::new();
    let mut p = pos;
    proof {
        assert(acc@ + Seq::<char>::empty() =~= acc@);
    }
    loop
        invariant
            pos <= p <= cs@.len(),
            string_body(suffix(cs@, pos as int)) == prepend(acc@, string_body(suffix(cs@, p as int))),
        decreases cs@.len() - p,
    {
        if p >= cs.len() {
            return None;
        }
        let ghost s = suffix(cs@, p as int);
        proof {
            lemma_suffix_next(cs@, p as int);
        }
        let c = cs[p];
        if c == '"' {
            proof {
                assert(acc@ + Seq::<char>::empty() =~= acc@);
            }
            return Some((string_of(&acc), p + 1));
        } else if c == '\\' {
            match escape_at_exec(cs, p) {
                Some((e, n)) => {
                    proof {
                        assert(s.subrange(n as int, s.len() as int) =~= suffix(cs@, p + n));
                        let inner = string_body(suffix(cs@, p + n));
                        match inner {
                            Some((t, rest)) => {
                                assert(acc@ + (seq![e] + t) =~= acc@.push(e) + t);
                            },
                            None => {},
                        }
                    }
                    acc.push(e);
                    p = p + n;
                },
                None => {
                    return None;
                },
            }
        } else if (c as u32) < 0x20 {
            return None;
        } else {
            proof {
                let inner = string_body(suffix(cs@, p + 1));
                match inner {
                    Some((t, rest)) => {
                        assert(acc@ + (seq![c] + t) =~= acc@.push(c) + t);
                    },
                    None => {},
                }
            }
            acc.push(c);
            p = p + 1;
        }
    }
}


fn is_ws_char(c: char) -> (r: bool)
    ensures
        r == is_ws(c),
{
    c == ' ' || c == '\t' || c == '\n' || c == '\r'
}

/// The first position from `pos` on that does not hold whitespace.
fn skip_ws_at(cs: &Vec<char>, pos: usize) -> (r: usize)
    requires
        pos <= cs@.len(),
    ensures
        pos <= r <= cs@.len(),
        skip_ws(suffix(cs@, pos as int)) == suffix(cs@, r as int),
        forall|i: int| pos <= i < r ==> is_ws(#[trigger] cs@[i]),
        r < cs@.len() ==> !is_ws(cs@[r as int]),
{
    let mut p = pos;
    while p < cs.len() && is_ws_char(cs[p])
        invariant
            pos <= p <= cs@.len(),
            skip_ws(suffix(cs@, pos as int)) == skip_ws(suffix(cs@, p as int)),
            forall|i: int| pos <= i < p ==> is_ws(#[trigger] cs@[i]),
        decreases cs@.len() - p,
    {
        proof {
            lemma_suffix_next(cs@, p as int);
        }
        p = p + 1;
    }
    proof {
        if p < cs@.len() {
            lemma_suffix_next(cs@, p as int);
        }
    }
    p
}

/// Whether the chars `word` stand at position `p`.
fn word_at(cs: &Vec<char>, p: usize, word: &Vec<char>) -> (r: bool)
    requires
        p <= cs@.len(),
    ensures
        r == starts_with_seq(suffix(cs@, p as int), word@),
{
    let ghost s = suffix(cs@, p as int);
    if cs.len() - p < word.len() {
        return false;
    }
    let mut i: usize = 0;
    while i < word.len()
        invariant
            i <= word@.len(),
            p + word@.len() <= cs@.len(),
            cs@.len() <= usize::MAX,
            s == suffix(cs@, p as int),
            forall|k: int| 0 <= k < i ==> cs@[p + k] == word@[k],
        decreases word@.len() - i,
    {
        if cs[p + i] != word[i] {
            proof {
                assert(s.subrange(0, word@.len() as int)[i as int] != word@[i as int]);
            }
            return false;
        }
        i = i + 1;
    }
    proof {
        assert(s.subrange(0, word@.len() as int) =~= word@);
    }
    true
}

/// See [`parse_value`].
fn parse_value_at(cs: &Vec<char>, pos: usize, depth: u64) -> (r: Option<(StructuredValue, usize)>)
    requires
        pos <= cs@.len(),
    ensures
        match r {
            Some((v, p)) => pos < p <= cs@.len() && parse_value(suffix(cs@, pos as int), depth as nat)
                == Some((v@, suffix(cs@, p as int))),
            None => parse_value(suffix(cs@, pos as int), depth as nat) is None,
        },
    decreases cs@.len() - pos, 0nat,
{
    let mut p = pos;
    while p < cs.len() && is_ws_char(cs[p])
        invariant
            pos <= p <= cs@.len(),
            parse_value(suffix(cs@, pos as int), depth as nat) == parse_value(
                suffix(cs@, p as int),
                depth as nat,
            ),
        decreases cs@.len() - p,
    {
        proof {
            lemma_suffix_next(cs@, p as int);
        }
        p = p + 1;
    }
    if p >= cs.len() {
        return None;
    }
    let ghost s = suffix(cs@, p as int);
    proof {
        lemma_suffix_next(cs@, p as int);
    }
    let c = cs[p];
    if c == 'n' {
        if word_at(cs, p, &vec!['n', 'u', 'l', 'l']) {
            proof {
                assert(s.subrange(4, s.len() as int) =~= suffix(cs@, p + 4));
            }
            Some((StructuredValue::Null, p + 4))
        } else {
            None
        }
    } else if c == 't' {
        if word_at(cs, p, &vec!['t', 'r', 'u', 'e']) {
            proof {
                assert(s.subrange(4, s.len() as int) =~= suffix(cs@, p + 4));
            }
            Some((StructuredValue::Bool(true), p + 4))
        } else {
            None
        }
    } else if c == 'f' {
        if word_at(cs, p, &vec!['f', 'a', 'l', 's', 'e']) {
            proof {
                assert(s.subrange(5, s.len() as int) =~= suffix(cs@, p + 5));
            }
            Some((StructuredValue::Bool(false), p + 5))
        } else {
            None
        }
    } else if c == '"' {
        match string_body_at(cs, p + 1) {
            Some((t, q)) => Some((StructuredValue::Str(t), q)),
            None => None,
        }
    } else if c == '[' {
        if depth == 0 {
            None
        } else {
            parse_array_at(cs, p + 1, depth - 1)
        }
    } else if c == '{' {
        if depth == 0 {
            None
        } else {
            parse_object_at(cs, p + 1, depth - 1)
        }
    } else {
        parse_number_at(cs, p)
    }
}

/// See [`parse_array`].
fn parse_array_at(cs: &Vec<char>, pos: usize, depth: u64) -> (r: Option<(StructuredValue, usize)>)
    requires
        pos <= cs@.len(),
    ensures
        match r {
            Some((v, p)) => pos < p <= cs@.len() && parse_array(suffix(cs@, pos as int), depth as nat)
                == Some((v@, suffix(cs@, p as int))),
            None => parse_array(suffix(cs@, pos as int), depth as nat) is None,
        },
    decreases cs@.len() - pos, 2nat,
{
    let mut p = pos;
    while p < cs.len() && is_ws_char(cs[p])
        invariant
            pos <= p <= cs@.len(),
            parse_array(suffix(cs@, pos as int), depth as nat) == parse_array(
                suffix(cs@, p as int),
                depth as nat,
            ),
        decreases cs@.len() - p,
    {
        proof {
            lemma_suffix_next(cs@, p as int);
        }
        p = p + 1;
    }
    proof {
        if p < cs@.len() {
            lemma_suffix_next(cs@, p as int);
        }
    }
    if p < cs.len() && cs[p] == ']' {
        let items: Vec<StructuredValue> = Vec::new();
        let r = StructuredValue::Array(items);
        proof {
            assert(crate::value::views_of(items@) =~= Seq::<ValueModel>::empty());
        }
        return Some((r, p + 1));
    }
    let mut items: Vec<StructuredValue> = Vec::new();
    proof {
        assert(crate::value::views_of(items@) =~= Seq::<ValueModel>::empty());
    }
    loop
        invariant
            pos <= p <= cs@.len(),
            parse_array(suffix(cs@, pos as int), depth as nat) == array_items(
                suffix(cs@, p as int),
                depth as nat,
                crate::value::views_of(items@),
            ),
        decreases cs@.len() - p,
    {
        let (v, after) = match parse_value_at(cs, p, depth) {
            Some(x) => x,
            None => {
                return None;
            },
        };
        let ghost done = crate::value::views_of(items@);
        let ghost before = items@;
        let ghost vm = v@;
        items.push(v);
        proof {
            let all = items@;
            assert(all.subrange(0, all.len() - 1) =~= before);
            assert(all[all.len() - 1]@ == vm);
            assert(crate::value::views_of(all) == done.push(vm));
            assert(array_items(suffix(cs@, p as int), depth as nat, done) == after_item(suffix(cs@, after as int), depth as nat, done.push(vm)));
        }
        let q = skip_ws_at(cs, after);
        proof {
            assert forall|k: int| after <= k <= q implies after_item(suffix(cs@, after as int), depth as nat, crate::value::views_of(items@)) == after_item(suffix(cs@, k), depth as nat, crate::value::views_of(items@)) by {
                lemma_after_item_ws(cs@, after as int, k, depth as nat, crate::value::views_of(items@));
            }
        }
        if q >= cs.len() {
            return None;
        }
        proof {
            lemma_suffix_next(cs@, q as int);
        }
        if cs[q] == ',' {
            p = q + 1;
        } else if cs[q] == ']' {
            return Some((StructuredValue::Array(items), q + 1));
        } else {
            return None;
        }
    }
}

proof fn lemma_after_item_ws(cs: Seq<char>, from: int, to: int, depth: nat, done: Seq<ValueModel>)
    requires
        0 <= from <= to <= cs.len(),
        forall|i: int| from <= i < to ==> is_ws(#[trigger] cs[i]),
    ensures
        after_item(suffix(cs, from), depth, done) == after_item(suffix(cs, to), depth, done),
    decreases to - from,
{
    if from < to {
        lemma_suffix_next(cs, from);
        lemma_after_item_ws(cs, from + 1, to, depth, done);
    }
}

proof fn lemma_after_member_ws(
    cs: Seq<char>,
    from: int,
    to: int,
    depth: nat,
    done: Seq<(Seq<char>, ValueModel)>,
)
    requires
        0 <= from <= to <= cs.len(),
        forall|i: int| from <= i < to ==> is_ws(#[trigger] cs[i]),
    ensures
        after_member(suffix(cs, from), depth, done) == after_member(suffix(cs, to), depth, done),
    decreases to - from,
{
    if from < to {
        lemma_suffix_next(cs, from);
        lemma_after_member_ws(cs, from + 1, to, depth, done);
    }
}

proof fn lemma_after_key_ws(cs: Seq<char>, from: int, to: int)
    requires
        0 <= from <= to <= cs.len(),
        forall|i: int| from <= i < to ==> is_ws(#[trigger] cs[i]),
    ensures
        after_key(suffix(cs, from)) == after_key(suffix(cs, to)),
    decreases to - from,
{
    if from < to {
        lemma_suffix_next(cs, from);
        lemma_after_key_ws(cs, from + 1, to);
    }
}

/// See [`parse_object`].
#[verifier::rlimit(80)]
fn parse_object_at(cs: &Vec<char>, pos: usize, depth: u64) -> (r: Option<(StructuredValue, usize)>)
    requires
        pos <= cs@.len(),
    ensures
        match r {
            Some((v, p)) => pos < p <= cs@.len() && parse_object(suffix(cs@, pos as int), depth as nat)
                == Some((v@, suffix(cs@, p as int))),
            None => parse_object(suffix(cs@, pos as int), depth as nat) is None,
        },
    decreases cs@.len() - pos, 2nat,
{
    let mut p = pos;
    while p < cs.len() && is_ws_char(cs[p])
        invariant
            pos <= p <= cs@.len(),
            parse_object(suffix(cs@, pos as int), depth as nat) == parse_object(
                suffix(cs@, p as int),
                depth as nat,
            ),
        decreases cs@.len() - p,
    {
        proof {
            lemma_suffix_next(cs@, p as int);
        }
        p = p + 1;
    }
    proof {
        if p < cs@.len() {
            lemma_suffix_next(cs@, p as int);
        }
    }
    if p < cs.len() && cs[p] == '}' {
        let members: Vec<(String, StructuredValue)> = Vec::new();
        proof {
            assert(crate::value::member_views_of(members@) =~= Seq::<(Seq<char>, ValueModel)>::empty());
        }
        return Some((StructuredValue::Object(members), p + 1));
    }
    let mut members: Vec<(String, StructuredValue)> = Vec::new();
    proof {
        assert(crate::value::member_views_of(members@) =~= Seq::<(Seq<char>, ValueModel)>::empty());
    }
    loop
        invariant
            pos <= p <= cs@.len(),
            parse_object(suffix(cs@, pos as int), depth as nat) == object_members(
                suffix(cs@, p as int),
                depth as nat,
                crate::value::member_views_of(members@),
            ),
        decreases cs@.len() - p,
    {
        let ghost s = suffix(cs@, p as int);
        let ghost done = crate::value::member_views_of(members@);
        let q = skip_ws_at(cs, p);
        if q >= cs.len() || cs[q] != '"' {
            return None;
        }
        proof {
            lemma_suffix_next(cs@, q as int);
        }
        let (key, r1) = match string_body_at(cs, q + 1) {
            Some(x) => x,
            None => {
                return None;
            },
        };
        let k = skip_ws_at(cs, r1);
        proof {
            lemma_after_key_ws(cs@, r1 as int, k as int);
            if k < cs@.len() {
                lemma_suffix_next(cs@, k as int);
            }
        }
        if k >= cs.len() || cs[k] != ':' {
            return None;
        }
        let r2 = k + 1;
        if r2 <= p {
            return None;
        }
        let (v, r3) = match parse_value_at(cs, r2, depth) {
            Some(x) => x,
            None => {
                return None;
            },
        };
        if r3 <= p {
            return None;
        }
        let ghost before = members@;
        let ghost km = key@;
        let ghost vm = v@;
        members.push((key, v));
        proof {
            let all = members@;
            assert(all.subrange(0, all.len() - 1) =~= before);
            assert(all[all.len() - 1].0@ == km && all[all.len() - 1].1@ == vm);
            assert(crate::value::member_views_of(all) == done.push((km, vm)));
        }
        let e = skip_ws_at(cs, r3);
        proof {
            lemma_after_member_ws(cs@, r3 as int, e as int, depth as nat, crate::value::member_views_of(members@));
        }
        if e >= cs.len() {
            return None;
        }
        proof {
            lemma_suffix_next(cs@, e as int);
        }
        if cs[e] == ',' {
            p = e + 1;
        } else if cs[e] == '}' {
            return Some((StructuredValue::Object(members), e + 1));
        } else {
            return None;
        }
    }
}

/// Decodes a JSON text: one value, with whitespace around it allowed, arrays
/// and objects nested at most [`MAX_DEPTH`] deep.
pub fn decode_json(text: &str) -> (r: Result<StructuredValue, JsonError>)
    ensures
        match r {
            Ok(v) => parsed(text@) == Ok::<ValueModel, JsonError>(v@),
            Err(e) => parsed(text@) == Err::<ValueModel, JsonError>(e),
        },
{
    let cs = chars_of(text);
    proof {
        assert(suffix(cs@, 0) =~= text@);
    }
    match parse_value_at(&cs, 0, MAX_DEPTH) {
        Some((v, p)) => {
            let q = skip_ws_at(&cs, p);
            if q == cs.len() {
                Ok(v)
            } else {
                Err(JsonError::TrailingText)
            }
        },
        None => Err(JsonError::Malformed),
    }
}

} // verus!
