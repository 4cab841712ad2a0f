use vstd::prelude::*;

use crate::json::{escape_char, escaped, json_items, json_members, json_text, quoted};
use crate::parse::{
    after_item, array_items, digits_len, digits_value, escape_at, exp_end, frac_end, hex4,
    hex_value, integer_value, is_digit, is_ws, lemma_char_of, lemma_digits_len, number_token,
    object_members, parse_array, parse_object, parse_value, parsed, skip_ws, string_body, MAX_DEPTH,
};
use crate::text::{digit_char, hex_char, int_text, nat_text};
use crate::value::{StructuredValue, ValueModel};

verus! {

/// What a value must be for its JSON text to decode back to it: integers fit
/// in 64 signed bits, each float holds one number token with a fraction or an
/// exponent, and arrays and objects nest at most `depth` deep.
pub open spec fn fits(m: ValueModel, depth: nat) -> bool
    decreases m,
{
    match m {
        ValueModel::Integer(i) => i64::MIN <= i <= i64::MAX,
        ValueModel::Float(t) => number_token(t) == Some((t.len() as int, false)),
        ValueModel::Array(items) => depth > 0 && items_fit(items, (depth - 1) as nat),
        ValueModel::Object(members) => depth > 0 && members_fit(members, (depth - 1) as nat),
        _ => true,
    }
}

pub open spec fn items_fit(items: Seq<ValueModel>, depth: nat) -> bool
    decreases items,
{
    if items.len() == 0 {
        true
    } else {
        fits(items[0], depth) && items_fit(items.subrange(1, items.len() as int), depth)
    }
}

pub open spec fn members_fit(members: Seq<(Seq<char>, ValueModel)>, depth: nat) -> bool
    decreases members,
{
    if members.len() == 0 {
        true
    } else {
        fits(members[0].1, depth) && members_fit(members.subrange(1, members.len() as int), depth)
    }
}

/// Text that can follow a value: nothing, or a separator or a closing bracket.
pub open spec fn stops(rest: Seq<char>) -> bool {
    rest.len() == 0 || rest[0] == ',' || rest[0] == ']' || rest[0] == '}'
}

proof fn lemma_digit_char(d: int)
    requires
        0 <= d < 10,
    ensures
        is_digit(digit_char(d)),
        (digit_char(d) as u32) - ('0' as u32) == d,
{
    let s = seq!['0', '1', '2', '3', '4', '5', '6', '7', '8', '9'];
    assert(s[0] == '0' && s[1] == '1' && s[2] == '2' && s[3] == '3' && s[4] == '4');
    assert(s[5] == '5' && s[6] == '6' && s[7] == '7' && s[8] == '8' && s[9] == '9');
}

proof fn lemma_hex_char(d: int)
    requires
        0 <= d < 16,
    ensures
        hex_value(hex_char(d)) == Some(d as nat),
{
    let s = seq!['0', '1', '2', '3', '4', '5', '6', '7', '8', '9', 'a', 'b', 'c', 'd', 'e', 'f'];
    assert(s[0] == '0' && s[1] == '1' && s[2] == '2' && s[3] == '3' && s[4] == '4');
    assert(s[5] == '5' && s[6] == '6' && s[7] == '7' && s[8] == '8' && s[9] == '9');
    assert(s[10] == 'a' && s[11] == 'b' && s[12] == 'c' && s[13] == 'd' && s[14] == 'e' && s[15]
        == 'f');
}

proof fn lemma_nat_text(n: nat)
    ensures
        nat_text(n).len() >= 1,
        forall|k: int| 0 <= k < nat_text(n).len() ==> is_digit(#[trigger] nat_text(n)[k]),
        digits_value(nat_text(n)) == n,
    decreases n,
{
    lemma_digit_char((n % 10) as int);
    if n >= 10 {
        lemma_nat_text(n / 10);
        let t = nat_text(n);
        assert(t.drop_last() =~= nat_text(n / 10));
        assert(t.last() == digit_char((n % 10) as int));
        assert(n == (n / 10) * 10 + n % 10) by (nonlinear_arith);
        assert(digits_value(t) == digits_value(t.drop_last()) * 10 + ((t.last() as u32) - ('0' as u32)) as nat);
        assert(digits_value(t) == n);
    } else {
        let t = nat_text(n);
        assert(t.drop_last() =~= Seq::<char>::empty());
        assert(t.last() == digit_char(n as int));
        assert(digits_value(t) == digits_value(t.drop_last()) * 10 + ((t.last() as u32) - ('0' as u32)) as nat);
        assert(digits_value(t) == n);
    }
}

/// Digits then text that does not go on with a digit.
proof fn lemma_digits_len_append(x: Seq<char>, r: Seq<char>)
    requires
        digits_len(x) < x.len() || r.len() == 0 || !is_digit(r[0]),
    ensures
        digits_len(x + r) == digits_len(x),
    decreases x.len(),
{
    if x.len() == 0 {
        assert(x + r =~= r);
    } else if is_digit(x[0]) {
        assert((x + r).drop_first() =~= x.drop_first() + r);
        lemma_digits_len_append(x.drop_first(), r);
    }
}

proof fn lemma_int_round_trip(i: int, rest: Seq<char>)
    requires
        i64::MIN <= i <= i64::MAX,
        stops(rest),
    ensures
        parse_value(int_text(i) + rest, 0) == Some((ValueModel::Integer(i), rest)),
        forall|d: nat| parse_value(int_text(i) + rest, d) == Some((ValueModel::Integer(i), rest)),
{
    let mag: nat = if i < 0 {
        (-i) as nat
    } else {
        i as nat
    };
    lemma_nat_text(mag);
    let digits = nat_text(mag);
    let s = int_text(i) + rest;
    let a: int = if i < 0 {
        1
    } else {
        0
    };
    assert(s.subrange(a, s.len() as int) =~= digits + rest);
    lemma_digits_len_append(digits, rest);
    assert(digits_len(digits) == digits.len()) by {
        lemma_all_digits(digits);
    }
    let digits_end = a + digits.len();
    assert(s[0] == '-' <==> i < 0) by {
        if i >= 0 {
            assert(s[0] == digits[0]);
        }
    }
    assert(frac_end(s, digits_end) == Some(digits_end)) by {
        if digits_end < s.len() {
            assert(s[digits_end] == rest[0]);
        }
    }
    assert(exp_end(s, digits_end) == Some(digits_end)) by {
        if digits_end < s.len() {
            assert(s[digits_end] == rest[0]);
        }
    }
    assert(number_token(s) == Some((digits_end, true)));
    let t = s.subrange(0, digits_end);
    assert(t =~= int_text(i));
    if i < 0 {
        assert(t.drop_first() =~= digits);
    }
    assert(integer_value(t) == ValueModel::Integer(i));
    assert(s.subrange(digits_end, s.len() as int) =~= rest);
    assert forall|d: nat| parse_value(s, d) == Some((ValueModel::Integer(i), rest)) by {
        assert(s[0] == '-' || is_digit(s[0])) by {
            if i >= 0 {
                assert(s[0] == digits[0]);
            }
        }
    }
}

proof fn lemma_all_digits(x: Seq<char>)
    requires
        forall|k: int| 0 <= k < x.len() ==> is_digit(#[trigger] x[k]),
    ensures
        digits_len(x) == x.len(),
    decreases x.len(),
{
    if x.len() > 0 {
        assert forall|k: int| 0 <= k < x.drop_first().len() implies is_digit(
            #[trigger] x.drop_first()[k],
        ) by {
            assert(x.drop_first()[k] == x[k + 1]);
        }
        lemma_all_digits(x.drop_first());
    }
}


proof fn lemma_escaped_front(x: Seq<char>)
    requires
        x.len() > 0,
    ensures
        escaped(x) == escape_char(x[0]) + escaped(x.drop_first()),
    decreases x.len(),
{
    if x.len() == 1 {
        assert(x.drop_last() =~= Seq::<char>::empty());
        assert(x.drop_first() =~= Seq::<char>::empty());
        assert(escaped(x) =~= escape_char(x[0]) + escaped(x.drop_first()));
    } else {
        lemma_escaped_front(x.drop_last());
        assert(x.drop_last().drop_first() =~= x.drop_first().drop_last());
        assert(x.drop_first().last() == x.last());
        assert(escaped(x) =~= escape_char(x[0]) + escaped(x.drop_first()));
    }
}

/// One escaped char, then `w`, reads as that char before what `w` reads as.
proof fn lemma_escape_char_reads(c: char, w: Seq<char>)
    ensures
        string_body(escape_char(c) + w) == match string_body(w) {
            Some((t, r)) => Some((seq![c] + t, r)),
            None => None,
        },
{
    let s = escape_char(c) + w;
    if c == '"' || c == '\\' || c == '\n' || c == '\r' || c == '\t' {
        assert(s[0] == '\\');
        assert(s.subrange(2, s.len() as int) =~= w);
    } else if (c as u32) < 0x20 {
        let code = c as u32;
        let hi = (code / 16) as int;
        let lo = (code % 16) as int;
        lemma_hex_char(hi);
        lemma_hex_char(lo);
        lemma_hex_char(0);
        let h = s.subrange(2, s.len() as int);
        assert(h[0] == '0' && h[1] == '0' && h[2] == hex_char(hi) && h[3] == hex_char(lo));
        assert(hex4(h) == Some(code as nat));
        lemma_char_of(c);
        assert(escape_at(s) == Some((c, 6int)));
        assert(s.subrange(6, s.len() as int) =~= w);
    } else {
        assert(s.drop_first() =~= w);
    }
}

proof fn lemma_string_round_trip(x: Seq<char>, rest: Seq<char>)
    ensures
        string_body(escaped(x) + seq!['"'] + rest) == Some((x, rest)),
    decreases x.len(),
{
    if x.len() == 0 {
        let s = escaped(x) + seq!['"'] + rest;
        assert(s.drop_first() =~= rest);
    } else {
        lemma_escaped_front(x);
        lemma_string_round_trip(x.drop_first(), rest);
        let w = escaped(x.drop_first()) + seq!['"'] + rest;
        lemma_escape_char_reads(x[0], w);
        assert(escaped(x) + seq!['"'] + rest =~= escape_char(x[0]) + w);
        assert(seq![x[0]] + x.drop_first() =~= x);
    }
}

proof fn lemma_quoted_round_trip(x: Seq<char>, rest: Seq<char>, depth: nat)
    ensures
        parse_value(quoted(x) + rest, depth) == Some((ValueModel::Str(x), rest)),
{
    let s = quoted(x) + rest;
    lemma_string_round_trip(x, rest);
    assert(s.drop_first() =~= escaped(x) + seq!['"'] + rest);
}


proof fn lemma_tail_of_append(t: Seq<char>, rest: Seq<char>, k: int)
    requires
        0 <= k <= t.len(),
        stops(rest),
    ensures
        (t + rest).subrange(k, (t + rest).len() as int) == t.subrange(k, t.len() as int) + rest,
        digits_len((t + rest).subrange(k, (t + rest).len() as int)) == digits_len(
            t.subrange(k, t.len() as int),
        ),
{
    assert((t + rest).subrange(k, (t + rest).len() as int) =~= t.subrange(k, t.len() as int) + rest);
    lemma_digits_len_append(t.subrange(k, t.len() as int), rest);
}

proof fn lemma_float_round_trip(t: Seq<char>, rest: Seq<char>, depth: nat)
    requires
        number_token(t) == Some((t.len() as int, false)),
        stops(rest),
    ensures
        parse_value(t + rest, depth) == Some((ValueModel::Float(t), rest)),
{
    let s = t + rest;
    let n = t.len() as int;
    let a: int = if t.len() > 0 && t[0] == '-' {
        1
    } else {
        0
    };
    lemma_tail_of_append(t, rest, a);
    let d1 = digits_len(t.subrange(a, n));
    assert(d1 > 0);
    assert(t.len() > 0);
    assert(s[0] == t[0]);
    lemma_digits_len(t.subrange(a, n));
    let digits_end = a + d1;
    assert(frac_end(s, digits_end) == frac_end(t, digits_end)) by {
        if digits_end < n {
            assert(s[digits_end] == t[digits_end]);
            if t[digits_end] == '.' {
                lemma_tail_of_append(t, rest, digits_end + 1);
            }
        } else if digits_end < s.len() {
            assert(s[digits_end] == rest[0]);
        }
    }
    let frac_stop = frac_end(t, digits_end)->0;
    assert(frac_stop <= n) by {
        if digits_end < n && t[digits_end] == '.' {
            lemma_digits_len(t.subrange(digits_end + 1, n));
        }
    }
    assert(exp_end(s, frac_stop) == exp_end(t, frac_stop)) by {
        if frac_stop < n {
            assert(s[frac_stop] == t[frac_stop]);
            if t[frac_stop] == 'e' || t[frac_stop] == 'E' {
                if frac_stop + 1 < n {
                    assert(s[frac_stop + 1] == t[frac_stop + 1]);
                } else if frac_stop + 1 < s.len() {
                    assert(s[frac_stop + 1] == rest[0]);
                }
                let q = if frac_stop + 1 < n && (t[frac_stop + 1] == '+' || t[frac_stop + 1] == '-') {
                    frac_stop + 2
                } else {
                    frac_stop + 1
                };
                lemma_tail_of_append(t, rest, q);
            }
        } else if frac_stop < s.len() {
            assert(s[frac_stop] == rest[0]);
        }
    }
    assert(number_token(s) == number_token(t));
    assert(s.subrange(0, n) =~= t);
    assert(s.subrange(n, s.len() as int) =~= rest);
    assert(s[0] == '-' || is_digit(s[0])) by {
        if a == 0 {
            assert(t.subrange(a, n)[0] == t[0]);
        }
    }
}


pub open spec fn member_text(member: (Seq<char>, ValueModel)) -> Seq<char> {
    quoted(member.0) + seq![':'] + json_text(member.1)
}

proof fn lemma_items_front(items: Seq<ValueModel>)
    requires
        items.len() >= 2,
    ensures
        json_items(items) == json_text(items[0]) + seq![','] + json_items(
            items.subrange(1, items.len() as int),
        ),
    decreases items.len(),
{
    let n = items.len() as int;
    let tail = items.subrange(1, n);
    let init = items.subrange(0, n - 1);
    assert(json_items(items) == json_items(init) + seq![','] + json_text(items[n - 1]));
    if n == 2 {
        assert(init.len() == 1 && init[0] == items[0]);
        assert(tail.len() == 1 && tail[0] == items[1]);
        assert(json_items(init) == json_text(items[0]));
        assert(json_items(tail) == json_text(items[1]));
    } else {
        lemma_items_front(init);
        assert(init.subrange(1, n - 1) =~= tail.subrange(0, n - 2));
        assert(tail[n - 2] == items[n - 1]);
        assert(json_items(tail) == json_items(tail.subrange(0, n - 2)) + seq![','] + json_text(
            tail[n - 2],
        ));
        assert(json_items(items) =~= json_text(items[0]) + seq![','] + json_items(tail));
    }
}

proof fn lemma_members_front(members: Seq<(Seq<char>, ValueModel)>)
    requires
        members.len() >= 1,
    ensures
        members.len() == 1 ==> json_members(members) == member_text(members[0]),
        members.len() >= 2 ==> json_members(members) == member_text(members[0]) + seq![',']
            + json_members(members.subrange(1, members.len() as int)),
    decreases members.len(),
{
    let n = members.len() as int;
    let tail = members.subrange(1, n);
    let init = members.subrange(0, n - 1);
    if n == 1 {
        assert(json_members(members) == member_text(members[0]));
    } else if n == 2 {
        assert(init.len() == 1 && init[0] == members[0]);
        assert(tail.len() == 1 && tail[0] == members[1]);
        assert(json_members(init) == member_text(members[0]));
        assert(json_members(tail) == member_text(members[1]));
        assert(json_members(members) == json_members(init) + seq![','] + member_text(members[1]));
    } else {
        lemma_members_front(init);
        assert(init.subrange(1, n - 1) =~= tail.subrange(0, n - 2));
        assert(tail[n - 2] == members[n - 1]);
        assert(json_members(members) == json_members(init) + seq![','] + member_text(
            members[n - 1],
        ));
        assert(json_members(tail) == json_members(tail.subrange(0, n - 2)) + seq![',']
            + member_text(tail[n - 2]));
        assert(json_members(members) =~= member_text(members[0]) + seq![','] + json_members(tail));
    }
}

/// The text of a value is not empty and begins with none of whitespace, `]`
/// and `}`.
proof fn lemma_first_char(m: ValueModel, depth: nat)
    requires
        fits(m, depth),
    ensures
        json_text(m).len() > 0,
        !is_ws(json_text(m)[0]),
        json_text(m)[0] != ']',
        json_text(m)[0] != '}',
{
    match m {
        ValueModel::Integer(i) => {
            let mag: nat = if i < 0 {
                (-i) as nat
            } else {
                i as nat
            };
            lemma_nat_text(mag);
            if i >= 0 {
                assert(json_text(m)[0] == nat_text(mag)[0]);
            }
        },
        ValueModel::Float(t) => {
            let a: int = if t.len() > 0 && t[0] == '-' {
                1
            } else {
                0
            };
            lemma_digits_len(t.subrange(a, t.len() as int));
            if a == 0 {
                assert(t.subrange(a, t.len() as int)[0] == t[0]);
            }
        },
        _ => {},
    }
}

proof fn lemma_value_round_trip(m: ValueModel, depth: nat, rest: Seq<char>)
    requires
        fits(m, depth),
        stops(rest),
    ensures
        parse_value(json_text(m) + rest, depth) == Some((m, rest)),
    decreases m, 2nat,
{
    let s = json_text(m) + rest;
    match m {
        ValueModel::Null => {
            assert(s.subrange(0, 4) =~= seq!['n', 'u', 'l', 'l']);
            assert(s.subrange(4, s.len() as int) =~= rest);
        },
        ValueModel::Bool(b) => {
            if b {
                assert(s.subrange(0, 4) =~= seq!['t', 'r', 'u', 'e']);
                assert(s.subrange(4, s.len() as int) =~= rest);
            } else {
                assert(s.subrange(0, 5) =~= seq!['f', 'a', 'l', 's', 'e']);
                assert(s.subrange(5, s.len() as int) =~= rest);
            }
        },
        ValueModel::Integer(i) => {
            lemma_int_round_trip(i, rest);
        },
        ValueModel::Float(t) => {
            lemma_float_round_trip(t, rest, depth);
        },
        ValueModel::Str(x) => {
            lemma_quoted_round_trip(x, rest, depth);
        },
        ValueModel::Array(items) => {
            assert(s.drop_first() =~= json_items(items) + seq![']'] + rest);
            lemma_array_round_trip(items, (depth - 1) as nat, rest);
        },
        ValueModel::Object(members) => {
            assert(s.drop_first() =~= json_members(members) + seq!['}'] + rest);
            lemma_object_round_trip(members, (depth - 1) as nat, rest);
        },
    }
}

proof fn lemma_array_round_trip(items: Seq<ValueModel>, depth: nat, rest: Seq<char>)
    requires
        items_fit(items, depth),
        stops(rest),
    ensures
        parse_array(json_items(items) + seq![']'] + rest, depth) == Some(
            (ValueModel::Array(items), rest),
        ),
    decreases items, 1nat,
{
    let inner = json_items(items) + seq![']'] + rest;
    if items.len() == 0 {
        assert(inner.drop_first() =~= rest);
        assert(items =~= Seq::<ValueModel>::empty());
        assert(inner[0] == ']');
    } else {
        lemma_first_char(items[0], depth);
        if items.len() >= 2 {
            lemma_items_front(items);
        } else {
            assert(json_items(items) == json_text(items[0]));
        }
        assert(inner[0] == json_text(items[0])[0]);
        lemma_items_round_trip(items, depth, Seq::empty(), rest);
        assert(Seq::<ValueModel>::empty() + items =~= items);
    }
}

proof fn lemma_object_round_trip(members: Seq<(Seq<char>, ValueModel)>, depth: nat, rest: Seq<char>)
    requires
        members_fit(members, depth),
        stops(rest),
    ensures
        parse_object(json_members(members) + seq!['}'] + rest, depth) == Some(
            (ValueModel::Object(members), rest),
        ),
    decreases members, 1nat,
{
    let inner = json_members(members) + seq!['}'] + rest;
    if members.len() == 0 {
        assert(inner.drop_first() =~= rest);
        assert(members =~= Seq::<(Seq<char>, ValueModel)>::empty());
        assert(inner[0] == '}');
    } else {
        lemma_members_front(members);
        assert(inner[0] == '"');
        lemma_members_round_trip(members, depth, Seq::empty(), rest);
        assert(Seq::<(Seq<char>, ValueModel)>::empty() + members =~= members);
    }
}

#[verifier::rlimit(100)]
proof fn lemma_items_round_trip(
    items: Seq<ValueModel>,
    depth: nat,
    done: Seq<ValueModel>,
    rest: Seq<char>,
)
    requires
        items.len() >= 1,
        items_fit(items, depth),
        stops(rest),
    ensures
        array_items(json_items(items) + seq![']'] + rest, depth, done) == Some(
            (ValueModel::Array(done + items), rest),
        ),
    decreases items, 0nat,
{
    let x = items[0];
    let n = items.len() as int;
    lemma_first_char(x, depth);
    if n == 1 {
        let more = seq![']'] + rest;
        let s = json_items(items) + seq![']'] + rest;
        assert(json_items(items) == json_text(x));
        assert(s =~= json_text(x) + more);
        lemma_value_round_trip(x, depth, more);
        assert(more.len() < s.len());
        assert(array_items(s, depth, done) == after_item(more, depth, done.push(x)));
        assert(more.drop_first() =~= rest);
        assert(after_item(more, depth, done.push(x)) == Some((ValueModel::Array(done.push(x)), rest)));
        assert(done.push(x) =~= done + items);
    } else {
        let tail = items.subrange(1, n);
        lemma_items_front(items);
        let y = json_items(tail) + seq![']'] + rest;
        let more = seq![','] + y;
        let s = json_items(items) + seq![']'] + rest;
        assert(s =~= json_text(x) + more);
        lemma_value_round_trip(x, depth, more);
        assert(more.len() < s.len());
        assert(array_items(s, depth, done) == after_item(more, depth, done.push(x)));
        assert(more.drop_first() =~= y);
        assert(after_item(more, depth, done.push(x)) == array_items(y, depth, done.push(x)));
        lemma_items_round_trip(tail, depth, done.push(x), rest);
        assert(done.push(x) + tail =~= done + items);
    }
}

#[verifier::rlimit(100)]
proof fn lemma_members_round_trip(
    members: Seq<(Seq<char>, ValueModel)>,
    depth: nat,
    done: Seq<(Seq<char>, ValueModel)>,
    rest: Seq<char>,
)
    requires
        members.len() >= 1,
        members_fit(members, depth),
        stops(rest),
    ensures
        object_members(json_members(members) + seq!['}'] + rest, depth, done) == Some(
            (ValueModel::Object(done + members), rest),
        ),
    decreases members, 0nat,
{
    let (k, v) = members[0];
    let n = members.len() as int;
    lemma_members_front(members);
    let tail = members.subrange(1, n);
    let more = if n == 1 {
        seq!['}'] + rest
    } else {
        seq![','] + json_members(tail) + seq!['}'] + rest
    };
    let s = json_members(members) + seq!['}'] + rest;
    let x = json_text(v) + more;
    assert(s =~= quoted(k) + seq![':'] + x);
    assert(s[0] == '"');
    assert(skip_ws(s) == s);
    assert(s.drop_first() =~= escaped(k) + seq!['"'] + (seq![':'] + x));
    lemma_string_round_trip(k, seq![':'] + x);
    assert((seq![':'] + x).drop_first() =~= x);
    lemma_first_char(v, depth);
    lemma_value_round_trip(v, depth, more);
    if n == 1 {
        assert(more.drop_first() =~= rest);
        assert(done.push((k, v)) =~= done + members);
    } else {
        let y = json_members(tail) + seq!['}'] + rest;
        assert(more.drop_first() =~= y);
        lemma_members_round_trip(tail, depth, done.push((k, v)), rest);
        assert(done.push((k, v)) + tail =~= done + members);
    }
}

/// Encoding a value as JSON text and decoding that text gives the value
/// back, for every value whose integers fit in 64 signed bits, whose floats
/// each hold one number token with a fraction or an exponent, and whose arrays
/// and objects nest at most [`MAX_DEPTH`] deep.
pub proof fn lemma_round_trip(v: StructuredValue)
    requires
        fits(v@, MAX_DEPTH as nat),
    ensures
        parsed(json_text(v@)) == Ok::<ValueModel, crate::parse::JsonError>(v@),
{
    lemma_value_round_trip(v@, MAX_DEPTH as nat, Seq::empty());
    assert(json_text(v@) + Seq::<char>::empty() =~= json_text(v@));
}

} // verus!
