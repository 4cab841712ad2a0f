use vstd::prelude::*;

use crate::text::{chars_of, hex_char, hex_digit, int_text, push_char, push_int, push_chars};
use crate::value::{StructuredValue, ValueModel};

verus! {

/// How one char of a string is written inside a JSON string literal.
pub open spec fn escape_char(c: char) -> Seq<char> {
    if c == '"' {
        seq!['\\', '"']
    } else if c == '\\' {
        seq!['\\', '\\']
    } else if c == '\n' {
        seq!['\\', 'n']
    } else if c == '\r' {
        seq!['\\', 'r']
    } else if c == '\t' {
        seq!['\\', 't']
    } else if (c as u32) < 0x20 {
        seq!['\\', 'u', '0', '0', hex_char((c as u32 / 16) as int), hex_char((c as u32 % 16) as int)]
    } else {
        seq![c]
    }
}

pub open spec fn escaped(s: Seq<char>) -> Seq<char>
    decreases s.len(),
{
    if s.len() == 0 {
        Seq::empty()
    } else {
        escaped(s.drop_last()) + escape_char(s.last())
    }
}

/// The JSON string literal for `s`.
pub open spec fn quoted(s: Seq<char>) -> Seq<char> {
    seq!['"'] + escaped(s) + seq!['"']
}

/// The JSON text of a value: compact, no whitespace, members in their order.
pub open spec fn json_text(v: ValueModel) -> Seq<char>
    decreases v,
{
    match v {
        ValueModel::Null => seq!['n', 'u', 'l', 'l'],
        ValueModel::Bool(b) => if b {
            seq!['t', 'r', 'u', 'e']
        } else {
            seq!['f', 'a', 'l', 's', 'e']
        },
        ValueModel::Integer(i) => int_text(i),
        ValueModel::Float(t) => t,
        ValueModel::Str(s) => quoted(s),
        ValueModel::Array(items) => seq!['['] + json_items(items) + seq![']'],
        ValueModel::Object(members) => seq!['{'] + json_members(members) + seq!['}'],
    }
}

/// The elements of an array, separated by commas.
pub open spec fn json_items(items: Seq<ValueModel>) -> Seq<char>
    decreases items,
{
    if items.len() == 0 {
        Seq::empty()
    } else if items.len() == 1 {
        json_text(items[0])
    } else {
        json_items(items.subrange(0, items.len() - 1)) + seq![','] + json_text(
            items[items.len() - 1],
        )
    }
}

/// The members of an object, `"key":value`, separated by commas.
pub open spec fn json_members(members: Seq<(Seq<char>, ValueModel)>) -> Seq<char>
    decreases members,
{
    if members.len() == 0 {
        Seq::empty()
    } else {
        let last = members[members.len() - 1];
        let entry = quoted(last.0) + seq![':'] + json_text(last.1);
        if members.len() == 1 {
            entry
        } else {
            json_members(members.subrange(0, members.len() - 1)) + seq![','] + entry
        }
    }
}

/// Appends the JSON string literal of `s`.
pub fn push_quoted(out: &mut String, s: &str)
    ensures
        final(out)@ == old(out)@ + quoted(s@),
{
    let cs = chars_of(s);
    push_char(out, '"');
    let mut i: usize = 0;
    while i < cs.len()
        invariant
            i <= cs@.len(),
            cs@ == s@,
            out@ == old(out)@ + seq!['"'] + escaped(cs@.subrange(0, i as int)),
        decreases cs@.len() - i,
    {
        let c = cs[i];
        let before = Ghost(out@);
        if c == '"' {
            push_char(out, '\\');
            push_char(out, '"');
        } else if c == '\\' {
            push_char(out, '\\');
            push_char(out, '\\');
        } else if c == '\n' {
            push_char(out, '\\');
            push_char(out, 'n');
        } else if c == '\r' {
            push_char(out, '\\');
            push_char(out, 'r');
        } else if c == '\t' {
            push_char(out, '\\');
            push_char(out, 't');
        } else if (c as u32) < 0x20 {
            push_char(out, '\\');
            push_char(out, 'u');
            push_char(out, '0');
            push_char(out, '0');
            push_char(out, hex_digit(c as u32 / 16));
            push_char(out, hex_digit(c as u32 % 16));
        } else {
            push_char(out, c);
        }
        proof {
            assert(out@ =~= before@ + escape_char(c));
            let next = cs@.subrange(0, i + 1);
            assert(next.drop_last() =~= cs@.subrange(0, i as int));
        }
        i = i + 1;
    }
    push_char(out, '"');
    proof {
        assert(cs@.subrange(0, cs@.len() as int) =~= cs@);
        assert(out@ =~= old(out)@ + quoted(s@));
    }
}

/// Appends the JSON text of `v`.
pub fn push_json(out: &mut String, v: &StructuredValue)
    ensures
        final(out)@ == old(out)@ + json_text(v@),
    decreases v,
{
    broadcast use vstd::std_specs::vec::group_vec_axioms;

    match v {
        StructuredValue::Null => {
            push_char(out, 'n');
            push_char(out, 'u');
            push_char(out, 'l');
            push_char(out, 'l');
            assert(out@ =~= old(out)@ + json_text(v@));
        },
        StructuredValue::Bool(b) => {
            if *b {
                push_char(out, 't');
                push_char(out, 'r');
                push_char(out, 'u');
                push_char(out, 'e');
            } else {
                push_char(out, 'f');
                push_char(out, 'a');
                push_char(out, 'l');
                push_char(out, 's');
                push_char(out, 'e');
            }
            assert(out@ =~= old(out)@ + json_text(v@));
        },
        StructuredValue::Integer(i) => {
            push_int(out, *i);
        },
        StructuredValue::Float(t) => {
            let cs = chars_of(t.as_str());
            push_chars(out, &cs);
        },
        StructuredValue::Str(s) => {
            push_quoted(out, s.as_str());
        },
        StructuredValue::Array(items) => {
            let ghost vs = match v@ {
                ValueModel::Array(vs) => vs,
                _ => Seq::empty(),
            };
            proof {
                crate::value::lemma_views_of(items@);
            }
            push_char(out, '[');
            let mut i: usize = 0;
            while i < items.len()
                invariant
                    i <= items@.len(),
                    decreases_to!(*v => *items),
                    vs.len() == items@.len(),
                    forall|j: int| 0 <= j < vs.len() ==> vs[j] == #[trigger] items@[j]@,
                    out@ == old(out)@ + seq!['['] + json_items(vs.subrange(0, i as int)),
                decreases items@.len() - i,
            {
                let ghost before = out@;
                if i > 0 {
                    push_char(out, ',');
                }
                proof {
                    assert(decreases_to!(items => items[i as int]));
                }
                push_json(out, &items[i]);
                proof {
                    let next = vs.subrange(0, i + 1);
                    assert(next.subrange(0, i as int) =~= vs.subrange(0, i as int));
                    assert(next[i as int] == items@[i as int]@);
                    if i == 0 {
                        assert(out@ =~= before + json_items(next));
                    } else {
                        assert(out@ =~= before + seq![','] + json_text(next[i as int]));
                    }
                }
                i = i + 1;
            }
            push_char(out, ']');
            proof {
                assert(vs.subrange(0, vs.len() as int) =~= vs);
                assert(out@ =~= old(out)@ + json_text(v@));
            }
        },
        StructuredValue::Object(members) => {
            let ghost ms = match v@ {
                ValueModel::Object(ms) => ms,
                _ => Seq::empty(),
            };
            proof {
                crate::value::lemma_member_views_of(members@);
            }
            push_char(out, '{');
            let mut i: usize = 0;
            while i < members.len()
                invariant
                    i <= members@.len(),
                    decreases_to!(*v => *members),
                    ms.len() == members@.len(),
                    forall|j: int|
                        0 <= j < ms.len() ==> ms[j] == (
                        #[trigger] members@[j].0@,
                        members@[j].1@,
                    ),
                    out@ == old(out)@ + seq!['{'] + json_members(ms.subrange(0, i as int)),
                decreases members@.len() - i,
            {
                let ghost before = out@;
                if i > 0 {
                    push_char(out, ',');
                }
                let ghost mid = out@;
                push_quoted(out, members[i].0.as_str());
                push_char(out, ':');
                proof {
                    assert(decreases_to!(members => members[i as int]));
                    assert(decreases_to!(members[i as int] => members[i as int].1));
                }
                push_json(out, &members[i].1);
                proof {
                    let next = ms.subrange(0, i + 1);
                    assert(next.subrange(0, i as int) =~= ms.subrange(0, i as int));
                    assert(next[i as int] == ms[i as int]);
                    let entry = quoted(ms[i as int].0) + seq![':'] + json_text(ms[i as int].1);
                    assert(out@ =~= mid + entry);
                    if i == 0 {
                        assert(out@ =~= before + json_members(next));
                    } else {
                        assert(out@ =~= before + seq![','] + entry);
                    }
                }
                i = i + 1;
            }
            push_char(out, '}');
            proof {
                assert(ms.subrange(0, ms.len() as int) =~= ms);
                assert(out@ =~= old(out)@ + json_text(v@));
            }
        },
    }
}

/// The JSON text of a value.
pub fn encode_json(v: &StructuredValue) -> (r: String)
    ensures
        r@ == json_text(v@),
{
    let mut r = String::new();
    push_json(&mut r, v);
    proof {
        assert(r@ =~= json_text(v@));
    }
    r
}

} // verus!
