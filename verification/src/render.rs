//! Rendering a document back to JSON text.
//!
//! The output is compact: no spaces or line breaks. Strings escape the
//! quote, the backslash and the control characters; `Num` texts are
//! emitted as they were carried.

use vstd::prelude::*;

use crate::json::{JsonValue, JsonView};

verus! {

/// The decimal digit character for a value below ten.
pub open spec fn dec_digit(n: int) -> char {
    if n == 0 {
        '0'
    } else if n == 1 {
        '1'
    } else if n == 2 {
        '2'
    } else if n == 3 {
        '3'
    } else if n == 4 {
        '4'
    } else if n == 5 {
        '5'
    } else if n == 6 {
        '6'
    } else if n == 7 {
        '7'
    } else if n == 8 {
        '8'
    } else {
        '9'
    }
}

/// The lower-case hexadecimal digit character for a value below sixteen.
pub open spec fn hex_digit(n: int) -> char {
    if n < 10 {
        dec_digit(n)
    } else if n == 10 {
        'a'
    } else if n == 11 {
        'b'
    } else if n == 12 {
        'c'
    } else if n == 13 {
        'd'
    } else if n == 14 {
        'e'
    } else {
        'f'
    }
}

/// Decimal text of a non-negative number.
pub open spec fn nat_text(n: int) -> Seq<char>
    decreases n,
{
    if n < 10 {
        seq![dec_digit(n)]
    } else {
        nat_text(n / 10) + seq![dec_digit(n % 10)]
    }
}

/// Decimal text of an integer, with a leading minus when negative.
pub open spec fn int_text(i: int) -> Seq<char> {
    if i < 0 {
        seq!['-'] + nat_text(-i)
    } else {
        nat_text(i)
    }
}

/// JSON escape of one string character.
pub open spec fn escape_json_char(c: char) -> Seq<char> {
    if c == '"' {
        seq!['\\', '"']
    } else if c == '\\' {
        seq!['\\', '\\']
    } else if (c as int) < 32 {
        seq!['\\', 'u', '0', '0', hex_digit(c as int / 16), hex_digit(c as int % 16)]
    } else {
        seq![c]
    }
}

/// JSON escape of a whole string.
pub open spec fn escaped_text(s: Seq<char>) -> Seq<char>
    decreases s.len(),
{
    if s.len() == 0 {
        Seq::empty()
    } else {
        escaped_text(s.drop_last()) + escape_json_char(s.last())
    }
}

/// Compact JSON text of a document.
pub open spec fn json_text(v: JsonView) -> Seq<char>
    decreases v, 1int,
{
    match v {
        JsonView::Null => seq!['n', 'u', 'l', 'l'],
        JsonView::Bool(b) => if b {
            seq!['t', 'r', 'u', 'e']
        } else {
            seq!['f', 'a', 'l', 's', 'e']
        },
        JsonView::Int(i) => int_text(i),
        JsonView::Num(t) => t,
        JsonView::Text(s) => seq!['"'] + escaped_text(s) + seq!['"'],
        JsonView::Arr(es) => seq!['['] + arr_body_text(es) + seq![']'],
        JsonView::Obj(ms) => seq!['{'] + obj_body_text(ms) + seq!['}'],
    }
}

/// Comma-separated texts of array elements.
pub open spec fn arr_body_text(es: Seq<JsonView>) -> Seq<char>
    decreases es, 0int,
{
    if es.len() == 0 {
        Seq::empty()
    } else if es.len() == 1 {
        json_text(es.last())
    } else {
        arr_body_text(es.drop_last()) + seq![','] + json_text(es.last())
    }
}

/// Comma-separated texts of object members, each `"key":value`.
pub open spec fn obj_body_text(ms: Seq<(Seq<char>, JsonView)>) -> Seq<char>
    decreases ms, 0int,
{
    if ms.len() == 0 {
        Seq::empty()
    } else if ms.len() == 1 {
        member_text(ms.last())
    } else {
        obj_body_text(ms.drop_last()) + seq![','] + member_text(ms.last())
    }
}

/// Text of one object member.
pub open spec fn member_text(m: (Seq<char>, JsonView)) -> Seq<char>
    decreases m, 1int,
{
    seq!['"'] + escaped_text(m.0) + seq!['"', ':'] + json_text(m.1)
}

/// Append the decimal digit character for `n`.
fn append_dec_digit(out: &mut String, n: u64)
    requires
        n < 10,
    ensures
        final(out)@ == old(out)@ + seq![dec_digit(n as int)],
{
    proof {
        reveal_strlit("0");
        reveal_strlit("1");
        reveal_strlit("2");
        reveal_strlit("3");
        reveal_strlit("4");
        reveal_strlit("5");
        reveal_strlit("6");
        reveal_strlit("7");
        reveal_strlit("8");
        reveal_strlit("9");
    }
    if n == 0 {
        out.append("0");
    } else if n == 1 {
        out.append("1");
    } else if n == 2 {
        out.append("2");
    } else if n == 3 {
        out.append("3");
    } else if n == 4 {
        out.append("4");
    } else if n == 5 {
        out.append("5");
    } else if n == 6 {
        out.append("6");
    } else if n == 7 {
        out.append("7");
    } else if n == 8 {
        out.append("8");
    } else {
        out.append("9");
    }
    proof {
        assert(final(out)@ =~= old(out)@ + seq![dec_digit(n as int)]);
    }
}

/// Append the lower-case hexadecimal digit character for `n`.
fn append_hex_digit(out: &mut String, n: u64)
    requires
        n < 16,
    ensures
        final(out)@ == old(out)@ + seq![hex_digit(n as int)],
{
    if n < 10 {
        append_dec_digit(out, n);
    } else {
        proof {
            reveal_strlit("a");
            reveal_strlit("b");
            reveal_strlit("c");
            reveal_strlit("d");
            reveal_strlit("e");
            reveal_strlit("f");
        }
        if n == 10 {
            out.append("a");
        } else if n == 11 {
            out.append("b");
        } else if n == 12 {
            out.append("c");
        } else if n == 13 {
            out.append("d");
        } else if n == 14 {
            out.append("e");
        } else {
            out.append("f");
        }
        proof {
            assert(final(out)@ =~= old(out)@ + seq![hex_digit(n as int)]);
        }
    }
}

/// Append the decimal text of a non-negative number.
pub(crate) fn append_nat(out: &mut String, n: u64)
    ensures
        final(out)@ == old(out)@ + nat_text(n as int),
    decreases n,
{
    if n < 10 {
        append_dec_digit(out, n);
    } else {
        append_nat(out, n / 10);
        append_dec_digit(out, n % 10);
        proof {
            assert(final(out)@ =~= old(out)@ + nat_text(n as int));
        }
    }
}

/// Append the decimal text of an integer.
fn append_int(out: &mut String, i: i64)
    ensures
        final(out)@ == old(out)@ + int_text(i as int),
{
    if i < 0 {
        proof {
            reveal_strlit("-");
        }
        out.append("-");
        let magnitude: u64 = ((-(i + 1)) as u64) + 1;
        proof {
            assert(magnitude as int == -(i as int));
        }
        append_nat(out, magnitude);
        proof {
            assert(final(out)@ =~= old(out)@ + int_text(i as int));
        }
    } else {
        append_nat(out, i as u64);
    }
}

/// Append the JSON escape of the characters of `s`.
#[verifier::loop_isolation(false)]
fn append_escaped(out: &mut String, s: &str)
    ensures
        final(out)@ == old(out)@ + escaped_text(s@),
{
    let n = s.unicode_len();
    let mut i: usize = 0;
    proof {
        assert(s@.subrange(0, 0) =~= Seq::<char>::empty());
        assert(out@ =~= old(out)@ + escaped_text(s@.subrange(0, 0)));
    }
    while i < n
        invariant
            i <= n,
            out@ == old(out)@ + escaped_text(s@.subrange(0, i as int)),
        decreases n - i,
    {
        let c = s.get_char(i);
        let ghost done = s@.subrange(0, i as int);
        if c == '"' {
            proof {
                reveal_strlit("\\\"");
            }
            out.append("\\\"");
        } else if c == '\\' {
            proof {
                reveal_strlit("\\\\");
            }
            out.append("\\\\");
        } else if (c as u32) < 32 {
            proof {
                reveal_strlit("\\u00");
            }
            out.append("\\u00");
            let code: u32 = c as u32;
            append_hex_digit(out, (code / 16) as u64);
            append_hex_digit(out, (code % 16) as u64);
        } else {
            out.append(s.substring_char(i, i + 1));
        }
        proof {
            assert(s@.subrange(0, i + 1 as int).drop_last() =~= done);
            assert(s@.subrange(0, i + 1 as int).last() == c);
            assert(out@ =~= old(out)@ + escaped_text(s@.subrange(0, i + 1 as int)));
        }
        i = i + 1;
    }
    proof {
        assert(s@.subrange(0, n as int) =~= s@);
    }
}

/// Append the compact JSON text of a document.
#[verifier::loop_isolation(false)]
fn append_json(out: &mut String, v: &JsonValue)
    ensures
        final(out)@ == old(out)@ + json_text(v@),
    decreases v,
{
    broadcast use crate::json::group_json_view_lemmas;

    match v {
        JsonValue::Null => {
            proof {
                reveal_strlit("null");
            }
            out.append("null");
            proof {
                assert(final(out)@ =~= old(out)@ + json_text(v@));
            }
        }
        JsonValue::Bool(b) => {
            if *b {
                proof {
                    reveal_strlit("true");
                }
                out.append("true");
            } else {
                proof {
                    reveal_strlit("false");
                }
                out.append("false");
            }
            proof {
                assert(out@ =~= old(out)@ + json_text(v@));
            }
        }
        JsonValue::Int(i) => {
            append_int(out, *i);
        }
        JsonValue::Num(t) => {
            out.append(t.as_str());
        }
        JsonValue::Text(s) => {
            proof {
                reveal_strlit("\\\"");
            }
            out.append("\"");
            append_escaped(out, s.as_str());
            out.append("\"");
            proof {
                reveal_strlit("\"");
                assert(out@ =~= old(out)@ + json_text(v@));
            }
        }
        JsonValue::Arr(items) => {
            proof {
                reveal_strlit("[");
                reveal_strlit("]");
                reveal_strlit(",");
            }
            out.append("[");
            let ghost opened = out@;
            let mut i: usize = 0;
            proof {
                assert(crate::json::elems_view(items@).subrange(0, 0)
                    =~= Seq::<JsonView>::empty());
            }
            while i < items.len()
                invariant
                    i <= items.len(),
                    out@ == opened + arr_body_text(
                        crate::json::elems_view(items@).subrange(0, i as int),
                    ),
                decreases items.len() - i,
            {
                if i > 0 {
                    out.append(",");
                }
                proof {
                    assert(decreases_to!(*v => *items));
                    assert(decreases_to!(*items => items@));
                    assert(decreases_to!(items@ => items@[i as int]));
                }
                append_json(out, &items[i]);
                proof {
                    let ev = crate::json::elems_view(items@);
                    assert(ev.subrange(0, i + 1 as int).drop_last() =~= ev.subrange(0, i as int));
                    assert(ev.subrange(0, i + 1 as int).last() == items@[i as int]@);
                    assert(out@ =~= opened + arr_body_text(ev.subrange(0, i + 1 as int)));
                }
                i = i + 1;
            }
            out.append("]");
            proof {
                let ev = crate::json::elems_view(items@);
                assert(ev.subrange(0, items@.len() as int) =~= ev);
                assert(out@ =~= old(out)@ + json_text(v@));
            }
        }
        JsonValue::Obj(members) => {
            proof {
                reveal_strlit("{");
                reveal_strlit("}");
                reveal_strlit(",");
                reveal_strlit("\"");
                reveal_strlit("\":");
            }
            out.append("{");
            let ghost opened = out@;
            let mut i: usize = 0;
            proof {
                assert(crate::json::members_view(members@).subrange(0, 0) =~= Seq::<(
                    Seq<char>,
                    JsonView,
                )>::empty());
            }
            while i < members.len()
                invariant
                    i <= members.len(),
                    out@ == opened + obj_body_text(
                        crate::json::members_view(members@).subrange(0, i as int),
                    ),
                decreases members.len() - i,
            {
                if i > 0 {
                    out.append(",");
                }
                let ghost before_member = out@;
                out.append("\"");
                append_escaped(out, members[i].key.as_str());
                out.append("\":");
                proof {
                    assert(decreases_to!(*v => *members));
                    assert(decreases_to!(*members => members@));
                    assert(decreases_to!(members@ => members@[i as int]));
                    assert(decreases_to!(members@[i as int] => members@[i as int].value));
                }
                append_json(out, &members[i].value);
                proof {
                    let mv = crate::json::members_view(members@);
                    assert(out@ =~= before_member + member_text(mv[i as int]));
                    assert(mv.subrange(0, i + 1 as int).drop_last() =~= mv.subrange(0, i as int));
                    assert(mv.subrange(0, i + 1 as int).last() == mv[i as int]);
                    assert(out@ =~= opened + obj_body_text(mv.subrange(0, i + 1 as int)));
                }
                i = i + 1;
            }
            out.append("}");
            proof {
                let mv = crate::json::members_view(members@);
                assert(mv.subrange(0, members@.len() as int) =~= mv);
                assert(out@ =~= old(out)@ + json_text(v@));
            }
        }
    }
}

impl JsonValue {
    /// Render the document as compact JSON text.
    pub fn to_text(&self) -> (r: String)
        ensures
            r@ == json_text(self@),
    {
        let mut out = String::new();
        append_json(&mut out, self);
        proof {
            assert(out@ =~= json_text(self@));
        }
        out
    }
}

} // verus!
