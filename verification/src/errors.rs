//! The canonical error body the server sends on a failed request: a
//! JSON object carrying the status line's canonical message and the
//! raw diagnostic text, both escaped. No internal detail beyond these
//! two strings ever leaves a handler.

use vstd::prelude::*;

use crate::auth::hex_digit;

verus! {

/// A JSON string escape for one character: quotes and backslashes get
/// a backslash, control characters a `\u00..` escape, everything else
/// stands as itself.
pub open spec fn json_escape_char(c: char) -> Seq<char> {
    if c == '"' {
        seq!['\\', '"']
    } else if c == '\\' {
        seq!['\\', '\\']
    } else if (c as int) < 32 {
        seq!['\\', 'u', '0', '0', hex_digit(c as int / 16), hex_digit(c as int % 16)]
    } else {
        seq![c]
    }
}

/// A string escaped for use inside a JSON string literal.
pub open spec fn json_escaped(s: Seq<char>) -> Seq<char>
    decreases s.len(),
{
    if s.len() == 0 {
        Seq::empty()
    } else {
        json_escaped(s.drop_last()) + json_escape_char(s.last())
    }
}

/// The canonical error body: a JSON object with the canonical message
/// under `msg` and the diagnostic text under `error`.
pub open spec fn error_body_spec(msg: Seq<char>, detail: Seq<char>) -> Seq<char> {
    "{\"msg\":\""@ + json_escaped(msg) + "\",\"error\":\""@ + json_escaped(detail) + "\"}"@
}

fn append_hex_digit(out: &mut String, v: u8)
    requires
        v < 16,
    ensures
        final(out)@ == old(out)@ + seq![hex_digit(v as int)],
{
    proof {
        reveal_strlit("0");
        reveal_strlit("1");
        reveal_strlit("2");
        reveal_strlit("3");
        reveal_strlit("4");
        reveal_strlit("5");
        reveal_strlit("6");
        reveal_strlit("7");
        reveal_strlit("8");
        reveal_strlit("9");
        reveal_strlit("a");
        reveal_strlit("b");
        reveal_strlit("c");
        reveal_strlit("d");
        reveal_strlit("e");
        reveal_strlit("f");
    }
    match v {
        0 => out.append("0"),
        1 => out.append("1"),
        2 => out.append("2"),
        3 => out.append("3"),
        4 => out.append("4"),
        5 => out.append("5"),
        6 => out.append("6"),
        7 => out.append("7"),
        8 => out.append("8"),
        9 => out.append("9"),
        10 => out.append("a"),
        11 => out.append("b"),
        12 => out.append("c"),
        13 => out.append("d"),
        14 => out.append("e"),
        _ => out.append("f"),
    }
    proof {
        assert(final(out)@ =~= old(out)@ + seq![hex_digit(v as int)]);
    }
}

fn append_json_escaped(out: &mut String, s: &str)
    ensures
        final(out)@ == old(out)@ + json_escaped(s@),
{
    let n = s.unicode_len();
    let mut j: usize = 0;
    proof {
        assert(json_escaped(s@.take(0)) =~= Seq::<char>::empty());
        assert(out@ =~= old(out)@ + json_escaped(s@.take(0)));
    }
    while j < n
        invariant
            n == s@.len(),
            j <= n,
            out@ == old(out)@ + json_escaped(s@.take(j as int)),
        decreases n - j,
    {
        let c = s.get_char(j);
        let u = c as u32;
        proof {
            assert(s@.take(j + 1int).drop_last() =~= s@.take(j as int));
            assert(s@.take(j + 1int).last() == s@[j as int]);
        }
        if u == 34 {
            out.append("\\\"");
            proof {
                reveal_strlit("\\\"");
                assert(out@ =~= old(out)@ + json_escaped(s@.take(j + 1int)));
            }
        } else if u == 92 {
            out.append("\\\\");
            proof {
                reveal_strlit("\\\\");
                assert(out@ =~= old(out)@ + json_escaped(s@.take(j + 1int)));
            }
        } else if u < 32 {
            out.append("\\u00");
            let hi = (u / 16) as u8;
            let lo = (u % 16) as u8;
            append_hex_digit(out, hi);
            append_hex_digit(out, lo);
            proof {
                reveal_strlit("\\u00");
                assert(hi as int == c as int / 16);
                assert(lo as int == c as int % 16);
                assert(out@ =~= old(out)@ + json_escaped(s@.take(j + 1int)));
            }
        } else {
            let piece = s.substring_char(j, j + 1);
            out.append(piece);
            proof {
                assert(piece@ =~= seq![s@[j as int]]);
                assert(out@ =~= old(out)@ + json_escaped(s@.take(j + 1int)));
            }
        }
        j += 1;
    }
    proof {
        assert(s@.take(n as int) =~= s@);
    }
}

/// Builds the canonical error body for a failed request from the
/// status line's canonical message and the raw diagnostic text.
pub fn error_body(msg: &str, detail: &str) -> (r: String)
    ensures
        r@ == error_body_spec(msg@, detail@),
{
    let mut out = String::from_str("{\"msg\":\"");
    append_json_escaped(&mut out, msg);
    out.append("\",\"error\":\"");
    append_json_escaped(&mut out, detail);
    out.append("\"}");
    proof {
        assert(out@ =~= error_body_spec(msg@, detail@));
    }
    out
}

} // verus!
