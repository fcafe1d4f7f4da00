//! Parsers for command-line values.

use vstd::prelude::*;

use crate::chars::{
    chars_of, debug_quoted, needs_no_escape, plain_quote, push_str, quoted, split_chars, split_on, string_of, views,
};
use crate::decimal::{parse_unsigned_chars, unsigned_from_chars};
use crate::protocol::TermSize;

verus! {

/// What `--size` gives for `s`: `COLSxROWS` with two numbers that fit in
/// 16 bits, or the message for the first thing wrong with it.
pub open spec fn size_result(s: Seq<char>) -> Result<TermSize, Seq<char>> {
    let parts = split_on(s, 'x');
    if parts.len() != 2 {
        Err("Invalid size format: "@ + debug_quoted(s) + ". Expected COLSxROWS (e.g. 120x40)"@)
    } else {
        match unsigned_from_chars(parts[0], u16::MAX as nat) {
            None => Err("Invalid columns: "@ + debug_quoted(parts[0])),
            Some(cols) => match unsigned_from_chars(parts[1], u16::MAX as nat) {
                None => Err("Invalid rows: "@ + debug_quoted(parts[1])),
                Some(rows) => Ok(TermSize { cols: cols as u16, rows: rows as u16 }),
            },
        }
    }
}

/// Parses a terminal size written `COLSxROWS`; see `size_result`.
pub fn parse_size(s: &str) -> (r: Result<TermSize, String>)
    ensures
        match r {
            Ok(t) => size_result(s@) == Ok::<TermSize, Seq<char>>(t),
            Err(m) => size_result(s@) == Err::<TermSize, Seq<char>>(m@),
        },
        r is Err && needs_no_escape(s@) ==> {
            let parts = split_on(s@, 'x');
            &&& parts.len() != 2 ==> debug_quoted(s@) == plain_quote(s@)
            &&& parts.len() == 2 && unsigned_from_chars(parts[0], u16::MAX as nat) is None ==> debug_quoted(parts[0])
                == plain_quote(parts[0])
            &&& parts.len() == 2 && unsigned_from_chars(parts[0], u16::MAX as nat) is Some && unsigned_from_chars(
                parts[1],
                u16::MAX as nat,
            ) is None ==> debug_quoted(parts[1]) == plain_quote(parts[1])
        },
{
    let v = chars_of(s);
    let parts = split_chars(&v, 'x');
    proof {
        crate::chars::lemma_split_nonempty(s@, 'x');
    }
    if parts.len() != 2 {
        let mut m: Vec<char> = Vec::new();
        push_str(&mut m, "Invalid size format: ");
        push_str(&mut m, quoted(s).as_str());
        push_str(&mut m, ". Expected COLSxROWS (e.g. 120x40)");
        return Err(string_of(&m));
    }
    assert(parts@[0]@ == split_on(s@, 'x')[0]);
    assert(parts@[1]@ == split_on(s@, 'x')[1]);
    let cols = match parse_unsigned_chars(&parts[0], 0xFFFF) {
        Some(c) => c as u16,
        None => {
            proof {
                if needs_no_escape(s@) {
                    crate::chars::lemma_split_needs_no_escape(s@, 'x', 0);
                }
            }
            let mut m: Vec<char> = Vec::new();
            push_str(&mut m, "Invalid columns: ");
            push_str(&mut m, quoted(string_of(&parts[0]).as_str()).as_str());
            return Err(string_of(&m));
        },
    };
    let rows = match parse_unsigned_chars(&parts[1], 0xFFFF) {
        Some(r) => r as u16,
        None => {
            proof {
                if needs_no_escape(s@) {
                    crate::chars::lemma_split_needs_no_escape(s@, 'x', 1);
                }
            }
            let mut m: Vec<char> = Vec::new();
            push_str(&mut m, "Invalid rows: ");
            push_str(&mut m, quoted(string_of(&parts[1]).as_str()).as_str());
            return Err(string_of(&m));
        },
    };
    Ok(TermSize { cols, rows })
}

/// Index of the first `=` in `s`.
pub open spec fn first_equals(s: Seq<char>) -> Option<int>
    decreases s.len(),
{
    if s.len() == 0 {
        None
    } else if s[0] == '=' {
        Some(0)
    } else {
        match first_equals(s.drop_first()) {
            Some(i) => Some(i + 1),
            None => None,
        }
    }
}

/// What `--env` gives for `s`: the text before the first `=` and the text
/// after it, or the message when there is none.
pub open spec fn env_result(s: Seq<char>) -> Result<(Seq<char>, Seq<char>), Seq<char>> {
    match first_equals(s) {
        Some(i) => Ok((s.take(i), s.skip(i + 1))),
        None => Err("Invalid env format: "@ + debug_quoted(s) + ". Expected KEY=VALUE"@),
    }
}

/// Parses an environment assignment written `KEY=VALUE`; see `env_result`.
pub fn parse_env(s: &str) -> (r: Result<(String, String), String>)
    ensures
        match r {
            Ok((k, v)) => env_result(s@) == Ok::<(Seq<char>, Seq<char>), Seq<char>>((k@, v@)),
            Err(m) => env_result(s@) == Err::<(Seq<char>, Seq<char>), Seq<char>>(m@),
        },
        r is Err && needs_no_escape(s@) ==> debug_quoted(s@) == plain_quote(s@),
{
    let v = chars_of(s);
    let mut i: usize = 0;
    assert(v@.skip(0) =~= v@);
    while i < v.len() && v[i] != '='
        invariant
            v@ == s@,
            i <= v@.len(),
            forall|j: int| 0 <= j < i ==> v@[j] != '=',
            first_equals(s@) == (match first_equals(v@.skip(i as int)) {
                Some(k) => Some(k + i),
                None => None,
            }),
        decreases v@.len() - i,
    {
        assert(v@.skip(i as int).drop_first() =~= v@.skip(i + 1));
        i = i + 1;
    }
    if i >= v.len() {
        let mut m: Vec<char> = Vec::new();
        push_str(&mut m, "Invalid env format: ");
        push_str(&mut m, quoted(s).as_str());
        push_str(&mut m, ". Expected KEY=VALUE");
        return Err(string_of(&m));
    }
    assert(v@.skip(i as int)[0] == '=');
    assert(first_equals(s@) == Some(i as int));
    let mut key: Vec<char> = Vec::new();
    let mut k: usize = 0;
    while k < i
        invariant
            k <= i < v@.len(),
            key@ == v@.take(k as int),
        decreases i - k,
    {
        key.push(v[k]);
        k = k + 1;
        assert(key@ =~= v@.take(k as int));
    }
    let mut value: Vec<char> = Vec::new();
    let mut j: usize = i + 1;
    while j < v.len()
        invariant
            i < j <= v@.len(),
            value@ == v@.subrange(i + 1, j as int),
        decreases v@.len() - j,
    {
        value.push(v[j]);
        j = j + 1;
        assert(value@ =~= v@.subrange(i + 1, j as int));
    }
    assert(value@ =~= v@.skip(i + 1));
    Ok((string_of(&key), string_of(&value)))
}

} // verus!

verus! {

proof fn lemma_split_plain(x: Seq<char>, y: Seq<char>, sep: char)
    requires
        forall|i: int| 0 <= i < y.len() ==> y[i] != sep,
    ensures
        split_on(x + y, sep) == split_on(x, sep).update(
            split_on(x, sep).len() - 1,
            split_on(x, sep).last() + y,
        ),
    decreases y.len(),
{
    crate::chars::lemma_split_nonempty(x, sep);
    let fx = split_on(x, sep);
    if y.len() == 0 {
        assert(x + y =~= x);
        assert(fx.last() + y =~= fx.last());
        assert(fx.update(fx.len() - 1, fx.last()) =~= fx);
    } else {
        let y0 = y.drop_last();
        lemma_split_plain(x, y0, sep);
        assert((x + y).drop_last() =~= x + y0);
        let prev = split_on(x + y0, sep);
        assert(prev.last() == fx.last() + y0);
        assert((fx.last() + y0).push(y.last()) =~= fx.last() + y);
        assert(prev.update(prev.len() - 1, prev.last().push(y.last())) =~= fx.update(fx.len() - 1, fx.last() + y));
    }
}

/// A size written as `COLSxROWS` in decimal parses back to itself.
pub proof fn law_size_round_trip(cols: u16, rows: u16)
    ensures
        size_result(crate::chars::dec(cols as nat) + "x"@ + crate::chars::dec(rows as nat)) == Ok::<
            TermSize,
            Seq<char>,
        >(TermSize { cols, rows }),
{
    let a = crate::chars::dec(cols as nat);
    let b = crate::chars::dec(rows as nat);
    crate::decimal::lemma_dec_value(cols as nat);
    crate::decimal::lemma_dec_value(rows as nat);
    assert forall|i: int| 0 <= i < a.len() implies a[i] != 'x' by {
        assert(crate::decimal::is_digit_char(a[i]));
    }
    assert forall|i: int| 0 <= i < b.len() implies b[i] != 'x' by {
        assert(crate::decimal::is_digit_char(b[i]));
    }
    reveal_strlit("x");
    let e = Seq::<char>::empty();
    lemma_split_plain(e, a, 'x');
    assert(e + a =~= a);
    assert(split_on(e, 'x') =~= seq![e]);
    assert(split_on(a, 'x') =~= seq![a]);
    assert(a.push('x').drop_last() =~= a);
    assert(split_on(a.push('x'), 'x') =~= seq![a, e]);
    lemma_split_plain(a.push('x'), b, 'x');
    assert(a + "x"@ + b =~= a.push('x') + b);
    assert(split_on(a + "x"@ + b, 'x') =~= seq![a, b]);
}

} // verus!
