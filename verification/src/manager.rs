//! Session bookkeeping decisions of the daemon: naming new sessions and
//! ordering the session list.

use vstd::prelude::*;

use crate::chars::{dec, push_dec, push_str, string_of};
use crate::decimal::lemma_dec_value;
use crate::protocol::SessionInfo;

verus! {

/// The `i`-th generated session name, `session-{i}`.
pub open spec fn session_name(i: nat) -> Seq<char> {
    "session-"@ + dec(i)
}

/// `i` is the first `session-{i}` (counting from 1) not among `taken`.
pub open spec fn first_free_index(taken: Set<Seq<char>>, i: nat) -> bool {
    &&& i >= 1
    &&& !taken.contains(session_name(i))
    &&& forall|j: nat| 1 <= j < i ==> taken.contains(#[trigger] session_name(j))
}

proof fn lemma_session_name_injective(a: nat, b: nat)
    requires
        session_name(a) == session_name(b),
    ensures
        a == b,
{
    reveal_strlit("session-");
    assert(session_name(a).skip(8) =~= dec(a));
    assert(session_name(b).skip(8) =~= dec(b));
    lemma_dec_value(a);
    lemma_dec_value(b);
}

/// Among `n + 1` generated names, one is not in a list of `n` names.
proof fn lemma_some_name_free(taken: Seq<Seq<char>>)
    ensures
        exists|i: nat| 1 <= i <= taken.len() + 1 && !taken.contains(#[trigger] session_name(i)),
{
    if forall|i: nat| 1 <= i <= taken.len() + 1 ==> taken.contains(#[trigger] session_name(i)) {
        let n = taken.len() as int;
        let xs = vstd::set_lib::set_int_range(1, n + 2);
        vstd::set_lib::lemma_int_range(1, n + 2);
        let f = |i: int| session_name(i as nat);
        let ys = xs.map(f);
        let t = taken.to_set();
        assert(vstd::relations::injective_on(f, xs)) by {
            assert forall|a: int, b: int| xs.contains(a) && xs.contains(b) && #[trigger] f(a) == #[trigger] f(b) implies a == b by {
                lemma_session_name_injective(a as nat, b as nat);
            }
        }
        vstd::set_lib::lemma_map_size(xs, ys, f);
        assert(ys.subset_of(t)) by {
            assert forall|y: Seq<char>| ys.contains(y) implies t.contains(y) by {
                let a = choose|a: int| xs.contains(a) && f(a) == y;
                assert(taken.contains(session_name(a as nat)));
            }
        }
        vstd::set_lib::lemma_len_subset(ys, t);
        taken.lemma_cardinality_of_set();
        assert(false);
    }
}

fn is_taken(taken: &[String], name: &Vec<char>) -> (r: bool)
    ensures
        r == taken@.map_values(|s: String| s@).contains(name@),
{
    let ghost names = taken@.map_values(|s: String| s@);
    let mut i: usize = 0;
    while i < taken.len()
        invariant
            i <= taken@.len(),
            names == taken@.map_values(|s: String| s@),
            forall|j: int| 0 <= j < i ==> names[j] != name@,
        decreases taken@.len() - i,
    {
        let t = crate::chars::chars_of(taken[i].as_str());
        if crate::chars::same_chars(&t, name.as_slice()) {
            assert(names[i as int] == name@);
            return true;
        }
        i = i + 1;
    }
    false
}

/// The name of a new session: the requested one, else `default` while it is
/// free, else the first free `session-{i}`. A name that was not asked for is
/// never one already taken.
pub fn allocate_name(requested: Option<String>, taken: &[String]) -> (r: String)
    requires
        taken@.len() < usize::MAX,
    ensures
        requested is None ==> !taken@.map_values(|s: String| s@).contains(r@),
        ({
            let names = taken@.map_values(|s: String| s@).to_set();
            match requested {
                Some(n) => r@ == n@,
                None => if !names.contains("default"@) {
                    r@ == "default"@
                } else {
                    exists|i: nat| first_free_index(names, i) && r@ == session_name(i)
                },
            }
        }),
{
    let ghost names = taken@.map_values(|s: String| s@);
    match requested {
        Some(n) => n,
        None => {
            let default_name = crate::chars::chars_of("default");
            if !is_taken(taken, &default_name) {
                return "default".to_owned();
            }
            assert(names.to_set().contains("default"@));
            proof {
                lemma_some_name_free(names);
            }
            let mut i: usize = 1;
            loop
                invariant
                    requested is None,
                    names.to_set().contains("default"@),
                    1 <= i <= taken@.len() + 1,
                    names == taken@.map_values(|s: String| s@),
                    taken@.len() < usize::MAX,
                    forall|j: nat| 1 <= j < i ==> names.contains(#[trigger] session_name(j)),
                    exists|k: nat| 1 <= k <= taken@.len() + 1 && !names.contains(#[trigger] session_name(k)),
                decreases taken@.len() + 1 - i,
            {
                let mut candidate: Vec<char> = Vec::new();
                push_str(&mut candidate, "session-");
                push_dec(&mut candidate, i as u64);
                assert(candidate@ =~= session_name(i as nat));
                if !is_taken(taken, &candidate) {
                    assert(first_free_index(names.to_set(), i as nat));
                    let r = string_of(&candidate);
                    assert(first_free_index(names.to_set(), i as nat) && r@ == session_name(i as nat));
                    return r;
                }
                assert(i < taken@.len() + 1) by {
                    let k = choose|k: nat| 1 <= k <= taken@.len() + 1 && !names.contains(#[trigger] session_name(k));
                    if i >= taken@.len() + 1 {
                        assert(k < i || k == i);
                    }
                }
                i = i + 1;
            }
        },
    }
}

} // verus!

verus! {

/// `a` sorts before or with `b`: lexicographic order of the characters by
/// code point, which is the order of `str` (UTF-8 keeps code-point order
/// byte for byte).
pub open spec fn name_le(a: Seq<char>, b: Seq<char>) -> bool
    decreases a.len(),
{
    if a.len() == 0 {
        true
    } else if b.len() == 0 {
        false
    } else if a[0] != b[0] {
        (a[0] as u32) < (b[0] as u32)
    } else {
        name_le(a.drop_first(), b.drop_first())
    }
}

proof fn lemma_char_code(c: char)
    ensures
        (c as u32) as int == c as int,
{
}

proof fn lemma_name_le_total(a: Seq<char>, b: Seq<char>)
    ensures
        name_le(a, b) || name_le(b, a),
    decreases a.len(),
{
    if a.len() > 0 && b.len() > 0 {
        if a[0] == b[0] {
            lemma_name_le_total(a.drop_first(), b.drop_first());
        } else {
            lemma_char_code(a[0]);
            lemma_char_code(b[0]);
        }
    }
}

proof fn lemma_name_le_trans(a: Seq<char>, b: Seq<char>, c: Seq<char>)
    requires
        name_le(a, b),
        name_le(b, c),
    ensures
        name_le(a, c),
    decreases a.len(),
{
    if a.len() > 0 && b.len() > 0 && c.len() > 0 && a[0] == b[0] && b[0] == c[0] {
        lemma_name_le_trans(a.drop_first(), b.drop_first(), c.drop_first());
    }
}

/// Whether `a` sorts before or with `b`; see `name_le`.
fn name_le_exec(a: &String, b: &String) -> (r: bool)
    ensures
        r == name_le(a@, b@),
{
    let va = crate::chars::chars_of(a.as_str());
    let vb = crate::chars::chars_of(b.as_str());
    let mut i: usize = 0;
    assert(va@.skip(0) =~= va@);
    assert(vb@.skip(0) =~= vb@);
    while i < va.len() && i < vb.len() && va[i] == vb[i]
        invariant
            i <= va@.len(),
            i <= vb@.len(),
            va@ == a@,
            vb@ == b@,
            name_le(a@, b@) == name_le(va@.skip(i as int), vb@.skip(i as int)),
        decreases va@.len() - i,
    {
        assert(va@.skip(i as int).drop_first() =~= va@.skip(i + 1));
        assert(vb@.skip(i as int).drop_first() =~= vb@.skip(i + 1));
        i = i + 1;
    }
    let ghost sa = va@.skip(i as int);
    let ghost sb = vb@.skip(i as int);
    if i == va.len() {
        assert(sa.len() == 0);
        true
    } else if i == vb.len() {
        assert(sa.len() > 0 && sb.len() == 0);
        false
    } else {
        assert(sa[0] == va@[i as int] && sb[0] == vb@[i as int]);
        (va[i] as u32) < (vb[i] as u32)
    }
}

proof fn lemma_empty_to_multiset<A>(s: Seq<A>)
    requires
        s.len() == 0,
    ensures
        s.to_multiset() =~= vstd::multiset::Multiset::<A>::empty(),
{
    vstd::seq_lib::to_multiset_len(s);
    vstd::multiset::lemma_multiset_empty_len(s.to_multiset());
}

/// The names of a list of sessions.
pub open spec fn info_names(s: Seq<SessionInfo>) -> Seq<Seq<char>> {
    s.map_values(|i: SessionInfo| i.name@)
}

/// `s` is in order of name.
pub open spec fn sorted_by_name(s: Seq<SessionInfo>) -> bool {
    forall|i: int, j: int| 0 <= i < j < s.len() ==> name_le(#[trigger] s[i].name@, #[trigger] s[j].name@)
}

/// The sessions in order of name, as `tu list` shows them: the same entries
/// (as a multiset), sorted.
pub fn sort_by_name(sessions: Vec<SessionInfo>) -> (r: Vec<SessionInfo>)
    ensures
        sorted_by_name(r@),
        r@.to_multiset() == sessions@.to_multiset(),
{
    let mut rest = sessions;
    let mut out: Vec<SessionInfo> = Vec::new();
    proof {
        lemma_empty_to_multiset(out@);
        broadcast use vstd::multiset::group_multiset_axioms;
        assert(rest@.to_multiset().add(out@.to_multiset()) =~= rest@.to_multiset());
    }
    while rest.len() > 0
        invariant
            sorted_by_name(out@),
            rest@.to_multiset().add(out@.to_multiset()) == sessions@.to_multiset(),
        decreases rest@.len(),
    {
        let ghost rest0 = rest@;
        let ghost out0 = out@;
        let item = rest.pop().unwrap();
        assert(rest0 =~= rest@.push(item));
        proof {
            vstd::seq_lib::to_multiset_build(rest@, item);
        }
        let mut k: usize = 0;
        while k < out.len() && name_le_exec(&out[k].name, &item.name)
            invariant
                k <= out@.len(),
                out@ == out0,
                sorted_by_name(out@),
                forall|j: int| 0 <= j < k ==> name_le(#[trigger] out@[j].name@, item.name@),
            decreases out@.len() - k,
        {
            k = k + 1;
        }
        proof {
            assert forall|j: int| k <= j < out@.len() implies name_le(item.name@, #[trigger] out@[j].name@) by {
                lemma_name_le_total(out@[k as int].name@, item.name@);
                if j > k {
                    lemma_name_le_trans(item.name@, out@[k as int].name@, out@[j].name@);
                }
            }
        }
        out.insert(k, item);
        proof {
            let ins = out@;
            assert(ins =~= out0.take(k as int) + seq![item] + out0.skip(k as int));
            assert forall|i: int, j: int| 0 <= i < j < ins.len() implies name_le(
                #[trigger] ins[i].name@,
                #[trigger] ins[j].name@,
            ) by {
                if j < k {
                    assert(ins[i] == out0[i] && ins[j] == out0[j]);
                } else if j == k {
                    assert(ins[i] == out0[i]);
                } else if i == k {
                    assert(ins[j] == out0[j - 1]);
                } else if i < k {
                    assert(ins[i] == out0[i] && ins[j] == out0[j - 1]);
                    lemma_name_le_trans(out0[i].name@, item.name@, out0[j - 1].name@);
                } else {
                    assert(ins[i] == out0[i - 1] && ins[j] == out0[j - 1]);
                }
            }
            vstd::seq_lib::to_multiset_insert(out0, k as int, item);
            assert(ins == out0.insert(k as int, item));
            broadcast use vstd::multiset::group_multiset_axioms;
            assert(rest@.to_multiset().add(ins.to_multiset()) =~= rest0.to_multiset().add(out0.to_multiset()));
        }
    }
    proof {
        lemma_empty_to_multiset(rest@);
        broadcast use vstd::multiset::group_multiset_axioms;
        assert(rest@.to_multiset().add(out@.to_multiset()) =~= out@.to_multiset());
    }
    out
}

} // verus!
