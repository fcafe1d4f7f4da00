//! What a new session's child process is started with: its environment and
//! the program and arguments it runs.

use vstd::prelude::*;

use crate::chars::{push_str, string_of};

verus! {

/// An environment as (name, value) byte strings.
pub open spec fn env_view(env: Seq<(Vec<u8>, Vec<u8>)>) -> Seq<(Seq<u8>, Seq<u8>)> {
    env.map_values(|p: (Vec<u8>, Vec<u8>)| (p.0@, p.1@))
}

/// Index of the first entry named `key`.
pub open spec fn find_key(env: Seq<(Seq<u8>, Seq<u8>)>, key: Seq<u8>) -> Option<int>
    decreases env.len(),
{
    if env.len() == 0 {
        None
    } else if env[0].0 == key {
        Some(0)
    } else {
        match find_key(env.drop_first(), key) {
            Some(i) => Some(i + 1),
            None => None,
        }
    }
}

/// The value of the first entry named `key`.
pub open spec fn lookup(env: Seq<(Seq<u8>, Seq<u8>)>, key: Seq<u8>) -> Option<Seq<u8>> {
    match find_key(env, key) {
        Some(i) => Some(env[i].1),
        None => None,
    }
}

/// `env` with the first entry named `key` set to `value`, or with the entry
/// added at the end when there is none.
pub open spec fn upserted(env: Seq<(Seq<u8>, Seq<u8>)>, key: Seq<u8>, value: Seq<u8>) -> Seq<(Seq<u8>, Seq<u8>)> {
    match find_key(env, key) {
        Some(i) => env.update(i, (key, value)),
        None => env.push((key, value)),
    }
}

proof fn lemma_find_key(env: Seq<(Seq<u8>, Seq<u8>)>, key: Seq<u8>)
    ensures
        find_key(env, key) matches Some(i) ==> 0 <= i < env.len() && env[i].0 == key && forall|j: int|
            0 <= j < i ==> env[j].0 != key,
        find_key(env, key) is None ==> forall|j: int| 0 <= j < env.len() ==> env[j].0 != key,
    decreases env.len(),
{
    if env.len() > 0 && env[0].0 != key {
        lemma_find_key(env.drop_first(), key);
        assert forall|j: int| 1 <= j < env.len() implies env[j] == env.drop_first()[j - 1] by {}
    }
}

fn same_bytes(a: &Vec<u8>, b: &[u8]) -> (r: bool)
    ensures
        r == (a@ == b@),
{
    if a.len() != b.len() {
        return false;
    }
    let mut i: usize = 0;
    while i < a.len()
        invariant
            a@.len() == b@.len(),
            i <= a@.len(),
            forall|j: int| 0 <= j < i ==> a@[j] == b@[j],
        decreases a@.len() - i,
    {
        if a[i] != b[i] {
            return false;
        }
        i = i + 1;
    }
    assert(a@ =~= b@);
    true
}

fn bytes_of(b: &[u8]) -> (v: Vec<u8>)
    ensures
        v@ == b@,
{
    let mut v: Vec<u8> = Vec::new();
    let mut i: usize = 0;
    while i < b.len()
        invariant
            i <= b@.len(),
            v@ == b@.take(i as int),
        decreases b@.len() - i,
    {
        v.push(b[i]);
        i = i + 1;
        assert(v@ =~= b@.take(i as int));
    }
    assert(b@.take(i as int) =~= b@);
    v
}

/// Index of the first entry of `env` named `key`; see `find_key`.
fn position(env: &Vec<(Vec<u8>, Vec<u8>)>, key: &[u8]) -> (r: Option<usize>)
    ensures
        match r {
            Some(i) => find_key(env_view(env@), key@) == Some(i as int),
            None => find_key(env_view(env@), key@) is None,
        },
{
    let ghost e = env_view(env@);
    let mut i: usize = 0;
    assert(e.skip(0) =~= e);
    while i < env.len()
        invariant
            i <= env@.len(),
            e == env_view(env@),
            find_key(e, key@) == (match find_key(e.skip(i as int), key@) {
                Some(j) => Some(j + i),
                None => None,
            }),
        decreases env@.len() - i,
    {
        let ghost rest = e.skip(i as int);
        assert(rest[0] == (env@[i as int].0@, env@[i as int].1@));
        if same_bytes(&env[i].0, key) {
            return Some(i);
        }
        assert(rest.drop_first() =~= e.skip(i + 1));
        i = i + 1;
    }
    None
}

/// Sets `key` to `value` in the environment being assembled; see
/// `upserted`.
pub fn env_upsert(env: &mut Vec<(Vec<u8>, Vec<u8>)>, key: &[u8], value: &[u8])
    ensures
        env_view(final(env)@) == upserted(env_view(old(env)@), key@, value@),
{
    match position(env, key) {
        Some(i) => {
            proof {
                lemma_find_key(env_view(env@), key@);
            }
            let k = bytes_of(key);
            env.set(i, (k, bytes_of(value)));
            assert(env_view(env@) =~= env_view(old(env)@).update(i as int, (key@, value@)));
        },
        None => {
            env.push((bytes_of(key), bytes_of(value)));
            assert(env_view(env@) =~= env_view(old(env)@).push((key@, value@)));
        },
    }
}

/// The value of `key` in `env`; see `lookup`.
pub fn env_lookup(env: &Vec<(Vec<u8>, Vec<u8>)>, key: &[u8]) -> (r: Option<Vec<u8>>)
    ensures
        match r {
            Some(v) => lookup(env_view(env@), key@) == Some(v@),
            None => lookup(env_view(env@), key@) is None,
        },
{
    proof {
        lemma_find_key(env_view(env@), key@);
    }
    match position(env, key) {
        Some(i) => {
            let v = bytes_of(env[i].1.as_slice());
            Some(v)
        },
        None => None,
    }
}

} // verus!

verus! {

pub open spec fn columns_key() -> Seq<u8> {
    seq![67u8, 79u8, 76u8, 85u8, 77u8, 78u8, 83u8]
}

pub open spec fn lines_key() -> Seq<u8> {
    seq![76u8, 73u8, 78u8, 69u8, 83u8]
}

pub open spec fn term_key() -> Seq<u8> {
    seq![84u8, 69u8, 82u8, 77u8]
}

pub open spec fn colorterm_key() -> Seq<u8> {
    seq![67u8, 79u8, 76u8, 79u8, 82u8, 84u8, 69u8, 82u8, 77u8]
}

pub open spec fn truecolor() -> Seq<u8> {
    seq![116u8, 114u8, 117u8, 101u8, 99u8, 111u8, 108u8, 111u8, 114u8]
}

pub open spec fn shell_key() -> Seq<u8> {
    seq![83u8, 72u8, 69u8, 76u8, 76u8]
}

pub open spec fn path_key() -> Seq<u8> {
    seq![80u8, 65u8, 84u8, 72u8]
}

/// `env` without its `COLUMNS` and `LINES` entries.
pub open spec fn drop_size_vars(env: Seq<(Seq<u8>, Seq<u8>)>) -> Seq<(Seq<u8>, Seq<u8>)>
    decreases env.len(),
{
    if env.len() == 0 {
        env
    } else {
        let rest = drop_size_vars(env.drop_last());
        if env.last().0 == columns_key() || env.last().0 == lines_key() {
            rest
        } else {
            rest.push(env.last())
        }
    }
}

/// `env` after setting the first `n` assignments of `extra`, in order.
pub open spec fn apply_all(env: Seq<(Seq<u8>, Seq<u8>)>, extra: Seq<(Seq<u8>, Seq<u8>)>, n: nat) -> Seq<
    (Seq<u8>, Seq<u8>),
>
    decreases n,
{
    if n == 0 {
        env
    } else {
        let e = apply_all(env, extra, (n - 1) as nat);
        upserted(e, extra[n - 1].0, extra[n - 1].1)
    }
}

/// Assignments given as text, as the bytes the child receives.
pub open spec fn extra_view(extra: Seq<(String, String)>) -> Seq<(Seq<u8>, Seq<u8>)> {
    extra.map_values(|p: (String, String)| (vstd::utf8::encode_utf8(p.0@), vstd::utf8::encode_utf8(p.1@)))
}

/// The child's environment: the inherited one without `COLUMNS` and
/// `LINES` (they would go stale on the first resize), `TERM` set to `term`,
/// `COLORTERM` set to `truecolor`, and then the caller's assignments, which
/// win over all of these.
pub open spec fn child_environment(
    inherited: Seq<(Seq<u8>, Seq<u8>)>,
    term: Seq<u8>,
    extra: Seq<(Seq<u8>, Seq<u8>)>,
) -> Seq<(Seq<u8>, Seq<u8>)> {
    let e1 = upserted(drop_size_vars(inherited), term_key(), term);
    let e2 = upserted(e1, colorterm_key(), truecolor());
    apply_all(e2, extra, extra.len())
}

fn key_vec(which: u8) -> (v: Vec<u8>)
    ensures
        which == 0 ==> v@ == columns_key(),
        which == 1 ==> v@ == lines_key(),
        which == 2 ==> v@ == term_key(),
        which == 3 ==> v@ == colorterm_key(),
        which == 4 ==> v@ == truecolor(),
        which == 5 ==> v@ == shell_key(),
        which >= 6 ==> v@ == path_key(),
{
    if which == 0 {
        vec![67u8, 79u8, 76u8, 85u8, 77u8, 78u8, 83u8]
    } else if which == 1 {
        vec![76u8, 73u8, 78u8, 69u8, 83u8]
    } else if which == 2 {
        vec![84u8, 69u8, 82u8, 77u8]
    } else if which == 3 {
        vec![67u8, 79u8, 76u8, 79u8, 82u8, 84u8, 69u8, 82u8, 77u8]
    } else if which == 4 {
        vec![116u8, 114u8, 117u8, 101u8, 99u8, 111u8, 108u8, 111u8, 114u8]
    } else if which == 5 {
        vec![83u8, 72u8, 69u8, 76u8, 76u8]
    } else {
        vec![80u8, 65u8, 84u8, 72u8]
    }
}

/// Assembles the child's environment from the inherited one; see
/// `child_environment`.
pub fn child_env(inherited: &Vec<(Vec<u8>, Vec<u8>)>, term: &str, extra: &[(String, String)]) -> (env: Vec<
    (Vec<u8>, Vec<u8>),
>)
    ensures
        env_view(env@) == child_environment(
            env_view(inherited@),
            vstd::utf8::encode_utf8(term@),
            extra_view(extra@),
        ),
{
    let columns = key_vec(0);
    let lines = key_vec(1);
    let mut env: Vec<(Vec<u8>, Vec<u8>)> = Vec::new();
    let mut i: usize = 0;
    while i < inherited.len()
        invariant
            i <= inherited@.len(),
            columns@ == columns_key(),
            lines@ == lines_key(),
            env_view(env@) == drop_size_vars(env_view(inherited@).take(i as int)),
        decreases inherited@.len() - i,
    {
        let ghost prefix = env_view(inherited@).take(i + 1);
        assert(prefix.drop_last() =~= env_view(inherited@).take(i as int));
        assert(prefix.last() == (inherited@[i as int].0@, inherited@[i as int].1@));
        let entry = &inherited[i];
        if !same_bytes(&entry.0, columns.as_slice()) && !same_bytes(&entry.0, lines.as_slice()) {
            let ghost before = env_view(env@);
            env.push((bytes_of(entry.0.as_slice()), bytes_of(entry.1.as_slice())));
            assert(env_view(env@) =~= before.push(prefix.last()));
        }
        i = i + 1;
    }
    assert(env_view(inherited@).take(i as int) =~= env_view(inherited@));
    env_upsert(&mut env, key_vec(2).as_slice(), term.as_bytes());
    env_upsert(&mut env, key_vec(3).as_slice(), key_vec(4).as_slice());
    let ghost base = env_view(env@);
    let ghost xs = extra_view(extra@);
    let mut k: usize = 0;
    while k < extra.len()
        invariant
            k <= extra@.len(),
            xs == extra_view(extra@),
            env_view(env@) == apply_all(base, xs, k as nat),
        decreases extra@.len() - k,
    {
        let (key, value) = &extra[k];
        assert(xs[k as int] == (vstd::utf8::encode_utf8(key@), vstd::utf8::encode_utf8(value@)));
        env_upsert(&mut env, key.as_str().as_bytes(), value.as_str().as_bytes());
        k = k + 1;
    }
    env
}

} // verus!

verus! {

proof fn lemma_find_key_at(env: Seq<(Seq<u8>, Seq<u8>)>, key: Seq<u8>, i: int)
    requires
        0 <= i < env.len(),
        env[i].0 == key,
        forall|j: int| 0 <= j < i ==> env[j].0 != key,
    ensures
        find_key(env, key) == Some(i),
    decreases i,
{
    if i > 0 {
        let t = env.drop_first();
        assert forall|j: int| 0 <= j < i - 1 implies t[j].0 != key by {
            assert(t[j] == env[j + 1]);
        }
        lemma_find_key_at(t, key, i - 1);
    }
}

proof fn lemma_find_key_none(env: Seq<(Seq<u8>, Seq<u8>)>, key: Seq<u8>)
    requires
        forall|j: int| 0 <= j < env.len() ==> env[j].0 != key,
    ensures
        find_key(env, key) is None,
    decreases env.len(),
{
    if env.len() > 0 {
        let t = env.drop_first();
        assert forall|j: int| 0 <= j < t.len() implies t[j].0 != key by {
            assert(t[j] == env[j + 1]);
        }
        lemma_find_key_none(t, key);
    }
}

/// After setting `key`, looking it up gives the value set, and every other
/// name keeps its value.
pub proof fn law_upsert_then_lookup(env: Seq<(Seq<u8>, Seq<u8>)>, key: Seq<u8>, value: Seq<u8>, other: Seq<u8>)
    ensures
        lookup(upserted(env, key, value), key) == Some(value),
        other != key ==> lookup(upserted(env, key, value), other) == lookup(env, other),
{
    lemma_find_key(env, key);
    lemma_find_key(env, other);
    let u = upserted(env, key, value);
    match find_key(env, key) {
        Some(i) => {
            lemma_find_key_at(u, key, i);
            if other != key {
                match find_key(env, other) {
                    Some(j) => {
                        lemma_find_key_at(u, other, j);
                    },
                    None => {
                        lemma_find_key_none(u, other);
                    },
                }
            }
        },
        None => {
            lemma_find_key_at(u, key, env.len() as int);
            if other != key {
                match find_key(env, other) {
                    Some(j) => {
                        lemma_find_key_at(u, other, j);
                    },
                    None => {
                        lemma_find_key_none(u, other);
                    },
                }
            }
        },
    }
}

/// The value of the last of the first `n` assignments of `extra` to `key`.
pub open spec fn last_assigned(extra: Seq<(Seq<u8>, Seq<u8>)>, key: Seq<u8>, n: nat) -> Option<Seq<u8>>
    decreases n,
{
    if n == 0 {
        None
    } else if extra[n - 1].0 == key {
        Some(extra[n - 1].1)
    } else {
        last_assigned(extra, key, (n - 1) as nat)
    }
}

proof fn lemma_apply_all_lookup(env: Seq<(Seq<u8>, Seq<u8>)>, extra: Seq<(Seq<u8>, Seq<u8>)>, key: Seq<u8>, n: nat)
    requires
        n <= extra.len(),
    ensures
        lookup(apply_all(env, extra, n), key) == (match last_assigned(extra, key, n) {
            Some(v) => Some(v),
            None => lookup(env, key),
        }),
    decreases n,
{
    if n > 0 {
        lemma_apply_all_lookup(env, extra, key, (n - 1) as nat);
        law_upsert_then_lookup(apply_all(env, extra, (n - 1) as nat), extra[n - 1].0, extra[n - 1].1, key);
    }
}

proof fn lemma_no_size_vars(env: Seq<(Seq<u8>, Seq<u8>)>)
    ensures
        forall|j: int|
            0 <= j < drop_size_vars(env).len() ==> drop_size_vars(env)[j].0 != columns_key()
                && drop_size_vars(env)[j].0 != lines_key(),
    decreases env.len(),
{
    if env.len() > 0 {
        lemma_no_size_vars(env.drop_last());
        let rest = drop_size_vars(env.drop_last());
        if !(env.last().0 == columns_key() || env.last().0 == lines_key()) {
            assert forall|j: int| 0 <= j < rest.len() + 1 implies rest.push(env.last())[j].0 != columns_key()
                && rest.push(env.last())[j].0 != lines_key() by {
                if j < rest.len() {
                    assert(rest.push(env.last())[j] == rest[j]);
                }
            }
        }
    }
}

/// In the child's environment, `COLORTERM` is `truecolor` unless the caller
/// assigned it, `TERM` is the terminal type unless the caller assigned it,
/// and `COLUMNS` and `LINES` are only present when the caller assigned them;
/// the caller's last assignment to a name is the one that counts.
pub proof fn law_child_environment(
    inherited: Seq<(Seq<u8>, Seq<u8>)>,
    term: Seq<u8>,
    extra: Seq<(Seq<u8>, Seq<u8>)>,
)
    ensures
        lookup(child_environment(inherited, term, extra), colorterm_key()) == (match last_assigned(
            extra,
            colorterm_key(),
            extra.len(),
        ) {
            Some(v) => Some(v),
            None => Some(truecolor()),
        }),
        lookup(child_environment(inherited, term, extra), term_key()) == (match last_assigned(
            extra,
            term_key(),
            extra.len(),
        ) {
            Some(v) => Some(v),
            None => Some(term),
        }),
        lookup(child_environment(inherited, term, extra), columns_key()) == last_assigned(
            extra,
            columns_key(),
            extra.len(),
        ),
        lookup(child_environment(inherited, term, extra), lines_key()) == last_assigned(
            extra,
            lines_key(),
            extra.len(),
        ),
{
    let base = drop_size_vars(inherited);
    let e1 = upserted(base, term_key(), term);
    let e2 = upserted(e1, colorterm_key(), truecolor());
    assert(term_key() != colorterm_key()) by {
        assert(term_key().len() != colorterm_key().len());
    }
    assert(columns_key() != colorterm_key()) by {
        assert(columns_key()[2] == colorterm_key()[2]);
        assert(columns_key().len() != colorterm_key().len());
    }
    assert(columns_key() != term_key()) by {
        assert(columns_key().len() != term_key().len());
    }
    assert(lines_key() != colorterm_key()) by {
        assert(lines_key().len() != colorterm_key().len());
    }
    assert(lines_key() != term_key()) by {
        assert(lines_key().len() != term_key().len());
    }
    law_upsert_then_lookup(e1, colorterm_key(), truecolor(), term_key());
    law_upsert_then_lookup(base, term_key(), term, colorterm_key());
    law_upsert_then_lookup(e1, colorterm_key(), truecolor(), columns_key());
    law_upsert_then_lookup(base, term_key(), term, columns_key());
    law_upsert_then_lookup(e1, colorterm_key(), truecolor(), lines_key());
    law_upsert_then_lookup(base, term_key(), term, lines_key());
    lemma_no_size_vars(inherited);
    lemma_find_key_none(base, columns_key());
    lemma_find_key_none(base, lines_key());
    lemma_apply_all_lookup(e2, extra, colorterm_key(), extra.len());
    lemma_apply_all_lookup(e2, extra, term_key(), extra.len());
    lemma_apply_all_lookup(e2, extra, columns_key(), extra.len());
    lemma_apply_all_lookup(e2, extra, lines_key(), extra.len());
}

/// `std::str::from_utf8`: the text the bytes encode, when they are valid
/// UTF-8. The contract claims that this happens exactly for
/// `vstd::utf8::valid_utf8` and that the text is `decode_utf8` of the bytes.
#[verifier::external_body]
fn utf8_text(b: &[u8]) -> (r: Option<String>)
    ensures
        (r is Some) == vstd::utf8::valid_utf8(b@),
        r is Some ==> r.unwrap()@ == vstd::utf8::decode_utf8(b@),
{
    std::str::from_utf8(b).ok().map(|s| s.to_owned())
}

/// The shell a shell command runs under: `$SHELL` when it is set to valid
/// UTF-8, `/bin/sh` otherwise.
pub open spec fn shell_program(shell_var: Option<Seq<u8>>) -> Seq<char> {
    match shell_var {
        Some(b) => if vstd::utf8::valid_utf8(b) {
            vstd::utf8::decode_utf8(b)
        } else {
            "/bin/sh"@
        },
        None => "/bin/sh"@,
    }
}

/// The command and its arguments as one shell command line.
pub open spec fn command_line(command: Seq<char>, args: Seq<Seq<char>>) -> Seq<char> {
    if args.len() == 0 {
        command
    } else {
        command + " "@ + crate::chars::join_with(args, " "@)
    }
}

/// The program the child runs and its arguments: with `shell`, the shell
/// running the command line with `-c`; otherwise the command itself.
pub open spec fn exec_plan(command: Seq<char>, args: Seq<Seq<char>>, shell: bool, shell_var: Option<Seq<u8>>) -> (
    Seq<char>,
    Seq<Seq<char>>,
) {
    if shell {
        (shell_program(shell_var), seq!["-c"@, command_line(command, args)])
    } else {
        (command, args)
    }
}

/// The program to execute and its arguments; see `exec_plan`.
/// `shell_var` is the value of `SHELL` in the child's environment.
pub fn exec_command(command: &str, args: &[String], shell: bool, shell_var: Option<&[u8]>) -> (r: (
    String,
    Vec<String>,
))
    ensures
        (r.0@, r.1@.map_values(|s: String| s@)) == exec_plan(
            command@,
            args@.map_values(|s: String| s@),
            shell,
            match shell_var {
                Some(b) => Some(b@),
                None => None,
            },
        ),
{
    let ghost argv = args@.map_values(|s: String| s@);
    if !shell {
        let mut out: Vec<String> = Vec::new();
        let mut i: usize = 0;
        while i < args.len()
            invariant
                i <= args@.len(),
                argv == args@.map_values(|s: String| s@),
                out@.map_values(|s: String| s@) =~= argv.take(i as int),
            decreases args@.len() - i,
        {
            out.push(args[i].clone());
            assert(argv.take(i + 1) =~= argv.take(i as int).push(argv[i as int]));
            i = i + 1;
        }
        assert(argv.take(i as int) =~= argv);
        return (command.to_owned(), out);
    }
    let program = match shell_var {
        Some(b) => match utf8_text(b) {
            Some(s) => s,
            None => "/bin/sh".to_owned(),
        },
        None => "/bin/sh".to_owned(),
    };
    let mut line: Vec<char> = Vec::new();
    push_str(&mut line, command);
    if args.len() > 0 {
        push_str(&mut line, " ");
        let mut parts: Vec<Vec<char>> = Vec::new();
        let mut i: usize = 0;
        while i < args.len()
            invariant
                i <= args@.len(),
                argv == args@.map_values(|s: String| s@),
                crate::chars::views(parts@) =~= argv.take(i as int),
            decreases args@.len() - i,
        {
            parts.push(crate::chars::chars_of(args[i].as_str()));
            assert(argv.take(i + 1) =~= argv.take(i as int).push(argv[i as int]));
            i = i + 1;
        }
        assert(argv.take(i as int) =~= argv);
        let mut joined = crate::chars::join_range(&parts, 0, parts.len(), " ");
        assert(crate::chars::views(parts@).subrange(0, parts@.len() as int) =~= argv);
        line.append(&mut joined);
    }
    let mut argv_out: Vec<String> = Vec::new();
    argv_out.push("-c".to_owned());
    argv_out.push(string_of(&line));
    assert(argv_out@.map_values(|s: String| s@) =~= seq!["-c"@, command_line(command@, argv)]);
    (program, argv_out)
}

/// What pasting `text` writes to the terminal: the text between the
/// bracketed-paste start and end markers, so the application can tell it
/// was pasted rather than typed.
pub open spec fn paste_bytes(text: Seq<char>) -> Seq<u8> {
    seq![27u8, 91u8, 50u8, 48u8, 48u8, 126u8] + vstd::utf8::encode_utf8(text) + seq![
        27u8,
        91u8,
        50u8,
        48u8,
        49u8,
        126u8,
    ]
}

/// The bytes that paste `text`; see `paste_bytes`.
pub fn bracketed_paste(text: &str) -> (r: Vec<u8>)
    ensures
        r@ == paste_bytes(text@),
{
    let mut out: Vec<u8> = vec![27u8, 91u8, 50u8, 48u8, 48u8, 126u8];
    let mut body = bytes_of(text.as_bytes());
    out.append(&mut body);
    let mut tail: Vec<u8> = vec![27u8, 91u8, 50u8, 48u8, 49u8, 126u8];
    out.append(&mut tail);
    assert(out@ =~= paste_bytes(text@));
    out
}

} // verus!
