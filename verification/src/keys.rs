//! Maps human-readable key names ("Enter", "Ctrl+C", "F5", "Shift+Up") to the
//! byte sequences a terminal application expects on its input.

use vstd::prelude::*;

use crate::chars::{chars_of, lemma_split_nonempty, split_chars, split_on, views, to_lowercase, unicode_lowercase, dec_bytes, digit_byte, push_dec_bytes, push_scalar, same_chars};

verus! {

/// A key name that names no key.
#[derive(Debug, Clone, PartialEq, Eq)]
pub enum KeyError {
    Unknown { name: String },
}

/// The byte sequence of a single (lowercase) key name without modifiers.
pub open spec fn named_key_bytes(n: Seq<char>) -> Option<Seq<u8>> {
    if n == seq!['e', 'n', 't', 'e', 'r'] || n == seq!['r', 'e', 't', 'u', 'r', 'n'] {
        Some(seq![13u8])
    } else if n == seq!['t', 'a', 'b'] {
        Some(seq![9u8])
    } else if n == seq!['e', 's', 'c', 'a', 'p', 'e'] || n == seq!['e', 's', 'c'] {
        Some(seq![27u8])
    } else if n == seq!['s', 'p', 'a', 'c', 'e'] {
        Some(seq![32u8])
    } else if n == seq!['b', 'a', 'c', 'k', 's', 'p', 'a', 'c', 'e'] {
        Some(seq![127u8])
    } else if n == seq!['d', 'e', 'l', 'e', 't', 'e'] || n == seq!['d', 'e', 'l'] {
        Some(seq![27u8, 91u8, 51u8, 126u8])
    } else if n == seq!['i', 'n', 's', 'e', 'r', 't'] || n == seq!['i', 'n', 's'] {
        Some(seq![27u8, 91u8, 50u8, 126u8])
    } else if n == seq!['u', 'p'] {
        Some(seq![27u8, 79u8, 65u8])
    } else if n == seq!['d', 'o', 'w', 'n'] {
        Some(seq![27u8, 79u8, 66u8])
    } else if n == seq!['r', 'i', 'g', 'h', 't'] {
        Some(seq![27u8, 79u8, 67u8])
    } else if n == seq!['l', 'e', 'f', 't'] {
        Some(seq![27u8, 79u8, 68u8])
    } else if n == seq!['h', 'o', 'm', 'e'] {
        Some(seq![27u8, 79u8, 72u8])
    } else if n == seq!['e', 'n', 'd'] {
        Some(seq![27u8, 79u8, 70u8])
    } else if n == seq!['p', 'a', 'g', 'e', 'u', 'p'] || n == seq!['p', 'g', 'u', 'p'] {
        Some(seq![27u8, 91u8, 53u8, 126u8])
    } else if n == seq!['p', 'a', 'g', 'e', 'd', 'o', 'w', 'n'] || n == seq!['p', 'g', 'd', 'n'] || n == seq!['p', 'g', 'd', 'o', 'w', 'n'] {
        Some(seq![27u8, 91u8, 54u8, 126u8])
    } else if n == seq!['f', '1'] {
        Some(seq![27u8, 79u8, 80u8])
    } else if n == seq!['f', '2'] {
        Some(seq![27u8, 79u8, 81u8])
    } else if n == seq!['f', '3'] {
        Some(seq![27u8, 79u8, 82u8])
    } else if n == seq!['f', '4'] {
        Some(seq![27u8, 79u8, 83u8])
    } else if n == seq!['f', '5'] {
        Some(seq![27u8, 91u8, 49u8, 53u8, 126u8])
    } else if n == seq!['f', '6'] {
        Some(seq![27u8, 91u8, 49u8, 55u8, 126u8])
    } else if n == seq!['f', '7'] {
        Some(seq![27u8, 91u8, 49u8, 56u8, 126u8])
    } else if n == seq!['f', '8'] {
        Some(seq![27u8, 91u8, 49u8, 57u8, 126u8])
    } else if n == seq!['f', '9'] {
        Some(seq![27u8, 91u8, 50u8, 48u8, 126u8])
    } else if n == seq!['f', '1', '0'] {
        Some(seq![27u8, 91u8, 50u8, 49u8, 126u8])
    } else if n == seq!['f', '1', '1'] {
        Some(seq![27u8, 91u8, 50u8, 51u8, 126u8])
    } else if n == seq!['f', '1', '2'] {
        Some(seq![27u8, 91u8, 50u8, 52u8, 126u8])
    } else {
        None
    }
}

pub open spec fn arrow_suffix(n: Seq<char>) -> Option<u8> {
    if n == seq!['u', 'p'] {
        Some(65u8)
    } else if n == seq!['d', 'o', 'w', 'n'] {
        Some(66u8)
    } else if n == seq!['r', 'i', 'g', 'h', 't'] {
        Some(67u8)
    } else if n == seq!['l', 'e', 'f', 't'] {
        Some(68u8)
    } else if n == seq!['h', 'o', 'm', 'e'] {
        Some(72u8)
    } else if n == seq!['e', 'n', 'd'] {
        Some(70u8)
    } else {
        None
    }
}

pub open spec fn tilde_code(n: Seq<char>) -> Option<u8> {
    if n == seq!['i', 'n', 's', 'e', 'r', 't'] || n == seq!['i', 'n', 's'] {
        Some(2u8)
    } else if n == seq!['d', 'e', 'l', 'e', 't', 'e'] || n == seq!['d', 'e', 'l'] {
        Some(3u8)
    } else if n == seq!['p', 'a', 'g', 'e', 'u', 'p'] || n == seq!['p', 'g', 'u', 'p'] {
        Some(5u8)
    } else if n == seq!['p', 'a', 'g', 'e', 'd', 'o', 'w', 'n'] || n == seq!['p', 'g', 'd', 'n'] || n == seq!['p', 'g', 'd', 'o', 'w', 'n'] {
        Some(6u8)
    } else if n == seq!['f', '5'] {
        Some(15u8)
    } else if n == seq!['f', '6'] {
        Some(17u8)
    } else if n == seq!['f', '7'] {
        Some(18u8)
    } else if n == seq!['f', '8'] {
        Some(19u8)
    } else if n == seq!['f', '9'] {
        Some(20u8)
    } else if n == seq!['f', '1', '0'] {
        Some(21u8)
    } else if n == seq!['f', '1', '1'] {
        Some(23u8)
    } else if n == seq!['f', '1', '2'] {
        Some(24u8)
    } else {
        None
    }
}

pub open spec fn f1_to_f4_suffix(n: Seq<char>) -> Option<u8> {
    if n == seq!['f', '1'] {
        Some(80u8)
    } else if n == seq!['f', '2'] {
        Some(81u8)
    } else if n == seq!['f', '3'] {
        Some(82u8)
    } else if n == seq!['f', '4'] {
        Some(83u8)
    } else {
        None
    }
}

/// Which modifier a (lowercase) word names: 0 Ctrl, 1 Alt/Meta, 2 Shift.
pub open spec fn modifier_kind(m: Seq<char>) -> Option<u8> {
    if m == seq!['c', 't', 'r', 'l'] {
        Some(0u8)
    } else if m == seq!['a', 'l', 't'] || m == seq!['m', 'e', 't', 'a'] {
        Some(1u8)
    } else if m == seq!['s', 'h', 'i', 'f', 't'] {
        Some(2u8)
    } else {
        None
    }
}

pub open spec fn all_modifiers(ms: Seq<Seq<char>>) -> bool {
    forall|i: int| 0 <= i < ms.len() ==> (#[trigger] modifier_kind(ms[i])) is Some
}

pub open spec fn has_modifier(ms: Seq<Seq<char>>, k: u8) -> bool {
    exists|i: int| 0 <= i < ms.len() && #[trigger] modifier_kind(ms[i]) == Some(k)
}

/// A single character whose UTF-8 encoding is one byte.
pub open spec fn is_one_byte(key: Seq<char>) -> bool {
    key.len() == 1 && (key[0] as u32) < 128
}

/// xterm's modifier parameter: 1 + Shift + 2·Alt + 4·Ctrl.
pub open spec fn modifier_code(ctrl: bool, alt: bool, shift: bool) -> nat {
    1 + (if shift { 1nat } else { 0nat }) + (if alt { 2nat } else { 0nat }) + (if ctrl { 4nat } else { 0nat })
}

/// `CSI 1 ; code final`
pub open spec fn csi_1_mod(code: nat, fin: u8) -> Seq<u8> {
    seq![27u8, 91u8, 49u8, 59u8, digit_byte(code), fin]
}

/// `CSI n ; code ~`
pub open spec fn csi_tilde_mod(n: nat, code: nat) -> Seq<u8> {
    seq![27u8, 91u8] + dec_bytes(n) + seq![59u8, digit_byte(code), 126u8]
}

/// The bytes of a `modifier+...+key` combination (lowercase), if it is one.
pub open spec fn modifier_combo(n: Seq<char>) -> Option<Seq<u8>> {
    let parts = split_on(n, '+');
    let key = parts.last();
    let ms = parts.drop_last();
    let ctrl = has_modifier(ms, 0);
    let alt = has_modifier(ms, 1);
    let shift = has_modifier(ms, 2);
    if parts.len() < 2 || !all_modifiers(ms) {
        None
    } else if ctrl && !alt && !shift && is_one_byte(key) && 'a' <= key[0] && key[0] <= 'z' {
        Some(seq![(key[0] as u32 - 96) as u8])
    } else if alt && !ctrl && !shift && is_one_byte(key) {
        Some(seq![27u8, (key[0] as u32) as u8])
    } else if alt && !ctrl && !shift && named_key_bytes(key) is Some {
        Some(seq![27u8] + named_key_bytes(key)->0)
    } else if shift && !ctrl && !alt && key == seq!['t', 'a', 'b'] {
        Some(seq![27u8, 91u8, 90u8])
    } else if arrow_suffix(key) is Some {
        Some(csi_1_mod(modifier_code(ctrl, alt, shift), arrow_suffix(key)->0))
    } else if tilde_code(key) is Some {
        Some(csi_tilde_mod(tilde_code(key)->0 as nat, modifier_code(ctrl, alt, shift)))
    } else if f1_to_f4_suffix(key) is Some {
        Some(csi_1_mod(modifier_code(ctrl, alt, shift), f1_to_f4_suffix(key)->0))
    } else {
        None
    }
}

/// The bytes that key name `name` stands for: a modifier combination, else a
/// named key (both case-insensitive), else the UTF-8 of a single character.
pub open spec fn key_bytes(name: Seq<char>) -> Option<Seq<u8>> {
    let lower = unicode_lowercase(name);
    if modifier_combo(lower) is Some {
        modifier_combo(lower)
    } else if named_key_bytes(lower) is Some {
        named_key_bytes(lower)
    } else if name.len() == 1 {
        Some(vstd::utf8::encode_utf8(name))
    } else {
        None
    }
}

/// The concatenated bytes of a sequence of key names, if every name is a key.
pub open spec fn keys_bytes(names: Seq<Seq<char>>) -> Option<Seq<u8>>
    decreases names.len(),
{
    if names.len() == 0 {
        Some(Seq::<u8>::empty())
    } else {
        match (keys_bytes(names.drop_last()), key_bytes(names.last())) {
            (Some(a), Some(b)) => Some(a + b),
            _ => None,
        }
    }
}

fn resolve_named_key(n: &Vec<char>) -> (r: Option<Vec<u8>>)
    ensures
        r matches Some(x) ==> named_key_bytes(n@) == Some(x@),
        r is None ==> named_key_bytes(n@) is None,
{
    if same_chars(n, &['e', 'n', 't', 'e', 'r']) || same_chars(n, &['r', 'e', 't', 'u', 'r', 'n']) {
        assert(['e', 'n', 't', 'e', 'r']@ =~= seq!['e', 'n', 't', 'e', 'r']);
        assert(['r', 'e', 't', 'u', 'r', 'n']@ =~= seq!['r', 'e', 't', 'u', 'r', 'n']);
        return Some(vec![13u8]);
    }
    if same_chars(n, &['t', 'a', 'b']) {
        assert(['t', 'a', 'b']@ =~= seq!['t', 'a', 'b']);
        return Some(vec![9u8]);
    }
    if same_chars(n, &['e', 's', 'c', 'a', 'p', 'e']) || same_chars(n, &['e', 's', 'c']) {
        assert(['e', 's', 'c', 'a', 'p', 'e']@ =~= seq!['e', 's', 'c', 'a', 'p', 'e']);
        assert(['e', 's', 'c']@ =~= seq!['e', 's', 'c']);
        return Some(vec![27u8]);
    }
    if same_chars(n, &['s', 'p', 'a', 'c', 'e']) {
        assert(['s', 'p', 'a', 'c', 'e']@ =~= seq!['s', 'p', 'a', 'c', 'e']);
        return Some(vec![32u8]);
    }
    if same_chars(n, &['b', 'a', 'c', 'k', 's', 'p', 'a', 'c', 'e']) {
        assert(['b', 'a', 'c', 'k', 's', 'p', 'a', 'c', 'e']@ =~= seq!['b', 'a', 'c', 'k', 's', 'p', 'a', 'c', 'e']);
        return Some(vec![127u8]);
    }
    if same_chars(n, &['d', 'e', 'l', 'e', 't', 'e']) || same_chars(n, &['d', 'e', 'l']) {
        assert(['d', 'e', 'l', 'e', 't', 'e']@ =~= seq!['d', 'e', 'l', 'e', 't', 'e']);
        assert(['d', 'e', 'l']@ =~= seq!['d', 'e', 'l']);
        return Some(vec![27u8, 91u8, 51u8, 126u8]);
    }
    if same_chars(n, &['i', 'n', 's', 'e', 'r', 't']) || same_chars(n, &['i', 'n', 's']) {
        assert(['i', 'n', 's', 'e', 'r', 't']@ =~= seq!['i', 'n', 's', 'e', 'r', 't']);
        assert(['i', 'n', 's']@ =~= seq!['i', 'n', 's']);
        return Some(vec![27u8, 91u8, 50u8, 126u8]);
    }
    if same_chars(n, &['u', 'p']) {
        assert(['u', 'p']@ =~= seq!['u', 'p']);
        return Some(vec![27u8, 79u8, 65u8]);
    }
    if same_chars(n, &['d', 'o', 'w', 'n']) {
        assert(['d', 'o', 'w', 'n']@ =~= seq!['d', 'o', 'w', 'n']);
        return Some(vec![27u8, 79u8, 66u8]);
    }
    if same_chars(n, &['r', 'i', 'g', 'h', 't']) {
        assert(['r', 'i', 'g', 'h', 't']@ =~= seq!['r', 'i', 'g', 'h', 't']);
        return Some(vec![27u8, 79u8, 67u8]);
    }
    if same_chars(n, &['l', 'e', 'f', 't']) {
        assert(['l', 'e', 'f', 't']@ =~= seq!['l', 'e', 'f', 't']);
        return Some(vec![27u8, 79u8, 68u8]);
    }
    if same_chars(n, &['h', 'o', 'm', 'e']) {
        assert(['h', 'o', 'm', 'e']@ =~= seq!['h', 'o', 'm', 'e']);
        return Some(vec![27u8, 79u8, 72u8]);
    }
    if same_chars(n, &['e', 'n', 'd']) {
        assert(['e', 'n', 'd']@ =~= seq!['e', 'n', 'd']);
        return Some(vec![27u8, 79u8, 70u8]);
    }
    if same_chars(n, &['p', 'a', 'g', 'e', 'u', 'p']) || same_chars(n, &['p', 'g', 'u', 'p']) {
        assert(['p', 'a', 'g', 'e', 'u', 'p']@ =~= seq!['p', 'a', 'g', 'e', 'u', 'p']);
        assert(['p', 'g', 'u', 'p']@ =~= seq!['p', 'g', 'u', 'p']);
        return Some(vec![27u8, 91u8, 53u8, 126u8]);
    }
    if same_chars(n, &['p', 'a', 'g', 'e', 'd', 'o', 'w', 'n']) || same_chars(n, &['p', 'g', 'd', 'n']) || same_chars(n, &['p', 'g', 'd', 'o', 'w', 'n']) {
        assert(['p', 'a', 'g', 'e', 'd', 'o', 'w', 'n']@ =~= seq!['p', 'a', 'g', 'e', 'd', 'o', 'w', 'n']);
        assert(['p', 'g', 'd', 'n']@ =~= seq!['p', 'g', 'd', 'n']);
        assert(['p', 'g', 'd', 'o', 'w', 'n']@ =~= seq!['p', 'g', 'd', 'o', 'w', 'n']);
        return Some(vec![27u8, 91u8, 54u8, 126u8]);
    }
    if same_chars(n, &['f', '1']) {
        assert(['f', '1']@ =~= seq!['f', '1']);
        return Some(vec![27u8, 79u8, 80u8]);
    }
    if same_chars(n, &['f', '2']) {
        assert(['f', '2']@ =~= seq!['f', '2']);
        return Some(vec![27u8, 79u8, 81u8]);
    }
    if same_chars(n, &['f', '3']) {
        assert(['f', '3']@ =~= seq!['f', '3']);
        return Some(vec![27u8, 79u8, 82u8]);
    }
    if same_chars(n, &['f', '4']) {
        assert(['f', '4']@ =~= seq!['f', '4']);
        return Some(vec![27u8, 79u8, 83u8]);
    }
    if same_chars(n, &['f', '5']) {
        assert(['f', '5']@ =~= seq!['f', '5']);
        return Some(vec![27u8, 91u8, 49u8, 53u8, 126u8]);
    }
    if same_chars(n, &['f', '6']) {
        assert(['f', '6']@ =~= seq!['f', '6']);
        return Some(vec![27u8, 91u8, 49u8, 55u8, 126u8]);
    }
    if same_chars(n, &['f', '7']) {
        assert(['f', '7']@ =~= seq!['f', '7']);
        return Some(vec![27u8, 91u8, 49u8, 56u8, 126u8]);
    }
    if same_chars(n, &['f', '8']) {
        assert(['f', '8']@ =~= seq!['f', '8']);
        return Some(vec![27u8, 91u8, 49u8, 57u8, 126u8]);
    }
    if same_chars(n, &['f', '9']) {
        assert(['f', '9']@ =~= seq!['f', '9']);
        return Some(vec![27u8, 91u8, 50u8, 48u8, 126u8]);
    }
    if same_chars(n, &['f', '1', '0']) {
        assert(['f', '1', '0']@ =~= seq!['f', '1', '0']);
        return Some(vec![27u8, 91u8, 50u8, 49u8, 126u8]);
    }
    if same_chars(n, &['f', '1', '1']) {
        assert(['f', '1', '1']@ =~= seq!['f', '1', '1']);
        return Some(vec![27u8, 91u8, 50u8, 51u8, 126u8]);
    }
    if same_chars(n, &['f', '1', '2']) {
        assert(['f', '1', '2']@ =~= seq!['f', '1', '2']);
        return Some(vec![27u8, 91u8, 50u8, 52u8, 126u8]);
    }
    None
}

fn arrow_suffix_of(n: &Vec<char>) -> (r: Option<u8>)
    ensures
        r matches Some(x) ==> arrow_suffix(n@) == Some(x),
        r is None ==> arrow_suffix(n@) is None,
{
    if same_chars(n, &['u', 'p']) {
        assert(['u', 'p']@ =~= seq!['u', 'p']);
        return Some(65u8);
    }
    if same_chars(n, &['d', 'o', 'w', 'n']) {
        assert(['d', 'o', 'w', 'n']@ =~= seq!['d', 'o', 'w', 'n']);
        return Some(66u8);
    }
    if same_chars(n, &['r', 'i', 'g', 'h', 't']) {
        assert(['r', 'i', 'g', 'h', 't']@ =~= seq!['r', 'i', 'g', 'h', 't']);
        return Some(67u8);
    }
    if same_chars(n, &['l', 'e', 'f', 't']) {
        assert(['l', 'e', 'f', 't']@ =~= seq!['l', 'e', 'f', 't']);
        return Some(68u8);
    }
    if same_chars(n, &['h', 'o', 'm', 'e']) {
        assert(['h', 'o', 'm', 'e']@ =~= seq!['h', 'o', 'm', 'e']);
        return Some(72u8);
    }
    if same_chars(n, &['e', 'n', 'd']) {
        assert(['e', 'n', 'd']@ =~= seq!['e', 'n', 'd']);
        return Some(70u8);
    }
    None
}

fn tilde_code_of(n: &Vec<char>) -> (r: Option<u8>)
    ensures
        r matches Some(x) ==> tilde_code(n@) == Some(x),
        r is None ==> tilde_code(n@) is None,
{
    if same_chars(n, &['i', 'n', 's', 'e', 'r', 't']) || same_chars(n, &['i', 'n', 's']) {
        assert(['i', 'n', 's', 'e', 'r', 't']@ =~= seq!['i', 'n', 's', 'e', 'r', 't']);
        assert(['i', 'n', 's']@ =~= seq!['i', 'n', 's']);
        return Some(2u8);
    }
    if same_chars(n, &['d', 'e', 'l', 'e', 't', 'e']) || same_chars(n, &['d', 'e', 'l']) {
        assert(['d', 'e', 'l', 'e', 't', 'e']@ =~= seq!['d', 'e', 'l', 'e', 't', 'e']);
        assert(['d', 'e', 'l']@ =~= seq!['d', 'e', 'l']);
        return Some(3u8);
    }
    if same_chars(n, &['p', 'a', 'g', 'e', 'u', 'p']) || same_chars(n, &['p', 'g', 'u', 'p']) {
        assert(['p', 'a', 'g', 'e', 'u', 'p']@ =~= seq!['p', 'a', 'g', 'e', 'u', 'p']);
        assert(['p', 'g', 'u', 'p']@ =~= seq!['p', 'g', 'u', 'p']);
        return Some(5u8);
    }
    if same_chars(n, &['p', 'a', 'g', 'e', 'd', 'o', 'w', 'n']) || same_chars(n, &['p', 'g', 'd', 'n']) || same_chars(n, &['p', 'g', 'd', 'o', 'w', 'n']) {
        assert(['p', 'a', 'g', 'e', 'd', 'o', 'w', 'n']@ =~= seq!['p', 'a', 'g', 'e', 'd', 'o', 'w', 'n']);
        assert(['p', 'g', 'd', 'n']@ =~= seq!['p', 'g', 'd', 'n']);
        assert(['p', 'g', 'd', 'o', 'w', 'n']@ =~= seq!['p', 'g', 'd', 'o', 'w', 'n']);
        return Some(6u8);
    }
    if same_chars(n, &['f', '5']) {
        assert(['f', '5']@ =~= seq!['f', '5']);
        return Some(15u8);
    }
    if same_chars(n, &['f', '6']) {
        assert(['f', '6']@ =~= seq!['f', '6']);
        return Some(17u8);
    }
    if same_chars(n, &['f', '7']) {
        assert(['f', '7']@ =~= seq!['f', '7']);
        return Some(18u8);
    }
    if same_chars(n, &['f', '8']) {
        assert(['f', '8']@ =~= seq!['f', '8']);
        return Some(19u8);
    }
    if same_chars(n, &['f', '9']) {
        assert(['f', '9']@ =~= seq!['f', '9']);
        return Some(20u8);
    }
    if same_chars(n, &['f', '1', '0']) {
        assert(['f', '1', '0']@ =~= seq!['f', '1', '0']);
        return Some(21u8);
    }
    if same_chars(n, &['f', '1', '1']) {
        assert(['f', '1', '1']@ =~= seq!['f', '1', '1']);
        return Some(23u8);
    }
    if same_chars(n, &['f', '1', '2']) {
        assert(['f', '1', '2']@ =~= seq!['f', '1', '2']);
        return Some(24u8);
    }
    None
}

fn f1_to_f4_suffix_of(n: &Vec<char>) -> (r: Option<u8>)
    ensures
        r matches Some(x) ==> f1_to_f4_suffix(n@) == Some(x),
        r is None ==> f1_to_f4_suffix(n@) is None,
{
    if same_chars(n, &['f', '1']) {
        assert(['f', '1']@ =~= seq!['f', '1']);
        return Some(80u8);
    }
    if same_chars(n, &['f', '2']) {
        assert(['f', '2']@ =~= seq!['f', '2']);
        return Some(81u8);
    }
    if same_chars(n, &['f', '3']) {
        assert(['f', '3']@ =~= seq!['f', '3']);
        return Some(82u8);
    }
    if same_chars(n, &['f', '4']) {
        assert(['f', '4']@ =~= seq!['f', '4']);
        return Some(83u8);
    }
    None
}


/// Which modifier `m` names (see `modifier_kind`).
fn modifier_kind_of(m: &Vec<char>) -> (r: Option<u8>)
    ensures
        r == modifier_kind(m@),
{
    if same_chars(m, &['c', 't', 'r', 'l']) {
        assert(['c', 't', 'r', 'l']@ =~= seq!['c', 't', 'r', 'l']);
        Some(0)
    } else if same_chars(m, &['a', 'l', 't']) || same_chars(m, &['m', 'e', 't', 'a']) {
        assert(['a', 'l', 't']@ =~= seq!['a', 'l', 't']);
        assert(['m', 'e', 't', 'a']@ =~= seq!['m', 'e', 't', 'a']);
        Some(1)
    } else if same_chars(m, &['s', 'h', 'i', 'f', 't']) {
        assert(['s', 'h', 'i', 'f', 't']@ =~= seq!['s', 'h', 'i', 'f', 't']);
        Some(2)
    } else {
        assert(['c', 't', 'r', 'l']@ =~= seq!['c', 't', 'r', 'l']);
        assert(['a', 'l', 't']@ =~= seq!['a', 'l', 't']);
        assert(['m', 'e', 't', 'a']@ =~= seq!['m', 'e', 't', 'a']);
        assert(['s', 'h', 'i', 'f', 't']@ =~= seq!['s', 'h', 'i', 'f', 't']);
        None
    }
}

/// The bytes of a lowercase `modifier+...+key` name (see `modifier_combo`).
fn resolve_modifier_combo(name: &Vec<char>) -> (r: Option<Vec<u8>>)
    ensures
        r matches Some(b) ==> modifier_combo(name@) == Some(b@),
        r is None ==> modifier_combo(name@) is None,
{
    let parts = split_chars(name, '+');
    let ghost pv = views(parts@);
    proof {
        lemma_split_nonempty(name@, '+');
    }
    if parts.len() < 2 {
        return None;
    }
    let n = parts.len();
    let ghost ms = pv.drop_last();
    let mut ctrl = false;
    let mut alt = false;
    let mut shift = false;
    let mut i: usize = 0;
    while i < n - 1
        invariant
            n == parts@.len(),
            n >= 2,
            pv == views(parts@),
            pv == split_on(name@, '+'),
            ms == pv.drop_last(),
            i <= n - 1,
            all_modifiers(ms.take(i as int)),
            ctrl == has_modifier(ms.take(i as int), 0),
            alt == has_modifier(ms.take(i as int), 1),
            shift == has_modifier(ms.take(i as int), 2),
        decreases n - 1 - i,
    {
        let k = modifier_kind_of(&parts[i]);
        assert(parts[i as int]@ == ms[i as int]);
        let ghost before = ms.take(i as int);
        let ghost after = ms.take(i + 1);
        assert(after =~= before.push(ms[i as int]));
        assert(after[i as int] == ms[i as int]);
        assert(modifier_kind(after[i as int]) == k);
        match k {
            Some(0) => {
                ctrl = true;
            },
            Some(1) => {
                alt = true;
            },
            Some(2) => {
                shift = true;
            },
            _ => {
                assert(modifier_kind(ms[i as int]) is None);
                assert(!all_modifiers(ms));
                return None;
            },
        }
        assert forall|j: int| 0 <= j < after.len() implies (#[trigger] modifier_kind(after[j])) is Some by {
            if j < i {
                assert(after[j] == before[j]);
            }
        }
        assert(ctrl == has_modifier(after, 0)) by {
            if has_modifier(after, 0) {
                let j = choose|j: int| 0 <= j < after.len() && #[trigger] modifier_kind(after[j]) == Some(0u8);
                if j < i {
                    assert(before[j] == after[j]);
                }
            }
            if has_modifier(before, 0) {
                let j = choose|j: int| 0 <= j < before.len() && #[trigger] modifier_kind(before[j]) == Some(0u8);
                assert(before[j] == after[j]);
            }
        }
        assert(alt == has_modifier(after, 1)) by {
            if has_modifier(after, 1) {
                let j = choose|j: int| 0 <= j < after.len() && #[trigger] modifier_kind(after[j]) == Some(1u8);
                if j < i {
                    assert(before[j] == after[j]);
                }
            }
            if has_modifier(before, 1) {
                let j = choose|j: int| 0 <= j < before.len() && #[trigger] modifier_kind(before[j]) == Some(1u8);
                assert(before[j] == after[j]);
            }
        }
        assert(shift == has_modifier(after, 2)) by {
            if has_modifier(after, 2) {
                let j = choose|j: int| 0 <= j < after.len() && #[trigger] modifier_kind(after[j]) == Some(2u8);
                if j < i {
                    assert(before[j] == after[j]);
                }
            }
            if has_modifier(before, 2) {
                let j = choose|j: int| 0 <= j < before.len() && #[trigger] modifier_kind(before[j]) == Some(2u8);
                assert(before[j] == after[j]);
            }
        }
        i = i + 1;
    }
    assert(ms.take((n - 1) as int) =~= ms);
    let key = &parts[n - 1];
    assert(key@ == pv.last());
    let one_byte = key.len() == 1 && (key[0] as u32) < 128;
    assert(is_one_byte(key@) == one_byte);
    if ctrl && !alt && !shift && one_byte && key[0] >= 'a' && key[0] <= 'z' {
        return Some(vec![((key[0] as u32) - 96) as u8]);
    }
    if alt && !ctrl && !shift {
        if one_byte {
            return Some(vec![27u8, (key[0] as u32) as u8]);
        }
        if let Some(base) = resolve_named_key(key) {
            let mut out = vec![27u8];
            let mut base = base;
            out.append(&mut base);
            return Some(out);
        }
    }
    if shift && !ctrl && !alt && same_chars(key, &['t', 'a', 'b']) {
        assert(['t', 'a', 'b']@ =~= seq!['t', 'a', 'b']);
        return Some(vec![27u8, 91u8, 90u8]);
    }
    assert(['t', 'a', 'b']@ =~= seq!['t', 'a', 'b']);
    let code: u8 = 1 + (if shift { 1u8 } else { 0u8 }) + (if alt { 2u8 } else { 0u8 }) + (if ctrl { 4u8 } else { 0u8 });
    if let Some(sfx) = arrow_suffix_of(key) {
        return Some(vec![27u8, 91u8, 49u8, 59u8, 48u8 + code, sfx]);
    }
    if let Some(t) = tilde_code_of(key) {
        let mut out = vec![27u8, 91u8];
        push_dec_bytes(&mut out, t as u64);
        out.push(59u8);
        out.push(48u8 + code);
        out.push(126u8);
        return Some(out);
    }
    if let Some(sfx) = f1_to_f4_suffix_of(key) {
        return Some(vec![27u8, 91u8, 49u8, 59u8, 48u8 + code, sfx]);
    }
    None
}

/// Resolves a single key name ("Enter", "Ctrl+C", "F5", "a") to its bytes.
pub fn resolve_key(name: &str) -> (r: Result<Vec<u8>, KeyError>)
    ensures
        r matches Ok(b) ==> key_bytes(name@) == Some(b@),
        r matches Err(KeyError::Unknown { name: n }) ==> key_bytes(name@) is None && n@ == name@,
{
    let lower_s = to_lowercase(name);
    let lower = chars_of(lower_s.as_str());
    if let Some(bytes) = resolve_modifier_combo(&lower) {
        return Ok(bytes);
    }
    if let Some(bytes) = resolve_named_key(&lower) {
        return Ok(bytes);
    }
    let chars = chars_of(name);
    if chars.len() == 1 {
        let c = chars[0];
        let mut out: Vec<u8> = Vec::new();
        proof {
            vstd::utf8::char_is_scalar(c);
            assert(vstd::utf8::encode_utf8(chars@.drop_first()) =~= Seq::<u8>::empty());
        }
        push_scalar(&mut out, c as u32);
        assert(out@ =~= vstd::utf8::encode_utf8(name@));
        return Ok(out);
    }
    Err(KeyError::Unknown { name: name.to_owned() })
}

/// Resolves a sequence of key names; the bytes of each, in order.
pub fn resolve_keys(names: &[String]) -> (r: Result<Vec<u8>, KeyError>)
    ensures
        r matches Ok(b) ==> keys_bytes(names@.map_values(|s: String| s@)) == Some(b@),
        r matches Err(KeyError::Unknown { name: n }) ==> {
            let nv = names@.map_values(|s: String| s@);
            &&& keys_bytes(nv) is None
            &&& exists|i: int|
                0 <= i < nv.len() && key_bytes(#[trigger] nv[i]) is None && n@ == nv[i]
                    && forall|j: int| 0 <= j < i ==> key_bytes(#[trigger] nv[j]) is Some
        },
{
    let ghost nv = names@.map_values(|s: String| s@);
    let mut out: Vec<u8> = Vec::new();
    let mut i: usize = 0;
    assert(nv.take(0) =~= Seq::<Seq<char>>::empty());
    while i < names.len()
        invariant
            nv == names@.map_values(|s: String| s@),
            i <= names@.len(),
            keys_bytes(nv.take(i as int)) == Some(out@),
            forall|j: int| 0 <= j < i ==> key_bytes(#[trigger] nv[j]) is Some,
        decreases names@.len() - i,
    {
        assert(nv.take(i + 1).drop_last() =~= nv.take(i as int));
        assert(nv.take(i + 1).last() == nv[i as int]);
        match resolve_key(names[i].as_str()) {
            Ok(bytes) => {
                let mut bytes = bytes;
                out.append(&mut bytes);
            },
            Err(e) => {
                proof {
                    lemma_keys_bytes_none(nv, i as int);
                }
                return Err(e);
            },
        }
        i = i + 1;
    }
    assert(nv.take(names@.len() as int) =~= nv);
    Ok(out)
}

/// A sequence with an unknown name at `i` has no bytes.
proof fn lemma_keys_bytes_none(names: Seq<Seq<char>>, i: int)
    requires
        0 <= i < names.len(),
        key_bytes(names[i]) is None,
    ensures
        keys_bytes(names) is None,
    decreases names.len(),
{
    if i < names.len() - 1 {
        assert(names.drop_last()[i] == names[i]);
        lemma_keys_bytes_none(names.drop_last(), i);
    }
}

} // verus!

verus! {

/// The list of key names offered when a name is unknown.
pub open spec fn valid_keys_hint() -> Seq<char> {
    "Valid keys: Enter, Tab, Escape, Space, Backspace, Delete, Insert, Up, Down, Left, Right, Home, End, PageUp, PageDown, F1-F12, Ctrl+<key>, Alt+<key>, Shift+<key>"@
}

impl KeyError {
    /// The message reported for the error: the unknown name, quoted, and
    /// the key names that are accepted.
    pub fn message(&self) -> (r: String)
        ensures
            match self {
                KeyError::Unknown { name } => r@ == "Unknown key: "@ + crate::chars::debug_quoted(name@) + ". "@
                    + valid_keys_hint(),
            },
    {
        match self {
            KeyError::Unknown { name } => {
                let mut m: Vec<char> = Vec::new();
                crate::chars::push_str(&mut m, "Unknown key: ");
                crate::chars::push_str(&mut m, crate::chars::quoted(name.as_str()).as_str());
                crate::chars::push_str(&mut m, ". ");
                crate::chars::push_str(
                    &mut m,
                    "Valid keys: Enter, Tab, Escape, Space, Backspace, Delete, Insert, Up, Down, Left, Right, Home, End, PageUp, PageDown, F1-F12, Ctrl+<key>, Alt+<key>, Shift+<key>",
                );
                crate::chars::string_of(&m)
            },
        }
    }
}

} // verus!

verus! {

/// Pressing a list of keys sends what pressing its two parts sends, one
/// after the other: the bytes of `a + b` are those of `a` then those of `b`,
/// and there are none exactly when either part names an unknown key. (With
/// one name per part this is the concatenation of single keys in order; the
/// empty list sends nothing.)
pub proof fn law_keys_concatenate(a: Seq<Seq<char>>, b: Seq<Seq<char>>)
    ensures
        keys_bytes(a + b) == (match (keys_bytes(a), keys_bytes(b)) {
            (Some(x), Some(y)) => Some(x + y),
            _ => None,
        }),
        keys_bytes(Seq::<Seq<char>>::empty()) == Some(Seq::<u8>::empty()),
    decreases b.len(),
{
    if b.len() == 0 {
        assert(a + b =~= a);
        match keys_bytes(a) {
            Some(x) => {
                assert(x + Seq::<u8>::empty() =~= x);
            },
            None => {},
        }
    } else {
        law_keys_concatenate(a, b.drop_last());
        assert((a + b).drop_last() =~= a + b.drop_last());
        assert((a + b).last() == b.last());
        match (keys_bytes(a), keys_bytes(b.drop_last()), key_bytes(b.last())) {
            (Some(x), Some(y), Some(z)) => {
                assert(x + y + z =~= x + (y + z));
            },
            _ => {},
        }
    }
}

} // verus!

verus! {

/// Two (lowercase) spellings of one key: the same word, or two of the
/// documented alternative names of a key.
pub open spec fn same_key(a: Seq<char>, b: Seq<char>) -> bool {
    let group = |n: Seq<char>|
        if n == seq!['e', 'n', 't', 'e', 'r'] || n == seq!['r', 'e', 't', 'u', 'r', 'n'] {
            1int
        } else if n == seq!['e', 's', 'c', 'a', 'p', 'e'] || n == seq!['e', 's', 'c'] {
            2int
        } else if n == seq!['d', 'e', 'l', 'e', 't', 'e'] || n == seq!['d', 'e', 'l'] {
            3int
        } else if n == seq!['i', 'n', 's', 'e', 'r', 't'] || n == seq!['i', 'n', 's'] {
            4int
        } else if n == seq!['p', 'a', 'g', 'e', 'u', 'p'] || n == seq!['p', 'g', 'u', 'p'] {
            5int
        } else if n == seq!['p', 'a', 'g', 'e', 'd', 'o', 'w', 'n'] || n == seq!['p', 'g', 'd', 'n'] || n == seq![
            'p',
            'g',
            'd',
            'o',
            'w',
            'n',
        ] {
            6int
        } else {
            0int
        };
    a == b || (group(a) != 0 && group(a) == group(b))
}

/// The usual spelling of a key name: the first of its alternative names.
spec fn canonical_name(n: Seq<char>) -> Seq<char> {
    if n == seq!['r', 'e', 't', 'u', 'r', 'n'] {
        seq!['e', 'n', 't', 'e', 'r']
    } else if n == seq!['e', 's', 'c'] {
        seq!['e', 's', 'c', 'a', 'p', 'e']
    } else if n == seq!['d', 'e', 'l'] {
        seq!['d', 'e', 'l', 'e', 't', 'e']
    } else if n == seq!['i', 'n', 's'] {
        seq!['i', 'n', 's', 'e', 'r', 't']
    } else if n == seq!['p', 'g', 'u', 'p'] {
        seq!['p', 'a', 'g', 'e', 'u', 'p']
    } else if n == seq!['p', 'g', 'd', 'n'] || n == seq!['p', 'g', 'd', 'o', 'w', 'n'] {
        seq!['p', 'a', 'g', 'e', 'd', 'o', 'w', 'n']
    } else {
        n
    }
}

/// A number that tells the named keys' byte sequences apart: the length,
/// then the bytes after the escape prefix.
spec fn key_fingerprint(x: Seq<u8>) -> int {
    if x.len() == 1 {
        x[0] as int
    } else if x.len() == 3 {
        1000 + x[2]
    } else if x.len() == 4 {
        2000 + x[2]
    } else if x.len() == 5 {
        3000 + x[2] * 256 + x[3]
    } else {
        -1
    }
}

/// The key whose sequence has fingerprint `f`.
spec fn key_of_fingerprint(f: int) -> Seq<char> {
    if f == 13 {
        seq!['e', 'n', 't', 'e', 'r']
    } else if f == 9 {
        seq!['t', 'a', 'b']
    } else if f == 27 {
        seq!['e', 's', 'c', 'a', 'p', 'e']
    } else if f == 32 {
        seq!['s', 'p', 'a', 'c', 'e']
    } else if f == 127 {
        seq!['b', 'a', 'c', 'k', 's', 'p', 'a', 'c', 'e']
    } else if f == 2051 {
        seq!['d', 'e', 'l', 'e', 't', 'e']
    } else if f == 2050 {
        seq!['i', 'n', 's', 'e', 'r', 't']
    } else if f == 1065 {
        seq!['u', 'p']
    } else if f == 1066 {
        seq!['d', 'o', 'w', 'n']
    } else if f == 1067 {
        seq!['r', 'i', 'g', 'h', 't']
    } else if f == 1068 {
        seq!['l', 'e', 'f', 't']
    } else if f == 1072 {
        seq!['h', 'o', 'm', 'e']
    } else if f == 1070 {
        seq!['e', 'n', 'd']
    } else if f == 2053 {
        seq!['p', 'a', 'g', 'e', 'u', 'p']
    } else if f == 2054 {
        seq!['p', 'a', 'g', 'e', 'd', 'o', 'w', 'n']
    } else if f == 1080 {
        seq!['f', '1']
    } else if f == 1081 {
        seq!['f', '2']
    } else if f == 1082 {
        seq!['f', '3']
    } else if f == 1083 {
        seq!['f', '4']
    } else if f == 15597 {
        seq!['f', '5']
    } else if f == 15599 {
        seq!['f', '6']
    } else if f == 15600 {
        seq!['f', '7']
    } else if f == 15601 {
        seq!['f', '8']
    } else if f == 15848 {
        seq!['f', '9']
    } else if f == 15849 {
        seq!['f', '1', '0']
    } else if f == 15851 {
        seq!['f', '1', '1']
    } else if f == 15852 {
        seq!['f', '1', '2']
    } else {
        Seq::<char>::empty()
    }
}

proof fn lemma_named_key_decodes(n: Seq<char>)
    requires
        named_key_bytes(n) is Some,
    ensures
        key_of_fingerprint(key_fingerprint(named_key_bytes(n)->0)) == canonical_name(n),
{
    if n == seq!['e', 'n', 't', 'e', 'r'] {
        assert(named_key_bytes(n)->0 == seq![13u8]);
    } else if n == seq!['r', 'e', 't', 'u', 'r', 'n'] {
        assert(named_key_bytes(n)->0 == seq![13u8]);
    } else if n == seq!['t', 'a', 'b'] {
        assert(named_key_bytes(n)->0 == seq![9u8]);
    } else if n == seq!['e', 's', 'c', 'a', 'p', 'e'] {
        assert(named_key_bytes(n)->0 == seq![27u8]);
    } else if n == seq!['e', 's', 'c'] {
        assert(named_key_bytes(n)->0 == seq![27u8]);
    } else if n == seq!['s', 'p', 'a', 'c', 'e'] {
        assert(named_key_bytes(n)->0 == seq![32u8]);
    } else if n == seq!['b', 'a', 'c', 'k', 's', 'p', 'a', 'c', 'e'] {
        assert(named_key_bytes(n)->0 == seq![127u8]);
    } else if n == seq!['d', 'e', 'l', 'e', 't', 'e'] {
        assert(named_key_bytes(n)->0 == seq![27u8, 91u8, 51u8, 126u8]);
    } else if n == seq!['d', 'e', 'l'] {
        assert(named_key_bytes(n)->0 == seq![27u8, 91u8, 51u8, 126u8]);
    } else if n == seq!['i', 'n', 's', 'e', 'r', 't'] {
        assert(named_key_bytes(n)->0 == seq![27u8, 91u8, 50u8, 126u8]);
    } else if n == seq!['i', 'n', 's'] {
        assert(named_key_bytes(n)->0 == seq![27u8, 91u8, 50u8, 126u8]);
    } else if n == seq!['u', 'p'] {
        assert(named_key_bytes(n)->0 == seq![27u8, 79u8, 65u8]);
    } else if n == seq!['d', 'o', 'w', 'n'] {
        assert(named_key_bytes(n)->0 == seq![27u8, 79u8, 66u8]);
    } else if n == seq!['r', 'i', 'g', 'h', 't'] {
        assert(named_key_bytes(n)->0 == seq![27u8, 79u8, 67u8]);
    } else if n == seq!['l', 'e', 'f', 't'] {
        assert(named_key_bytes(n)->0 == seq![27u8, 79u8, 68u8]);
    } else if n == seq!['h', 'o', 'm', 'e'] {
        assert(named_key_bytes(n)->0 == seq![27u8, 79u8, 72u8]);
    } else if n == seq!['e', 'n', 'd'] {
        assert(named_key_bytes(n)->0 == seq![27u8, 79u8, 70u8]);
    } else if n == seq!['p', 'a', 'g', 'e', 'u', 'p'] {
        assert(named_key_bytes(n)->0 == seq![27u8, 91u8, 53u8, 126u8]);
    } else if n == seq!['p', 'g', 'u', 'p'] {
        assert(named_key_bytes(n)->0 == seq![27u8, 91u8, 53u8, 126u8]);
    } else if n == seq!['p', 'a', 'g', 'e', 'd', 'o', 'w', 'n'] {
        assert(named_key_bytes(n)->0 == seq![27u8, 91u8, 54u8, 126u8]);
    } else if n == seq!['p', 'g', 'd', 'n'] {
        assert(named_key_bytes(n)->0 == seq![27u8, 91u8, 54u8, 126u8]);
    } else if n == seq!['p', 'g', 'd', 'o', 'w', 'n'] {
        assert(named_key_bytes(n)->0 == seq![27u8, 91u8, 54u8, 126u8]);
    } else if n == seq!['f', '1'] {
        assert(named_key_bytes(n)->0 == seq![27u8, 79u8, 80u8]);
    } else if n == seq!['f', '2'] {
        assert(named_key_bytes(n)->0 == seq![27u8, 79u8, 81u8]);
    } else if n == seq!['f', '3'] {
        assert(named_key_bytes(n)->0 == seq![27u8, 79u8, 82u8]);
    } else if n == seq!['f', '4'] {
        assert(named_key_bytes(n)->0 == seq![27u8, 79u8, 83u8]);
    } else if n == seq!['f', '5'] {
        assert(named_key_bytes(n)->0 == seq![27u8, 91u8, 49u8, 53u8, 126u8]);
    } else if n == seq!['f', '6'] {
        assert(named_key_bytes(n)->0 == seq![27u8, 91u8, 49u8, 55u8, 126u8]);
    } else if n == seq!['f', '7'] {
        assert(named_key_bytes(n)->0 == seq![27u8, 91u8, 49u8, 56u8, 126u8]);
    } else if n == seq!['f', '8'] {
        assert(named_key_bytes(n)->0 == seq![27u8, 91u8, 49u8, 57u8, 126u8]);
    } else if n == seq!['f', '9'] {
        assert(named_key_bytes(n)->0 == seq![27u8, 91u8, 50u8, 48u8, 126u8]);
    } else if n == seq!['f', '1', '0'] {
        assert(named_key_bytes(n)->0 == seq![27u8, 91u8, 50u8, 49u8, 126u8]);
    } else if n == seq!['f', '1', '1'] {
        assert(named_key_bytes(n)->0 == seq![27u8, 91u8, 50u8, 51u8, 126u8]);
    } else if n == seq!['f', '1', '2'] {
        assert(named_key_bytes(n)->0 == seq![27u8, 91u8, 50u8, 52u8, 126u8]);
    }
}

/// No two keys share a byte sequence: two key names (without modifiers)
/// that send the same bytes are spellings of one key. So, for instance,
/// PageUp and PageDown, or Up and Home, can be told apart by the
/// application.
pub proof fn law_named_keys_are_distinct(a: Seq<char>, b: Seq<char>)
    requires
        named_key_bytes(a) is Some,
        named_key_bytes(a) == named_key_bytes(b),
    ensures
        same_key(a, b),
{
    lemma_named_key_decodes(a);
    lemma_named_key_decodes(b);
    assert(canonical_name(a) == canonical_name(b));
}

/// A navigation or function key sends, without modifiers, the same sequence
/// it sends with them, only without the modifier parameter: `CSI n ~` for
/// the keys whose modified form is `CSI n ; m ~` (Insert 2, Delete 3,
/// PageUp 5, PageDown 6, F5 to F12), and `ESC O x` for those whose modified
/// form is `CSI 1 ; m x` (the arrows, Home, End, F1 to F4).
pub proof fn law_plain_keys_drop_the_modifier(n: Seq<char>)
    ensures
        tilde_code(n) matches Some(c) ==> named_key_bytes(n) == Some(seq![27u8, 91u8] + dec_bytes(c as nat) + seq![126u8]),
        arrow_suffix(n) matches Some(x) ==> named_key_bytes(n) == Some(seq![27u8, 79u8, x]),
        f1_to_f4_suffix(n) matches Some(x) ==> named_key_bytes(n) == Some(seq![27u8, 79u8, x]),
{
    if let Some(c) = tilde_code(n) {
        let d = dec_bytes(c as nat);
        if c < 10 {
            assert(d == seq![digit_byte(c as nat)]);
            assert(seq![27u8, 91u8] + d + seq![126u8] =~= seq![27u8, 91u8, (48 + c) as u8, 126u8]);
        } else {
            assert(dec_bytes((c / 10) as nat) == seq![digit_byte((c / 10) as nat)]);
            assert(d =~= seq![digit_byte((c / 10) as nat), digit_byte((c % 10) as nat)]);
            assert(seq![27u8, 91u8] + d + seq![126u8] =~= seq![27u8, 91u8, (48 + c / 10) as u8, (48 + c % 10) as u8, 126u8]);
        }
        if n == seq!['i', 'n', 's', 'e', 'r', 't'] {
            assert(c == 2);
            assert(named_key_bytes(n) == Some(seq![27u8, 91u8, 50u8, 126u8]));
        } else if n == seq!['i', 'n', 's'] {
            assert(c == 2);
            assert(named_key_bytes(n) == Some(seq![27u8, 91u8, 50u8, 126u8]));
        } else if n == seq!['d', 'e', 'l', 'e', 't', 'e'] {
            assert(c == 3);
            assert(named_key_bytes(n) == Some(seq![27u8, 91u8, 51u8, 126u8]));
        } else if n == seq!['d', 'e', 'l'] {
            assert(c == 3);
            assert(named_key_bytes(n) == Some(seq![27u8, 91u8, 51u8, 126u8]));
        } else if n == seq!['p', 'a', 'g', 'e', 'u', 'p'] {
            assert(c == 5);
            assert(named_key_bytes(n) == Some(seq![27u8, 91u8, 53u8, 126u8]));
        } else if n == seq!['p', 'g', 'u', 'p'] {
            assert(c == 5);
            assert(named_key_bytes(n) == Some(seq![27u8, 91u8, 53u8, 126u8]));
        } else if n == seq!['p', 'a', 'g', 'e', 'd', 'o', 'w', 'n'] {
            assert(c == 6);
            assert(named_key_bytes(n) == Some(seq![27u8, 91u8, 54u8, 126u8]));
        } else if n == seq!['p', 'g', 'd', 'n'] {
            assert(c == 6);
            assert(named_key_bytes(n) == Some(seq![27u8, 91u8, 54u8, 126u8]));
        } else if n == seq!['p', 'g', 'd', 'o', 'w', 'n'] {
            assert(c == 6);
            assert(named_key_bytes(n) == Some(seq![27u8, 91u8, 54u8, 126u8]));
        } else if n == seq!['f', '5'] {
            assert(c == 15);
            assert(named_key_bytes(n) == Some(seq![27u8, 91u8, 49u8, 53u8, 126u8]));
        } else if n == seq!['f', '6'] {
            assert(c == 17);
            assert(named_key_bytes(n) == Some(seq![27u8, 91u8, 49u8, 55u8, 126u8]));
        } else if n == seq!['f', '7'] {
            assert(c == 18);
            assert(named_key_bytes(n) == Some(seq![27u8, 91u8, 49u8, 56u8, 126u8]));
        } else if n == seq!['f', '8'] {
            assert(c == 19);
            assert(named_key_bytes(n) == Some(seq![27u8, 91u8, 49u8, 57u8, 126u8]));
        } else if n == seq!['f', '9'] {
            assert(c == 20);
            assert(named_key_bytes(n) == Some(seq![27u8, 91u8, 50u8, 48u8, 126u8]));
        } else if n == seq!['f', '1', '0'] {
            assert(c == 21);
            assert(n.len() != seq!['f', '1'].len());
            assert(n != seq!['f', '1']);
            assert(named_key_bytes(n) == Some(seq![27u8, 91u8, 50u8, 49u8, 126u8]));
        } else if n == seq!['f', '1', '1'] {
            assert(c == 23);
            assert(n.len() != seq!['f', '1'].len());
            assert(n != seq!['f', '1']);
            assert(named_key_bytes(n) == Some(seq![27u8, 91u8, 50u8, 51u8, 126u8]));
        } else if n == seq!['f', '1', '2'] {
            assert(c == 24);
            assert(n.len() != seq!['f', '1'].len());
            assert(n != seq!['f', '1']);
            assert(named_key_bytes(n) == Some(seq![27u8, 91u8, 50u8, 52u8, 126u8]));
        }
    }
}

} // verus!

verus! {

proof fn lemma_split_without_sep(s: Seq<char>, sep: char)
    requires
        !s.contains(sep),
    ensures
        split_on(s, sep).len() == 1,
    decreases s.len(),
{
    if s.len() > 0 {
        assert(!s.drop_last().contains(sep)) by {
            if s.drop_last().contains(sep) {
                let k = choose|k: int| 0 <= k < s.drop_last().len() && s.drop_last()[k] == sep;
                assert(s[k] == sep);
            }
        }
        lemma_split_without_sep(s.drop_last(), sep);
        assert(s[s.len() - 1] == s.last());
    }
}

/// A key name without `+`, in any letter case, that names a key sends that
/// key's bytes (`resolve_key` gives `key_bytes`).
pub proof fn law_key_names_send_their_key(name: Seq<char>)
    requires
        !unicode_lowercase(name).contains('+'),
        named_key_bytes(unicode_lowercase(name)) is Some,
    ensures
        key_bytes(name) == named_key_bytes(unicode_lowercase(name)),
{
    lemma_split_without_sep(unicode_lowercase(name), '+');
}

} // verus!
