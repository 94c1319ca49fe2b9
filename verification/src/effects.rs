//! The effect engine: applies an active effect instance to a character's
//! attributes, decrements its remaining duration, and retires it when the
//! duration runs out.
//!
//! The effect's target-stat name resolves case-insensitively (for ASCII
//! letters) against the three fixed vitals — health, speed, initiative —
//! or else its lowercased spelling is treated as a key into the named-stat
//! mapping. Stat arithmetic saturates at the bounds of the stat's integer
//! type rather than wrapping or failing.

use vstd::prelude::*;

use crate::data::{Character, CharacterV, EffectV};
use crate::EngineError;

verus! {

/// ASCII lowercasing of one character.
pub open spec fn lower_char(ch: char) -> char {
    if ch == 'A' {
        'a'
    } else if ch == 'B' {
        'b'
    } else if ch == 'C' {
        'c'
    } else if ch == 'D' {
        'd'
    } else if ch == 'E' {
        'e'
    } else if ch == 'F' {
        'f'
    } else if ch == 'G' {
        'g'
    } else if ch == 'H' {
        'h'
    } else if ch == 'I' {
        'i'
    } else if ch == 'J' {
        'j'
    } else if ch == 'K' {
        'k'
    } else if ch == 'L' {
        'l'
    } else if ch == 'M' {
        'm'
    } else if ch == 'N' {
        'n'
    } else if ch == 'O' {
        'o'
    } else if ch == 'P' {
        'p'
    } else if ch == 'Q' {
        'q'
    } else if ch == 'R' {
        'r'
    } else if ch == 'S' {
        's'
    } else if ch == 'T' {
        't'
    } else if ch == 'U' {
        'u'
    } else if ch == 'V' {
        'v'
    } else if ch == 'W' {
        'w'
    } else if ch == 'X' {
        'x'
    } else if ch == 'Y' {
        'y'
    } else if ch == 'Z' {
        'z'
    } else {
        ch
    }
}

/// ASCII lowercasing of a name.
pub open spec fn lower_seq(s: Seq<char>) -> Seq<char> {
    s.map_values(|ch: char| lower_char(ch))
}

/// Executes `lower_char`.
pub fn lower_char_exec(ch: char) -> (r: char)
    ensures
        r == lower_char(ch),
{
    if ch == 'A' {
        'a'
    } else if ch == 'B' {
        'b'
    } else if ch == 'C' {
        'c'
    } else if ch == 'D' {
        'd'
    } else if ch == 'E' {
        'e'
    } else if ch == 'F' {
        'f'
    } else if ch == 'G' {
        'g'
    } else if ch == 'H' {
        'h'
    } else if ch == 'I' {
        'i'
    } else if ch == 'J' {
        'j'
    } else if ch == 'K' {
        'k'
    } else if ch == 'L' {
        'l'
    } else if ch == 'M' {
        'm'
    } else if ch == 'N' {
        'n'
    } else if ch == 'O' {
        'o'
    } else if ch == 'P' {
        'p'
    } else if ch == 'Q' {
        'q'
    } else if ch == 'R' {
        'r'
    } else if ch == 'S' {
        's'
    } else if ch == 'T' {
        't'
    } else if ch == 'U' {
        'u'
    } else if ch == 'V' {
        'v'
    } else if ch == 'W' {
        'w'
    } else if ch == 'X' {
        'x'
    } else if ch == 'Y' {
        'y'
    } else if ch == 'Z' {
        'z'
    } else {
        ch
    }
}

/// Lowercases a name into a character vector.
pub fn to_lower_chars(s: &String) -> (r: Vec<char>)
    ensures
        r@ == lower_seq(s@),
{
    let n = s.as_str().unicode_len();
    let mut r: Vec<char> = Vec::new();
    let mut i: usize = 0;
    while i < n
        invariant
            0 <= i <= n,
            n == s@.len(),
            r@.len() == i,
            forall|m: int| 0 <= m < i ==> #[trigger] r@[m] == lower_char(s@[m]),
        decreases n - i,
    {
        r.push(lower_char_exec(s.as_str().get_char(i)));
        i = i + 1;
    }
    assert(r@ =~= lower_seq(s@));
    r
}

/// Compares a character vector against a string slice.
pub fn chars_eq_str(v: &Vec<char>, s: &str) -> (r: bool)
    ensures
        r == (v@ == s@),
{
    let n = s.unicode_len();
    if n != v.len() {
        return false;
    }
    let mut i: usize = 0;
    while i < n
        invariant
            0 <= i <= n,
            n == s@.len(),
            n == v@.len(),
            forall|m: int| 0 <= m < i ==> v@[m] == s@[m],
        decreases n - i,
    {
        if s.get_char(i) != v[i] {
            return false;
        }
        i = i + 1;
    }
    assert(v@ =~= s@);
    true
}

/// Addition of a modifier to an `i32` stat, saturating at the type bounds.
pub open spec fn sat_add_i32(a: i32, b: i32) -> i32 {
    if a + b > i32::MAX {
        i32::MAX
    } else if a + b < i32::MIN {
        i32::MIN
    } else {
        (a + b) as i32
    }
}

/// Addition of a modifier to an `i16` stat, saturating at the type bounds.
pub open spec fn sat_add_i16(a: i16, b: i32) -> i16 {
    if a + b > i16::MAX {
        i16::MAX
    } else if a + b < i16::MIN {
        i16::MIN
    } else {
        (a + b) as i16
    }
}

/// Addition of a modifier to an `i8` stat, saturating at the type bounds.
pub open spec fn sat_add_i8(a: i8, b: i32) -> i8 {
    if a + b > i8::MAX {
        i8::MAX
    } else if a + b < i8::MIN {
        i8::MIN
    } else {
        (a + b) as i8
    }
}

/// One saturating decrement of a duration counter.
pub open spec fn sat_dec(d: i32) -> i32 {
    if d == i32::MIN {
        d
    } else {
        (d - 1) as i32
    }
}

pub fn sat_add_i32_exec(a: i32, b: i32) -> (r: i32)
    ensures
        r == sat_add_i32(a, b),
{
    let sum: i64 = a as i64 + b as i64;
    if sum > i32::MAX as i64 {
        i32::MAX
    } else if sum < i32::MIN as i64 {
        i32::MIN
    } else {
        sum as i32
    }
}

pub fn sat_add_i16_exec(a: i16, b: i32) -> (r: i16)
    ensures
        r == sat_add_i16(a, b),
{
    let sum: i64 = a as i64 + b as i64;
    if sum > i16::MAX as i64 {
        i16::MAX
    } else if sum < i16::MIN as i64 {
        i16::MIN
    } else {
        sum as i16
    }
}

pub fn sat_add_i8_exec(a: i8, b: i32) -> (r: i8)
    ensures
        r == sat_add_i8(a, b),
{
    let sum: i64 = a as i64 + b as i64;
    if sum > i8::MAX as i64 {
        i8::MAX
    } else if sum < i8::MIN as i64 {
        i8::MIN
    } else {
        sum as i8
    }
}

/// Whether the target stat of `e` resolves on character `c`: one of the
/// three vitals, matched case-insensitively, or a named stat whose
/// lowercased key is present in the stat mapping.
pub open spec fn stat_resolvable(c: CharacterV, e: EffectV) -> bool {
    let lk = lower_seq(e.target_stat);
    lk == "health"@ || lk == "speed"@ || lk == "initiative"@ || c.stats.contains_key(lk)
}

/// Whether applying the active effect keyed `key` on `c` succeeds: the
/// effect must be attached and its target stat must resolve.
pub open spec fn can_apply(c: CharacterV, key: Seq<char>) -> bool {
    c.effects.contains_key(key) && stat_resolvable(c, c.effects[key])
}

/// The character after one application of the active effect keyed `key`:
/// the effect's lower modifier bound is added (saturating) to the
/// resolved stat, the effect's remaining duration drops by one, and the
/// effect is removed exactly when the duration reaches zero.
pub open spec fn apply_effect_spec(c: CharacterV, key: Seq<char>) -> CharacterV {
    let e = c.effects[key];
    let lk = lower_seq(e.target_stat);
    let c1 = if lk == "health"@ {
        CharacterV { hitpoints: sat_add_i32(c.hitpoints, e.modifier_low), ..c }
    } else if lk == "speed"@ {
        CharacterV { speed: sat_add_i32(c.speed, e.modifier_low), ..c }
    } else if lk == "initiative"@ {
        CharacterV { initiative: sat_add_i8(c.initiative, e.modifier_low), ..c }
    } else {
        CharacterV { stats: c.stats.insert(lk, sat_add_i16(c.stats[lk], e.modifier_low)), ..c }
    };
    let nd = sat_dec(e.duration);
    if nd == 0 {
        CharacterV { effects: c1.effects.remove(key), ..c1 }
    } else {
        CharacterV { effects: c1.effects.insert(key, EffectV { duration: nd, ..e }), ..c1 }
    }
}

/// Applies the active effect keyed `key` on `target` once.
///
/// Fails closed with `NotFound`, leaving the character unchanged, when no
/// such effect is attached or its target stat does not resolve.
pub fn apply_effect(target: &mut Character, key: &String) -> (r: Result<(), EngineError>)
    ensures
        match r {
            Ok(()) => can_apply(old(target)@, key@) && final(target)@ == apply_effect_spec(
                old(target)@,
                key@,
            ),
            Err(e) => {
                &&& e == EngineError::NotFound
                &&& !can_apply(old(target)@, key@)
                &&& *final(target) == *old(target)
            },
        },
{
    let (mlow, dur, stat_name, eff_name, mhigh, temp) = match target.effects.get(key) {
        None => {
            return Err(EngineError::NotFound);
        },
        Some(e) => (
            e.modifier_low,
            e.duration,
            e.target_stat.clone(),
            e.name.clone(),
            e.modifier_high,
            e.temporary,
        ),
    };
    let lk = to_lower_chars(&stat_name);
    if chars_eq_str(&lk, "health") {
        target.hitpoints = sat_add_i32_exec(target.hitpoints, mlow);
    } else if chars_eq_str(&lk, "speed") {
        target.speed = sat_add_i32_exec(target.speed, mlow);
    } else if chars_eq_str(&lk, "initiative") {
        target.initiative = sat_add_i8_exec(target.initiative, mlow);
    } else {
        let cur: i16 = match target.stats.get_chars(&lk) {
            None => {
                return Err(EngineError::NotFound);
            },
            Some(v) => *v,
        };
        let updated = target.stats.update_chars(&lk, sat_add_i16_exec(cur, mlow));
        assert(updated);
    }
    let nd = if dur == i32::MIN {
        dur
    } else {
        dur - 1
    };
    if nd == 0 {
        target.effects.remove(key);
    } else {
        let replacement = crate::data::Effect {
            name: eff_name,
            duration: nd,
            target_stat: stat_name,
            modifier_low: mlow,
            modifier_high: mhigh,
            temporary: temp,
        };
        target.effects.insert(key.clone(), replacement);
    }
    proof {
        let spec_result = apply_effect_spec(old(target)@, key@);
        assert(final(target)@.stats =~= spec_result.stats);
        assert(final(target)@.effects =~= spec_result.effects);
    }
    Ok(())
}

} // verus!
