//! Cross-operation laws of the engine, proved from the operations'
//! specifications.

use vstd::prelude::*;

use crate::data::{CharacterV, EffectV};
use crate::effects::{lower_seq, sat_add_i16, sat_add_i32, sat_add_i8};
use crate::keymap::seq_has;
use crate::pipeline::{
    equip_slots, grant_abilities, remove_equipment_spec, revoke_abilities, reverse_apply,
    sat_neg, transient_key, unequip_ok, use_item_ok, use_item_spec,
};

verus! {

/// Membership after granting: a key is present exactly when it was
/// present before or is among the granted keys.
pub proof fn lemma_grant_has(ab: Seq<Seq<char>>, granted: Seq<Seq<char>>, k: Seq<char>)
    ensures
        seq_has(grant_abilities(ab, granted), k) == (seq_has(ab, k) || seq_has(granted, k)),
    decreases granted.len(),
{
    if granted.len() == 0 {
        assert(!seq_has(granted, k));
    } else {
        lemma_grant_has(ab, granted.drop_last(), k);
        let prev = grant_abilities(ab, granted.drop_last());
        let x = granted.last();
        assert(seq_has(granted, k) == (x == k || seq_has(granted.drop_last(), k))) by {
            if seq_has(granted, k) {
                let i = choose|i: int| 0 <= i < granted.len() && granted[i] == k;
                if i < granted.len() - 1 {
                    assert(granted.drop_last()[i] == k);
                }
            } else {
                assert(granted[granted.len() - 1] == x);
                if seq_has(granted.drop_last(), k) {
                    let i = choose|i: int|
                        0 <= i < granted.drop_last().len() && granted.drop_last()[i] == k;
                    assert(granted[i] == k);
                }
            }
        }
        if seq_has(prev, x) {
        } else {
            let r = prev.push(x);
            assert(seq_has(r, k) == (x == k || seq_has(prev, k))) by {
                if seq_has(r, k) {
                    let i = choose|i: int| 0 <= i < r.len() && r[i] == k;
                    if i < r.len() - 1 {
                        assert(prev[i] == k);
                    } else {
                        assert(r[i] == x);
                    }
                } else {
                    assert(r[r.len() - 1] == x);
                    if seq_has(prev, k) {
                        let i = choose|i: int| 0 <= i < prev.len() && prev[i] == k;
                        assert(r[i] == k);
                    }
                }
            }
        }
    }
}

/// Membership after revoking: a key is present exactly when it was
/// present before and is not among the revoked keys.
pub proof fn lemma_revoke_has(ab: Seq<Seq<char>>, revoked: Seq<Seq<char>>, k: Seq<char>)
    ensures
        seq_has(revoke_abilities(ab, revoked), k) == (seq_has(ab, k) && !seq_has(revoked, k)),
    decreases revoked.len(),
{
    if revoked.len() == 0 {
        assert(!seq_has(revoked, k));
    } else {
        lemma_revoke_has(ab, revoked.drop_last(), k);
        let x = revoked.last();
        crate::keymap::lemma_name_filter_has(revoke_abilities(ab, revoked.drop_last()), x, k);
        assert(seq_has(revoked, k) == (x == k || seq_has(revoked.drop_last(), k))) by {
            if seq_has(revoked, k) {
                let i = choose|i: int| 0 <= i < revoked.len() && revoked[i] == k;
                if i < revoked.len() - 1 {
                    assert(revoked.drop_last()[i] == k);
                }
            } else {
                assert(revoked[revoked.len() - 1] == x);
                if seq_has(revoked.drop_last(), k) {
                    let i = choose|i: int|
                        0 <= i < revoked.drop_last().len() && revoked.drop_last()[i] == k;
                    assert(revoked[i] == k);
                }
            }
        }
    }
}

/// The slot lookup after equipping: every slot the item declares holds
/// the item.
pub proof fn lemma_equip_slots_at(
    eq: Map<Seq<char>, crate::data::ItemV>,
    slots: Seq<Seq<char>>,
    item: crate::data::ItemV,
    s: Seq<char>,
)
    requires
        seq_has(slots, s),
    ensures
        equip_slots(eq, slots, item).contains_key(s),
        equip_slots(eq, slots, item)[s] == item,
    decreases slots.len(),
{
    let x = slots.last();
    if x == s {
    } else {
        assert(seq_has(slots.drop_last(), s)) by {
            let i = choose|i: int| 0 <= i < slots.len() && slots[i] == s;
            assert(slots[slots.len() - 1] == x);
            assert(slots.drop_last()[i] == s);
        }
        lemma_equip_slots_at(eq, slots.drop_last(), item, s);
    }
}

/// Equipping an item and immediately unequipping it from one of its
/// slots restores the caster's ability set to its pre-equip value,
/// provided none of the item's granted abilities was already present.
/// (Effect state is not restored bit-for-bit: the reversal is a
/// synthesized negation, not an exact rollback.)
pub proof fn lemma_equip_unequip_restores_abilities(
    c: CharacterV,
    idx: int,
    slot: Seq<char>,
    catalog: Map<Seq<char>, EffectV>,
)
    requires
        use_item_ok(c, idx, catalog),
        seq_has(c.items[idx].slots, slot),
        forall|a: Seq<char>|
            seq_has(c.items[idx].abilities, a) ==> !(#[trigger] seq_has(c.abilities, a)),
    ensures
        unequip_ok(use_item_spec(c, idx, catalog), slot, catalog),
        forall|k: Seq<char>|
            seq_has(
                #[trigger] remove_equipment_spec(use_item_spec(c, idx, catalog), slot, catalog)
                    .abilities,
                k,
            ) == seq_has(c.abilities, k),
{
    let item = c.items[idx];
    let c1 = CharacterV { equipment: equip_slots(c.equipment, item.slots, item), ..c };
    let c2 = CharacterV { abilities: grant_abilities(c1.abilities, item.abilities), ..c1 };
    crate::pipeline::lemma_attach_apply_all_frame(c2, item.effects, catalog);
    let c3 = crate::pipeline::attach_apply_all(c2, item.effects, catalog);
    let used = use_item_spec(c, idx, catalog);
    lemma_equip_slots_at(c.equipment, item.slots, item, slot);
    assert(used.equipment == c3.equipment);
    assert(used.equipment.contains_key(slot) && used.equipment[slot] == item);
    assert(used.abilities == grant_abilities(c.abilities, item.abilities));
    assert(used.stats.dom() == c.stats.dom());
    assert forall|i: int| 0 <= i < item.effects.len() implies catalog.contains_key(
        #[trigger] item.effects[i],
    ) && crate::effects::stat_resolvable(used, catalog[item.effects[i]]) by {
        assert(crate::effects::stat_resolvable(c, catalog[item.effects[i]]));
    }
    assert(unequip_ok(used, slot, catalog));
    let u1 = CharacterV {
        equipment: crate::pipeline::unequip_slots(used.equipment.remove(slot), item.slots),
        ..used
    };
    let u2 = CharacterV { abilities: revoke_abilities(u1.abilities, item.abilities), ..u1 };
    assert forall|i: int| 0 <= i < item.effects.len() implies catalog.contains_key(
        #[trigger] item.effects[i],
    ) && crate::effects::stat_resolvable(u2, catalog[item.effects[i]]) by {
        assert(crate::effects::stat_resolvable(c, catalog[item.effects[i]]));
    }
    crate::pipeline::lemma_reverse_apply_all_frame(u2, item.effects, catalog);
    let removed = remove_equipment_spec(used, slot, catalog);
    assert(removed.abilities == revoke_abilities(used.abilities, item.abilities));
    assert forall|k: Seq<char>|
        seq_has(#[trigger] removed.abilities, k) == seq_has(c.abilities, k) by {
        lemma_grant_has(c.abilities, item.abilities, k);
        lemma_revoke_has(grant_abilities(c.abilities, item.abilities), item.abilities, k);
        if seq_has(item.abilities, k) {
            assert(!seq_has(c.abilities, k));
        }
    }
}

/// Reversal semantics of unequipping, for one granted effect: the
/// synthesized reversal — the catalog effect with its lower modifier
/// bound negated — is applied exactly once under the transient key, the
/// resolved stat moves by that negation (saturating), and the transient
/// key never survives in the active-effect map. This is a negation, not
/// an exact rollback: re-negation and saturation need not undo the
/// original application bit for bit.
pub proof fn lemma_reverse_apply_negates_once(c: CharacterV, def: EffectV)
    requires
        crate::effects::stat_resolvable(c, def),
    ensures
        reverse_apply(c, def).effects == c.effects.remove(transient_key()),
        !reverse_apply(c, def).effects.contains_key(transient_key()),
        lower_seq(def.target_stat) == "health"@ ==> reverse_apply(c, def) == (CharacterV {
            hitpoints: sat_add_i32(c.hitpoints, sat_neg(def.modifier_low)),
            effects: c.effects.remove(transient_key()),
            ..c
        }),
        lower_seq(def.target_stat) == "speed"@ ==> reverse_apply(c, def) == (CharacterV {
            speed: sat_add_i32(c.speed, sat_neg(def.modifier_low)),
            effects: c.effects.remove(transient_key()),
            ..c
        }),
        lower_seq(def.target_stat) == "initiative"@ ==> reverse_apply(c, def) == (CharacterV {
            initiative: sat_add_i8(c.initiative, sat_neg(def.modifier_low)),
            effects: c.effects.remove(transient_key()),
            ..c
        }),
        (lower_seq(def.target_stat) != "health"@ && lower_seq(def.target_stat) != "speed"@
            && lower_seq(def.target_stat) != "initiative"@) ==> reverse_apply(c, def)
            == (CharacterV {
            stats: c.stats.insert(
                lower_seq(def.target_stat),
                sat_add_i16(c.stats[lower_seq(def.target_stat)], sat_neg(def.modifier_low)),
            ),
            effects: c.effects.remove(transient_key()),
            ..c
        }),
{
    reveal_strlit("health");
    reveal_strlit("speed");
    reveal_strlit("initiative");
    assert("health"@.len() == 6);
    assert("speed"@.len() == 5);
    assert("initiative"@.len() == 10);
    let rev = EffectV { modifier_low: sat_neg(def.modifier_low), ..def };
    let attached = CharacterV { effects: c.effects.insert(transient_key(), rev), ..c };
    assert(attached.effects[transient_key()] == rev);
    let applied = crate::effects::apply_effect_spec(attached, transient_key());
    assert(applied.effects.remove(transient_key()) =~= c.effects.remove(transient_key()));
}

} // verus!
