//! The request pipeline: item use, ability casting, unequipping, request
//! construction, ordering, and execution against session state.

use vstd::prelude::*;
use vstd::string::StrSliceExecFns;
use vstd::string::StringExecFns;

use crate::data::{Character, CharacterV, Effect, EffectV, ItemV, Request, RequestV, TokenV};
use crate::effects::{
    apply_effect, apply_effect_spec, lower_seq, sat_dec, stat_resolvable,
};
use crate::keymap::{name_filter, set_insert, Dup};
use crate::session::{GameSession, SessionV};
use crate::EngineError;

verus! {

/// Ability keys granted one by one, in order; already-present keys are
/// not duplicated.
pub open spec fn grant_abilities(ab: Seq<Seq<char>>, granted: Seq<Seq<char>>) -> Seq<Seq<char>>
    decreases granted.len(),
{
    if granted.len() == 0 {
        ab
    } else {
        set_insert(grant_abilities(ab, granted.drop_last()), granted.last())
    }
}

/// Ability keys revoked one by one, in order.
pub open spec fn revoke_abilities(ab: Seq<Seq<char>>, revoked: Seq<Seq<char>>) -> Seq<Seq<char>>
    decreases revoked.len(),
{
    if revoked.len() == 0 {
        ab
    } else {
        name_filter(revoke_abilities(ab, revoked.drop_last()), revoked.last())
    }
}

/// The equipment map after `item` occupies every slot it declares, in
/// declaration order; previous occupants are overwritten.
pub open spec fn equip_slots(
    eq: Map<Seq<char>, ItemV>,
    slots: Seq<Seq<char>>,
    item: ItemV,
) -> Map<Seq<char>, ItemV>
    decreases slots.len(),
{
    if slots.len() == 0 {
        eq
    } else {
        equip_slots(eq, slots.drop_last(), item).insert(slots.last(), item)
    }
}

/// The equipment map after every listed slot is cleared, in order.
pub open spec fn unequip_slots(eq: Map<Seq<char>, ItemV>, slots: Seq<Seq<char>>) -> Map<
    Seq<char>,
    ItemV,
>
    decreases slots.len(),
{
    if slots.len() == 0 {
        eq
    } else {
        unequip_slots(eq, slots.drop_last()).remove(slots.last())
    }
}

/// Attaches `def` to the character's active effects under `key` and
/// applies it once.
pub open spec fn attach_apply(c: CharacterV, key: Seq<char>, def: EffectV) -> CharacterV {
    apply_effect_spec(CharacterV { effects: c.effects.insert(key, def), ..c }, key)
}

/// Attaches and applies the catalog effect of every listed key, in order.
pub open spec fn attach_apply_all(
    c: CharacterV,
    keys: Seq<Seq<char>>,
    catalog: Map<Seq<char>, EffectV>,
) -> CharacterV
    decreases keys.len(),
{
    if keys.len() == 0 {
        c
    } else {
        attach_apply(
            attach_apply_all(c, keys.drop_last(), catalog),
            keys.last(),
            catalog[keys.last()],
        )
    }
}

/// Every listed key resolves in the catalog, and every resolved effect's
/// target stat resolves on the character.
pub open spec fn all_applicable(
    c: CharacterV,
    keys: Seq<Seq<char>>,
    catalog: Map<Seq<char>, EffectV>,
) -> bool {
    forall|i: int|
        0 <= i < keys.len() ==> catalog.contains_key(#[trigger] keys[i]) && stat_resolvable(
            c,
            catalog[keys[i]],
        )
}

/// One effect application changes only the resolved stat, the vitals,
/// and the active-effect map; in particular the domain of the named-stat
/// mapping never changes.
pub proof fn lemma_apply_frame(c: CharacterV, key: Seq<char>)
    requires
        stat_resolvable(c, c.effects[key]),
    ensures
        apply_effect_spec(c, key).name == c.name,
        apply_effect_spec(c, key).max_hp == c.max_hp,
        apply_effect_spec(c, key).traits == c.traits,
        apply_effect_spec(c, key).items == c.items,
        apply_effect_spec(c, key).equipment == c.equipment,
        apply_effect_spec(c, key).abilities == c.abilities,
        apply_effect_spec(c, key).stats.dom() == c.stats.dom(),
{
    let e = c.effects[key];
    let lk = lower_seq(e.target_stat);
    if lk == "health"@ || lk == "speed"@ || lk == "initiative"@ {
    } else {
        assert(c.stats.contains_key(lk));
        assert(apply_effect_spec(c, key).stats.dom() =~= c.stats.dom());
    }
}

/// Attaching and applying a list of applicable effects keeps the frame
/// of `lemma_apply_frame` across the whole fold.
pub proof fn lemma_attach_apply_all_frame(
    c: CharacterV,
    keys: Seq<Seq<char>>,
    catalog: Map<Seq<char>, EffectV>,
)
    requires
        all_applicable(c, keys, catalog),
    ensures
        attach_apply_all(c, keys, catalog).name == c.name,
        attach_apply_all(c, keys, catalog).max_hp == c.max_hp,
        attach_apply_all(c, keys, catalog).traits == c.traits,
        attach_apply_all(c, keys, catalog).items == c.items,
        attach_apply_all(c, keys, catalog).equipment == c.equipment,
        attach_apply_all(c, keys, catalog).abilities == c.abilities,
        attach_apply_all(c, keys, catalog).stats.dom() == c.stats.dom(),
    decreases keys.len(),
{
    if keys.len() > 0 {
        assert forall|i: int| 0 <= i < keys.drop_last().len() implies catalog.contains_key(
            #[trigger] keys.drop_last()[i],
        ) && stat_resolvable(c, catalog[keys.drop_last()[i]]) by {
            assert(keys.drop_last()[i] == keys[i]);
        }
        lemma_attach_apply_all_frame(c, keys.drop_last(), catalog);
        let prev = attach_apply_all(c, keys.drop_last(), catalog);
        let k = keys.last();
        let def = catalog[k];
        let attached = CharacterV { effects: prev.effects.insert(k, def), ..prev };
        assert(stat_resolvable(c, def));
        assert(stat_resolvable(attached, def) == stat_resolvable(c, def));
        assert(attached.effects[k] == def);
        lemma_apply_frame(attached, k);
    }
}

} // verus!

verus! {

/// Whether using the inventory item at `idx` succeeds on character `c`:
/// the index must exist and every effect the item grants must be
/// applicable.
pub open spec fn use_item_ok(c: CharacterV, idx: int, catalog: Map<Seq<char>, EffectV>) -> bool {
    &&& 0 <= idx < c.items.len()
    &&& all_applicable(c, c.items[idx].effects, catalog)
}

/// The character after using the inventory item at `idx`: the item
/// occupies every slot it declares, grants its abilities, attaches and
/// applies its effects, and loses one use; it leaves the inventory when
/// its uses run out.
pub open spec fn use_item_spec(
    c: CharacterV,
    idx: int,
    catalog: Map<Seq<char>, EffectV>,
) -> CharacterV {
    let item = c.items[idx];
    let c1 = CharacterV { equipment: equip_slots(c.equipment, item.slots, item), ..c };
    let c2 = CharacterV { abilities: grant_abilities(c1.abilities, item.abilities), ..c1 };
    let c3 = attach_apply_all(c2, item.effects, catalog);
    let nu = sat_dec(item.uses);
    if nu <= 0 {
        CharacterV { items: c3.items.remove(idx), ..c3 }
    } else {
        CharacterV { items: c3.items.update(idx, ItemV { uses: nu, ..item }), ..c3 }
    }
}

impl GameSession {
    /// Uses the item at `item_index` in the token's inventory.
    ///
    /// Fails closed with `NotFound`, changing nothing, when the token is
    /// not placed, the index does not exist, or some granted effect does
    /// not resolve.
    pub fn use_item(&mut self, token: char, item_index: usize) -> (r: Result<(), EngineError>)
        ensures
            match r {
                Ok(()) => {
                    &&& old(self)@.characters.contains_key(token)
                    &&& use_item_ok(
                        old(self)@.characters[token].sheet,
                        item_index as int,
                        old(self)@.effects,
                    )
                    &&& final(self)@ == (SessionV {
                        characters: old(self)@.characters.insert(
                            token,
                            TokenV {
                                sheet: use_item_spec(
                                    old(self)@.characters[token].sheet,
                                    item_index as int,
                                    old(self)@.effects,
                                ),
                                ..old(self)@.characters[token]
                            },
                        ),
                        ..old(self)@
                    })
                },
                Err(e) => {
                    &&& e == EngineError::NotFound
                    &&& final(self)@ == old(self)@
                    &&& !(old(self)@.characters.contains_key(token) && use_item_ok(
                        old(self)@.characters[token].sheet,
                        item_index as int,
                        old(self)@.effects,
                    ))
                },
            },
    {
        let ghost catalog = self@.effects;
        let mut tok = match self.characters.take_out(token) {
            None => {
                return Err(EngineError::NotFound);
            },
            Some(t) => t,
        };
        let ghost tok0 = tok@;
        let ghost sheet0 = tok.sheet@;
        if item_index >= tok.sheet.items.len() {
            self.characters.insert(token, tok);
            proof {
                assert(self@.characters =~= old(self)@.characters);
                assert(self@ =~= old(self)@);
            }
            return Err(EngineError::NotFound);
        }
        let item = tok.sheet.items[item_index].dup();
        proof {
            assert(item@ == sheet0.items[item_index as int]);
        }
        // validate every granted effect before mutating anything
        let n_eff = item.effects.len();
        let mut defs: Vec<Effect> = Vec::new();
        let mut vi: usize = 0;
        while vi < n_eff
            invariant
                0 <= vi <= n_eff,
                n_eff == item@.effects.len(),
                defs@.len() == vi,
                catalog == self@.effects,
                self@ == (SessionV {
                    characters: old(self)@.characters.remove(token),
                    ..old(self)@
                }),
                tok@ == tok0,
                tok0.sheet == sheet0,
                item@ == sheet0.items[item_index as int],
                old(self)@.characters.contains_key(token),
                old(self)@.characters[token] == tok0,
                forall|m: int|
                    0 <= m < vi ==> catalog.contains_key(#[trigger] item@.effects[m])
                        && stat_resolvable(sheet0, catalog[item@.effects[m]]) && defs@[m]@
                        == catalog[item@.effects[m]],
            decreases n_eff - vi,
        {
            let key = item.effects.at(vi);
            match self.effects.get(key) {
                None => {
                    self.characters.insert(token, tok);
                    proof {
                        assert(self@.characters =~= old(self)@.characters);
                        assert(self@ =~= old(self)@);
                        assert(!all_applicable(sheet0, sheet0.items[item_index as int].effects, catalog));
                    }
                    return Err(EngineError::NotFound);
                },
                Some(def) => {
                    if !effect_applicable(&tok.sheet, def) {
                        self.characters.insert(token, tok);
                        proof {
                            assert(self@.characters =~= old(self)@.characters);
                            assert(self@ =~= old(self)@);
                            assert(!all_applicable(sheet0, sheet0.items[item_index as int].effects, catalog));
                        }
                        return Err(EngineError::NotFound);
                    }
                    defs.push(def.dup());
                },
            }
            vi = vi + 1;
        }
        // equip the item into every slot it declares
        let n_slots = item.slots.len();
        let mut si: usize = 0;
        while si < n_slots
            invariant
                0 <= si <= n_slots,
                n_slots == item@.slots.len(),
                item@ == sheet0.items[item_index as int],
                tok.sheet@ == (CharacterV {
                    equipment: equip_slots(sheet0.equipment, item@.slots.take(si as int), item@),
                    ..sheet0
                }),
                tok.row == tok0.row,
                tok.column == tok0.column,
                tok.initiative == tok0.initiative,
            decreases n_slots - si,
        {
            let slot = item.slots[si].clone();
            tok.sheet.equipment.insert(slot, item.dup());
            proof {
                assert(item@.slots.take(si as int + 1).drop_last() =~= item@.slots.take(si as int));
                assert(item@.slots.take(si as int + 1).last() == item@.slots[si as int]);
            }
            si = si + 1;
        }
        proof {
            assert(item@.slots.take(n_slots as int) =~= item@.slots);
        }
        let ghost c1 = CharacterV { equipment: equip_slots(sheet0.equipment, item@.slots, item@), ..sheet0 };
        // grant the item's abilities
        let n_ab = item.abilities.len();
        let mut ai: usize = 0;
        while ai < n_ab
            invariant
                0 <= ai <= n_ab,
                n_ab == item@.abilities.len(),
                item@ == sheet0.items[item_index as int],
                tok.sheet@ == (CharacterV {
                    abilities: grant_abilities(c1.abilities, item@.abilities.take(ai as int)),
                    ..c1
                }),
                tok.row == tok0.row,
                tok.column == tok0.column,
                tok.initiative == tok0.initiative,
            decreases n_ab - ai,
        {
            let ab = item.abilities.at(ai).clone();
            tok.sheet.abilities.insert(ab);
            proof {
                assert(item@.abilities.take(ai as int + 1).drop_last() =~= item@.abilities.take(
                    ai as int,
                ));
                assert(item@.abilities.take(ai as int + 1).last() == item@.abilities[ai as int]);
            }
            ai = ai + 1;
        }
        proof {
            assert(item@.abilities.take(n_ab as int) =~= item@.abilities);
        }
        let ghost c2 = CharacterV { abilities: grant_abilities(c1.abilities, item@.abilities), ..c1 };
        // attach and apply every granted effect
        let mut ei: usize = 0;
        while ei < n_eff
            invariant
                0 <= ei <= n_eff,
                n_eff == item@.effects.len(),
                defs@.len() == n_eff,
                item@ == sheet0.items[item_index as int],
                c2.stats == sheet0.stats,
                c2.items == sheet0.items,
                tok.sheet@ == attach_apply_all(c2, item@.effects.take(ei as int), catalog),
                tok.row == tok0.row,
                tok.column == tok0.column,
                tok.initiative == tok0.initiative,
                forall|m: int|
                    0 <= m < n_eff ==> catalog.contains_key(#[trigger] item@.effects[m])
                        && stat_resolvable(sheet0, catalog[item@.effects[m]]) && defs@[m]@
                        == catalog[item@.effects[m]],
            decreases n_eff - ei,
        {
            let key = item.effects.at(ei).clone();
            let ghost cur = tok.sheet@;
            proof {
                assert forall|i: int| 0 <= i < item@.effects.take(ei as int).len() implies
                    catalog.contains_key(#[trigger] item@.effects.take(ei as int)[i])
                        && stat_resolvable(c2, catalog[item@.effects.take(ei as int)[i]]) by {
                    assert(item@.effects.take(ei as int)[i] == item@.effects[i]);
                }
                lemma_attach_apply_all_frame(c2, item@.effects.take(ei as int), catalog);
            }
            tok.sheet.effects.insert(key.clone(), defs[ei].dup());
            proof {
                assert(tok.sheet@ == (CharacterV {
                    effects: cur.effects.insert(item@.effects[ei as int], catalog[item@.effects[ei as int]]),
                    ..cur
                }));
                assert(stat_resolvable(tok.sheet@, catalog[item@.effects[ei as int]]));
                assert(crate::effects::can_apply(tok.sheet@, item@.effects[ei as int]));
            }
            match apply_effect(&mut tok.sheet, &key) {
                Ok(()) => {},
                Err(_) => {
                    proof {
                        assert(false);
                    }
                },
            }
            proof {
                assert(item@.effects.take(ei as int + 1).drop_last() =~= item@.effects.take(
                    ei as int,
                ));
                assert(item@.effects.take(ei as int + 1).last() == item@.effects[ei as int]);
                assert(tok.sheet@ == attach_apply_all(c2, item@.effects.take(ei as int + 1), catalog));
            }
            ei = ei + 1;
        }
        proof {
            assert(item@.effects.take(n_eff as int) =~= item@.effects);
        }
        let ghost c3 = attach_apply_all(c2, item@.effects, catalog);
        // spend one use; the item leaves the inventory when spent
        proof {
            assert forall|i: int| 0 <= i < item@.effects.len() implies catalog.contains_key(
                #[trigger] item@.effects[i],
            ) && stat_resolvable(c2, catalog[item@.effects[i]]) by {
            }
            lemma_attach_apply_all_frame(c2, item@.effects, catalog);
            assert(c3.items == sheet0.items);
        }
        let new_uses = if item.uses == i32::MIN {
            i32::MIN
        } else {
            item.uses - 1
        };
        if new_uses <= 0 {
            tok.sheet.items.remove(item_index);
            proof {
                assert(tok.sheet.items.deep_view() =~= c3.items.remove(item_index as int));
            }
        } else {
            let mut updated = item.dup();
            updated.uses = new_uses;
            tok.sheet.items.set(item_index, updated);
            proof {
                assert(tok.sheet.items.deep_view() =~= c3.items.update(
                    item_index as int,
                    ItemV { uses: new_uses, ..item@ },
                ));
            }
        }
        self.characters.insert(token, tok);
        proof {
            assert(use_item_ok(sheet0, item_index as int, catalog));
            assert(tok.sheet@ == use_item_spec(sheet0, item_index as int, catalog));
            assert(self@.characters =~= old(self)@.characters.insert(
                token,
                TokenV { sheet: use_item_spec(sheet0, item_index as int, catalog), ..tok0 },
            ));
        }
        Ok(())
    }
}

/// Whether an effect's target stat resolves on a character.
pub fn effect_applicable(sheet: &Character, eff: &Effect) -> (r: bool)
    ensures
        r == stat_resolvable(sheet@, eff@),
{
    let lk = crate::effects::to_lower_chars(&eff.target_stat);
    if crate::effects::chars_eq_str(&lk, "health") {
        return true;
    }
    if crate::effects::chars_eq_str(&lk, "speed") {
        return true;
    }
    if crate::effects::chars_eq_str(&lk, "initiative") {
        return true;
    }
    sheet.stats.get_chars(&lk).is_some()
}

} // verus!

verus! {

/// Negation of a modifier bound, saturating at the type bounds.
pub open spec fn sat_neg(x: i32) -> i32 {
    if x == i32::MIN {
        i32::MAX
    } else {
        (-x) as i32
    }
}

/// The fixed transient key under which a synthesized reversal effect is
/// applied during unequipping.
pub open spec fn transient_key() -> Seq<char> {
    "removing_temp_item"@
}

/// Attaches a reversal of `def` — its lower modifier bound negated —
/// under the transient key, applies it once, and discards it.
pub open spec fn reverse_apply(c: CharacterV, def: EffectV) -> CharacterV {
    let rev = EffectV { modifier_low: sat_neg(def.modifier_low), ..def };
    let c1 = apply_effect_spec(
        CharacterV { effects: c.effects.insert(transient_key(), rev), ..c },
        transient_key(),
    );
    CharacterV { effects: c1.effects.remove(transient_key()), ..c1 }
}

/// Reverses the catalog effect of every listed key, in order.
pub open spec fn reverse_apply_all(
    c: CharacterV,
    keys: Seq<Seq<char>>,
    catalog: Map<Seq<char>, EffectV>,
) -> CharacterV
    decreases keys.len(),
{
    if keys.len() == 0 {
        c
    } else {
        reverse_apply(reverse_apply_all(c, keys.drop_last(), catalog), catalog[keys.last()])
    }
}

/// Reversal applications keep the same frame as forward applications.
pub proof fn lemma_reverse_apply_all_frame(
    c: CharacterV,
    keys: Seq<Seq<char>>,
    catalog: Map<Seq<char>, EffectV>,
)
    requires
        all_applicable(c, keys, catalog),
    ensures
        reverse_apply_all(c, keys, catalog).name == c.name,
        reverse_apply_all(c, keys, catalog).max_hp == c.max_hp,
        reverse_apply_all(c, keys, catalog).traits == c.traits,
        reverse_apply_all(c, keys, catalog).items == c.items,
        reverse_apply_all(c, keys, catalog).equipment == c.equipment,
        reverse_apply_all(c, keys, catalog).abilities == c.abilities,
        reverse_apply_all(c, keys, catalog).stats.dom() == c.stats.dom(),
    decreases keys.len(),
{
    if keys.len() > 0 {
        assert forall|i: int| 0 <= i < keys.drop_last().len() implies catalog.contains_key(
            #[trigger] keys.drop_last()[i],
        ) && stat_resolvable(c, catalog[keys.drop_last()[i]]) by {
            assert(keys.drop_last()[i] == keys[i]);
        }
        lemma_reverse_apply_all_frame(c, keys.drop_last(), catalog);
        let prev = reverse_apply_all(c, keys.drop_last(), catalog);
        let def = catalog[keys.last()];
        let rev = EffectV { modifier_low: sat_neg(def.modifier_low), ..def };
        let attached = CharacterV { effects: prev.effects.insert(transient_key(), rev), ..prev };
        assert(stat_resolvable(c, def));
        assert(stat_resolvable(attached, rev) == stat_resolvable(c, def));
        assert(attached.effects[transient_key()] == rev);
        lemma_apply_frame(attached, transient_key());
    }
}

/// Whether unequipping `slot` succeeds on character `c`: the slot must
/// be occupied and every effect the occupying item granted must reverse.
pub open spec fn unequip_ok(c: CharacterV, slot: Seq<char>, catalog: Map<Seq<char>, EffectV>) -> bool {
    &&& c.equipment.contains_key(slot)
    &&& all_applicable(c, c.equipment[slot].effects, catalog)
}

/// The character after unequipping `slot`: the slot and every secondary
/// slot the item records are cleared, the item's granted abilities are
/// revoked, every granted effect is reversed once under the transient
/// key, and the item returns to the inventory.
pub open spec fn remove_equipment_spec(
    c: CharacterV,
    slot: Seq<char>,
    catalog: Map<Seq<char>, EffectV>,
) -> CharacterV {
    let item = c.equipment[slot];
    let c1 = CharacterV { equipment: unequip_slots(c.equipment.remove(slot), item.slots), ..c };
    let c2 = CharacterV { abilities: revoke_abilities(c1.abilities, item.abilities), ..c1 };
    let c3 = reverse_apply_all(c2, item.effects, catalog);
    CharacterV { items: c3.items.push(item), ..c3 }
}

impl GameSession {
    /// Unequips the item in `slot` on the given token.
    ///
    /// Fails closed with `NotFound`, changing nothing, when the token is
    /// not placed, the slot is empty, or some granted effect's reversal
    /// does not resolve.
    pub fn remove_equipment(&mut self, token: char, slot: &String) -> (r: Result<(), EngineError>)
        ensures
            match r {
                Ok(()) => {
                    &&& old(self)@.characters.contains_key(token)
                    &&& unequip_ok(old(self)@.characters[token].sheet, slot@, old(self)@.effects)
                    &&& final(self)@ == (SessionV {
                        characters: old(self)@.characters.insert(
                            token,
                            TokenV {
                                sheet: remove_equipment_spec(
                                    old(self)@.characters[token].sheet,
                                    slot@,
                                    old(self)@.effects,
                                ),
                                ..old(self)@.characters[token]
                            },
                        ),
                        ..old(self)@
                    })
                },
                Err(e) => {
                    &&& e == EngineError::NotFound
                    &&& final(self)@ == old(self)@
                    &&& !(old(self)@.characters.contains_key(token) && unequip_ok(
                        old(self)@.characters[token].sheet,
                        slot@,
                        old(self)@.effects,
                    ))
                },
            },
    {
        let ghost catalog = self@.effects;
        let mut tok = match self.characters.take_out(token) {
            None => {
                return Err(EngineError::NotFound);
            },
            Some(t) => t,
        };
        let ghost tok0 = tok@;
        let ghost sheet0 = tok.sheet@;
        let item = match tok.sheet.equipment.get(slot) {
            None => {
                let put_back = tok;
                self.characters.insert(token, put_back);
                proof {
                    assert(self@.characters =~= old(self)@.characters);
                    assert(self@ =~= old(self)@);
                }
                return Err(EngineError::NotFound);
            },
            Some(it) => it.dup(),
        };
        proof {
            assert(item@ == sheet0.equipment[slot@]);
        }
        // validate every granted effect's reversal before mutating
        let n_eff = item.effects.len();
        let mut defs: Vec<Effect> = Vec::new();
        let mut vi: usize = 0;
        while vi < n_eff
            invariant
                0 <= vi <= n_eff,
                n_eff == item@.effects.len(),
                defs@.len() == vi,
                catalog == self@.effects,
                self@ == (SessionV {
                    characters: old(self)@.characters.remove(token),
                    ..old(self)@
                }),
                tok@ == tok0,
                tok0.sheet == sheet0,
                item@ == sheet0.equipment[slot@],
                sheet0.equipment.contains_key(slot@),
                old(self)@.characters.contains_key(token),
                old(self)@.characters[token] == tok0,
                forall|m: int|
                    0 <= m < vi ==> catalog.contains_key(#[trigger] item@.effects[m])
                        && stat_resolvable(sheet0, catalog[item@.effects[m]]) && defs@[m]@
                        == catalog[item@.effects[m]],
            decreases n_eff - vi,
        {
            let key = item.effects.at(vi);
            match self.effects.get(key) {
                None => {
                    self.characters.insert(token, tok);
                    proof {
                        assert(self@.characters =~= old(self)@.characters);
                        assert(self@ =~= old(self)@);
                        assert(!all_applicable(sheet0, sheet0.equipment[slot@].effects, catalog));
                    }
                    return Err(EngineError::NotFound);
                },
                Some(def) => {
                    if !effect_applicable(&tok.sheet, def) {
                        self.characters.insert(token, tok);
                        proof {
                            assert(self@.characters =~= old(self)@.characters);
                            assert(self@ =~= old(self)@);
                            assert(!all_applicable(
                                sheet0,
                                sheet0.equipment[slot@].effects,
                                catalog,
                            ));
                        }
                        return Err(EngineError::NotFound);
                    }
                    defs.push(def.dup());
                },
            }
            vi = vi + 1;
        }
        // clear the slot itself, then every slot the item records
        tok.sheet.equipment.remove(slot);
        let n_slots = item.slots.len();
        let mut si: usize = 0;
        while si < n_slots
            invariant
                0 <= si <= n_slots,
                n_slots == item@.slots.len(),
                item@ == sheet0.equipment[slot@],
                tok.sheet@ == (CharacterV {
                    equipment: unequip_slots(
                        sheet0.equipment.remove(slot@),
                        item@.slots.take(si as int),
                    ),
                    ..sheet0
                }),
                tok.row == tok0.row,
                tok.column == tok0.column,
                tok.initiative == tok0.initiative,
            decreases n_slots - si,
        {
            tok.sheet.equipment.remove(&item.slots[si]);
            proof {
                assert(item@.slots.take(si as int + 1).drop_last() =~= item@.slots.take(si as int));
                assert(item@.slots.take(si as int + 1).last() == item@.slots[si as int]);
            }
            si = si + 1;
        }
        proof {
            assert(item@.slots.take(n_slots as int) =~= item@.slots);
        }
        let ghost c1 = CharacterV {
            equipment: unequip_slots(sheet0.equipment.remove(slot@), item@.slots),
            ..sheet0
        };
        // revoke the item's granted abilities
        let n_ab = item.abilities.len();
        let mut ai: usize = 0;
        while ai < n_ab
            invariant
                0 <= ai <= n_ab,
                n_ab == item@.abilities.len(),
                item@ == sheet0.equipment[slot@],
                tok.sheet@ == (CharacterV {
                    abilities: revoke_abilities(c1.abilities, item@.abilities.take(ai as int)),
                    ..c1
                }),
                tok.row == tok0.row,
                tok.column == tok0.column,
                tok.initiative == tok0.initiative,
            decreases n_ab - ai,
        {
            tok.sheet.abilities.remove(item.abilities.at(ai));
            proof {
                assert(item@.abilities.take(ai as int + 1).drop_last() =~= item@.abilities.take(
                    ai as int,
                ));
                assert(item@.abilities.take(ai as int + 1).last() == item@.abilities[ai as int]);
            }
            ai = ai + 1;
        }
        proof {
            assert(item@.abilities.take(n_ab as int) =~= item@.abilities);
        }
        let ghost c2 = CharacterV {
            abilities: revoke_abilities(c1.abilities, item@.abilities),
            ..c1
        };
        // reverse each granted effect once under the transient key
        let mut ei: usize = 0;
        while ei < n_eff
            invariant
                0 <= ei <= n_eff,
                n_eff == item@.effects.len(),
                defs@.len() == n_eff,
                item@ == sheet0.equipment[slot@],
                c2.stats == sheet0.stats,
                c2.items == sheet0.items,
                tok.sheet@ == reverse_apply_all(c2, item@.effects.take(ei as int), catalog),
                tok.row == tok0.row,
                tok.column == tok0.column,
                tok.initiative == tok0.initiative,
                forall|m: int|
                    0 <= m < n_eff ==> catalog.contains_key(#[trigger] item@.effects[m])
                        && stat_resolvable(sheet0, catalog[item@.effects[m]]) && defs@[m]@
                        == catalog[item@.effects[m]],
            decreases n_eff - ei,
        {
            let ghost cur = tok.sheet@;
            proof {
                assert forall|i: int| 0 <= i < item@.effects.take(ei as int).len() implies
                    catalog.contains_key(#[trigger] item@.effects.take(ei as int)[i])
                        && stat_resolvable(c2, catalog[item@.effects.take(ei as int)[i]]) by {
                    assert(item@.effects.take(ei as int)[i] == item@.effects[i]);
                }
                lemma_reverse_apply_all_frame(c2, item@.effects.take(ei as int), catalog);
            }
            let mut rev = defs[ei].dup();
            rev.modifier_low = if rev.modifier_low == i32::MIN {
                i32::MAX
            } else {
                -rev.modifier_low
            };
            let tkey = String::from_str("removing_temp_item");
            let ghost def = catalog[item@.effects[ei as int]];
            proof {
                assert(rev@ == EffectV { modifier_low: sat_neg(def.modifier_low), ..def });
            }
            tok.sheet.effects.insert(tkey.clone(), rev);
            proof {
                assert(tok.sheet@ == (CharacterV {
                    effects: cur.effects.insert(
                        transient_key(),
                        EffectV { modifier_low: sat_neg(def.modifier_low), ..def },
                    ),
                    ..cur
                }));
                assert(stat_resolvable(tok.sheet@, tok.sheet@.effects[transient_key()]));
                assert(crate::effects::can_apply(tok.sheet@, transient_key()));
            }
            match apply_effect(&mut tok.sheet, &tkey) {
                Ok(()) => {},
                Err(_) => {
                    proof {
                        assert(false);
                    }
                },
            }
            tok.sheet.effects.remove(&tkey);
            proof {
                assert(item@.effects.take(ei as int + 1).drop_last() =~= item@.effects.take(
                    ei as int,
                ));
                assert(item@.effects.take(ei as int + 1).last() == item@.effects[ei as int]);
                assert(tok.sheet@ == reverse_apply_all(c2, item@.effects.take(ei as int + 1), catalog));
            }
            ei = ei + 1;
        }
        proof {
            assert(item@.effects.take(n_eff as int) =~= item@.effects);
        }
        let ghost c3 = reverse_apply_all(c2, item@.effects, catalog);
        // the unequipped item returns to the inventory
        proof {
            assert forall|i: int| 0 <= i < item@.effects.len() implies catalog.contains_key(
                #[trigger] item@.effects[i],
            ) && stat_resolvable(c2, catalog[item@.effects[i]]) by {
            }
            lemma_reverse_apply_all_frame(c2, item@.effects, catalog);
            assert(c3.items == sheet0.items);
        }
        tok.sheet.items.push(item);
        proof {
            assert(tok.sheet.items.deep_view() =~= c3.items.push(sheet0.equipment[slot@]));
        }
        self.characters.insert(token, tok);
        proof {
            assert(unequip_ok(sheet0, slot@, catalog));
            assert(tok.sheet@ == remove_equipment_spec(sheet0, slot@, catalog));
            assert(self@.characters =~= old(self)@.characters.insert(
                token,
                TokenV { sheet: remove_equipment_spec(sheet0, slot@, catalog), ..tok0 },
            ));
        }
        Ok(())
    }
}

} // verus!

verus! {

/// Resolves every listed effect key against the catalog and checks that
/// each resolved effect applies to the character. Returns the resolved
/// definitions in key order, or nothing if some key or stat fails.
fn validate_defs(
    catalog: &crate::keymap::KeyMap<Effect>,
    sheet: &Character,
    keys: &crate::keymap::KeySet,
) -> (r: Option<Vec<Effect>>)
    ensures
        match r {
            Some(defs) => {
                &&& defs@.len() == keys@.len()
                &&& forall|m: int|
                    0 <= m < keys@.len() ==> catalog@.contains_key(#[trigger] keys@[m])
                        && stat_resolvable(sheet@, catalog@[keys@[m]]) && defs@[m]@
                        == catalog@[keys@[m]]
            },
            None => !all_applicable(sheet@, keys@, catalog@),
        },
{
    let n = keys.len();
    let mut defs: Vec<Effect> = Vec::new();
    let mut i: usize = 0;
    while i < n
        invariant
            0 <= i <= n,
            n == keys@.len(),
            defs@.len() == i,
            forall|m: int|
                0 <= m < i ==> catalog@.contains_key(#[trigger] keys@[m]) && stat_resolvable(
                    sheet@,
                    catalog@[keys@[m]],
                ) && defs@[m]@ == catalog@[keys@[m]],
        decreases n - i,
    {
        let key = keys.at(i);
        match catalog.get(key) {
            None => {
                return None;
            },
            Some(def) => {
                if !effect_applicable(sheet, def) {
                    return None;
                }
                defs.push(def.dup());
            },
        }
        i = i + 1;
    }
    Some(defs)
}

/// Attaches and applies each resolved effect to the character, in key
/// order.
fn apply_defs(
    sheet: &mut Character,
    keys: &crate::keymap::KeySet,
    defs: &Vec<Effect>,
    Ghost(catalog): Ghost<Map<Seq<char>, EffectV>>,
)
    requires
        keys@.len() == defs@.len(),
        forall|m: int|
            0 <= m < keys@.len() ==> catalog.contains_key(#[trigger] keys@[m]) && stat_resolvable(
                old(sheet)@,
                catalog[keys@[m]],
            ) && defs@[m]@ == catalog[keys@[m]],
    ensures
        final(sheet)@ == attach_apply_all(old(sheet)@, keys@, catalog),
{
    let ghost c0 = sheet@;
    let n = keys.len();
    let mut i: usize = 0;
    while i < n
        invariant
            0 <= i <= n,
            n == keys@.len(),
            n == defs@.len(),
            sheet@ == attach_apply_all(c0, keys@.take(i as int), catalog),
            forall|m: int|
                0 <= m < n ==> catalog.contains_key(#[trigger] keys@[m]) && stat_resolvable(
                    c0,
                    catalog[keys@[m]],
                ) && defs@[m]@ == catalog[keys@[m]],
        decreases n - i,
    {
        let key = keys.at(i).clone();
        let ghost cur = sheet@;
        proof {
            assert forall|m: int| 0 <= m < keys@.take(i as int).len() implies catalog.contains_key(
                #[trigger] keys@.take(i as int)[m],
            ) && stat_resolvable(c0, catalog[keys@.take(i as int)[m]]) by {
                assert(keys@.take(i as int)[m] == keys@[m]);
            }
            lemma_attach_apply_all_frame(c0, keys@.take(i as int), catalog);
        }
        sheet.effects.insert(key.clone(), defs[i].dup());
        proof {
            assert(sheet@ == (CharacterV {
                effects: cur.effects.insert(keys@[i as int], catalog[keys@[i as int]]),
                ..cur
            }));
            assert(stat_resolvable(sheet@, catalog[keys@[i as int]]));
            assert(crate::effects::can_apply(sheet@, keys@[i as int]));
        }
        match apply_effect(sheet, &key) {
            Ok(()) => {},
            Err(_) => {
                proof {
                    assert(false);
                }
            },
        }
        proof {
            assert(keys@.take(i as int + 1).drop_last() =~= keys@.take(i as int));
            assert(keys@.take(i as int + 1).last() == keys@[i as int]);
            assert(sheet@ == attach_apply_all(c0, keys@.take(i as int + 1), catalog));
        }
        i = i + 1;
    }
    proof {
        assert(keys@.take(n as int) =~= keys@);
    }
}

/// One character in the token table has the listed effects attached and
/// applied.
pub open spec fn cast_on(
    m: Map<char, TokenV>,
    who: char,
    effs: Seq<Seq<char>>,
    catalog: Map<Seq<char>, EffectV>,
) -> Map<char, TokenV> {
    m.insert(who, TokenV { sheet: attach_apply_all(m[who].sheet, effs, catalog), ..m[who] })
}

/// The listed effects are applied to each target, in target order; a
/// repeated target receives the effects again.
pub open spec fn cast_targets(
    m: Map<char, TokenV>,
    ts: Seq<char>,
    effs: Seq<Seq<char>>,
    catalog: Map<Seq<char>, EffectV>,
) -> Map<char, TokenV>
    decreases ts.len(),
{
    if ts.len() == 0 {
        m
    } else {
        cast_on(cast_targets(m, ts.drop_last(), effs, catalog), ts.last(), effs, catalog)
    }
}

/// The token tables bind the same identifiers, at unchanged positions,
/// to sheets whose named-stat mappings cover the same names.
pub open spec fn same_doms(m1: Map<char, TokenV>, m2: Map<char, TokenV>) -> bool {
    &&& m1.dom() == m2.dom()
    &&& forall|k: char|
        m1.contains_key(k) ==> (#[trigger] m2[k]).sheet.stats.dom() == m1[k].sheet.stats.dom()
}

/// Whether casting the named ability succeeds: the ability and the
/// caster must exist, every caster effect must apply to the caster, and
/// every listed target must exist with every target effect applicable.
pub open spec fn use_ability_ok(
    s: SessionV,
    token: char,
    aname: Seq<char>,
    targets: Option<Seq<char>>,
) -> bool {
    &&& s.abilities.contains_key(aname)
    &&& s.characters.contains_key(token)
    &&& all_applicable(s.characters[token].sheet, s.abilities[aname].caster_effects, s.effects)
    &&& (match targets {
        None => true,
        Some(ts) => forall|i: int|
            0 <= i < ts.len() ==> s.characters.contains_key(#[trigger] ts[i]) && all_applicable(
                s.characters[ts[i]].sheet,
                s.abilities[aname].target_effects,
                s.effects,
            ),
    })
}

impl GameSession {
    /// Casts the named ability: every caster effect is attached to and
    /// applied on the caster, and, if targets are given, every target
    /// effect is attached to and applied on each target in order.
    ///
    /// Fails closed with `NotFound`, changing nothing, when the ability,
    /// the caster, or a target does not resolve, or an effect's target
    /// stat does not.
    pub fn use_ability(&mut self, token: char, ability: &String, targets: Option<Vec<char>>) -> (r:
        Result<(), EngineError>)
        ensures
            match r {
                Ok(()) => {
                    &&& use_ability_ok(
                        old(self)@,
                        token,
                        ability@,
                        match targets {
                            Some(ts) => Some(ts@),
                            None => None,
                        },
                    )
                    &&& final(self)@ == (SessionV {
                        characters: (match targets {
                            None => cast_on(
                                old(self)@.characters,
                                token,
                                old(self)@.abilities[ability@].caster_effects,
                                old(self)@.effects,
                            ),
                            Some(ts) => cast_targets(
                                cast_on(
                                    old(self)@.characters,
                                    token,
                                    old(self)@.abilities[ability@].caster_effects,
                                    old(self)@.effects,
                                ),
                                ts@,
                                old(self)@.abilities[ability@].target_effects,
                                old(self)@.effects,
                            ),
                        }),
                        ..old(self)@
                    })
                },
                Err(e) => {
                    &&& e == EngineError::NotFound
                    &&& final(self)@ == old(self)@
                    &&& !use_ability_ok(
                        old(self)@,
                        token,
                        ability@,
                        match targets {
                            Some(ts) => Some(ts@),
                            None => None,
                        },
                    )
                },
            },
    {
        let ghost catalog = self@.effects;
        let ghost m0 = self@.characters;
        let ab = match self.abilities.get(ability) {
            None => {
                return Err(EngineError::NotFound);
            },
            Some(a) => a.dup(),
        };
        proof {
            assert(ab@ == old(self)@.abilities[ability@]);
        }
        // validate the caster and its effects
        let cdefs = match self.characters.get(token) {
            None => {
                return Err(EngineError::NotFound);
            },
            Some(t) => match validate_defs(&self.effects, &t.sheet, &ab.caster_effects) {
                None => {
                    return Err(EngineError::NotFound);
                },
                Some(defs) => defs,
            },
        };
        // validate every target and its effects
        let mut tdefs: Vec<Effect> = Vec::new();
        match &targets {
            None => {},
            Some(ts) => {
                let n = ts.len();
                let mut i: usize = 0;
                while i < n
                    invariant
                        0 <= i <= n,
                        n == ts@.len(),
                        (match targets {
                            Some(v) => v@ == ts@,
                            None => false,
                        }),
                        old(self)@.abilities.contains_key(ability@),
                        ab@ == old(self)@.abilities[ability@],
                        self == old(self),
                        catalog == self@.effects,
                        m0 == self@.characters,
                        i > 0 ==> tdefs@.len() == ab@.target_effects.len(),
                        forall|m: int|
                            0 <= m < i ==> m0.contains_key(#[trigger] ts@[m]) && all_applicable(
                                m0[ts@[m]].sheet,
                                ab@.target_effects,
                                catalog,
                            ),
                        i > 0 ==> forall|m: int|
                            0 <= m < ab@.target_effects.len() ==> catalog.contains_key(
                                #[trigger] ab@.target_effects[m],
                            ) && tdefs@[m]@ == catalog[ab@.target_effects[m]],
                    decreases n - i,
                {
                    let t = ts[i];
                    match self.characters.get(t) {
                        None => {
                            proof {
                                assert(!(m0.contains_key(ts@[i as int]) && all_applicable(
                                    m0[ts@[i as int]].sheet,
                                    ab@.target_effects,
                                    catalog,
                                )));
                                assert(!use_ability_ok(old(self)@, token, ability@, Some(ts@))) by {
                                    if use_ability_ok(old(self)@, token, ability@, Some(ts@)) {
                                        assert(old(self)@.characters.contains_key(ts@[i as int])
                                            && all_applicable(
                                            old(self)@.characters[ts@[i as int]].sheet,
                                            old(self)@.abilities[ability@].target_effects,
                                            old(self)@.effects,
                                        ));
                                    }
                                }
                            }
                            return Err(EngineError::NotFound);
                        },
                        Some(ttok) => {
                            let ghost tsheet = ttok@.sheet;
                            match validate_defs(&self.effects, &ttok.sheet, &ab.target_effects) {
                                None => {
                                    proof {
                                        assert(tsheet == m0[ts@[i as int]].sheet);
                                        assert(!(m0.contains_key(ts@[i as int]) && all_applicable(
                                            m0[ts@[i as int]].sheet,
                                            ab@.target_effects,
                                            catalog,
                                        )));
                                        assert(!use_ability_ok(old(self)@, token, ability@, Some(ts@))) by {
                                            if use_ability_ok(old(self)@, token, ability@, Some(ts@)) {
                                                assert(old(self)@.characters.contains_key(ts@[i as int])
                                                    && all_applicable(
                                                    old(self)@.characters[ts@[i as int]].sheet,
                                                    old(self)@.abilities[ability@].target_effects,
                                                    old(self)@.effects,
                                                ));
                                            }
                                        }
                                    }
                                    return Err(EngineError::NotFound);
                                },
                                Some(defs) => {
                                    tdefs = defs;
                                },
                            }
                        },
                    }
                    i = i + 1;
                }
            },
        }
        // apply the caster effects
        let mut tok = match self.characters.take_out(token) {
            None => {
                proof {
                    assert(false);
                }
                return Err(EngineError::NotFound);
            },
            Some(t) => t,
        };
        apply_defs(&mut tok.sheet, &ab.caster_effects, &cdefs, Ghost(catalog));
        self.characters.insert(token, tok);
        let ghost m1 = cast_on(m0, token, ab@.caster_effects, catalog);
        proof {
            assert(self@.characters =~= m1);
            assert forall|i: int| 0 <= i < ab@.caster_effects.take(
                ab@.caster_effects.len() as int,
            ).len() implies catalog.contains_key(
                #[trigger] ab@.caster_effects.take(ab@.caster_effects.len() as int)[i],
            ) && stat_resolvable(
                m0[token].sheet,
                catalog[ab@.caster_effects.take(ab@.caster_effects.len() as int)[i]],
            ) by {
                assert(ab@.caster_effects.take(ab@.caster_effects.len() as int)[i]
                    == ab@.caster_effects[i]);
            }
            assert(ab@.caster_effects.take(ab@.caster_effects.len() as int) =~= ab@.caster_effects);
            lemma_attach_apply_all_frame(m0[token].sheet, ab@.caster_effects, catalog);
            assert(same_doms(m0, self@.characters));
        }
        // apply the target effects to each target in order
        match &targets {
            None => {},
            Some(ts) => {
                let n = ts.len();
                let mut i: usize = 0;
                while i < n
                    invariant
                        0 <= i <= n,
                        n == ts@.len(),
                        (match targets {
                            Some(v) => v@ == ts@,
                            None => false,
                        }),
                        old(self)@.abilities.contains_key(ability@),
                        ab@ == old(self)@.abilities[ability@],
                        catalog == self@.effects,
                        self@ == (SessionV {
                            characters: cast_targets(m1, ts@.take(i as int), ab@.target_effects, catalog),
                            ..old(self)@
                        }),
                        same_doms(m0, self@.characters),
                        tdefs@.len() == ab@.target_effects.len() || n == 0,
                        n > 0 ==> tdefs@.len() == ab@.target_effects.len(),
                        forall|m: int|
                            0 <= m < n ==> m0.contains_key(#[trigger] ts@[m]) && all_applicable(
                                m0[ts@[m]].sheet,
                                ab@.target_effects,
                                catalog,
                            ),
                        n > 0 ==> forall|m: int|
                            0 <= m < ab@.target_effects.len() ==> catalog.contains_key(
                                #[trigger] ab@.target_effects[m],
                            ) && tdefs@[m]@ == catalog[ab@.target_effects[m]],
                    decreases n - i,
                {
                    let t = ts[i];
                    let ghost mcur = self@.characters;
                    let mut ttok = match self.characters.take_out(t) {
                        None => {
                            proof {
                                assert(m0.contains_key(ts@[i as int]));
                                assert(mcur.dom() =~= m0.dom());
                                assert(false);
                            }
                            return Err(EngineError::NotFound);
                        },
                        Some(tk) => tk,
                    };
                    proof {
                        assert(ttok@ == mcur[ts@[i as int]]);
                        assert(ttok@.sheet.stats.dom() == m0[ts@[i as int]].sheet.stats.dom());
                        assert forall|m: int| 0 <= m < ab@.target_effects.len() implies
                            catalog.contains_key(#[trigger] ab@.target_effects[m])
                                && stat_resolvable(ttok@.sheet, catalog[ab@.target_effects[m]])
                                && tdefs@[m]@ == catalog[ab@.target_effects[m]] by {
                            assert(stat_resolvable(m0[ts@[i as int]].sheet, catalog[ab@.target_effects[m]]));
                        }
                    }
                    apply_defs(&mut ttok.sheet, &ab.target_effects, &tdefs, Ghost(catalog));
                    self.characters.insert(t, ttok);
                    proof {
                        assert(ts@.take(i as int + 1).drop_last() =~= ts@.take(i as int));
                        assert(ts@.take(i as int + 1).last() == ts@[i as int]);
                        assert(self@.characters =~= cast_on(mcur, ts@[i as int], ab@.target_effects, catalog));
                        assert(self@.characters =~= cast_targets(
                            m1,
                            ts@.take(i as int + 1),
                            ab@.target_effects,
                            catalog,
                        ));
                        lemma_attach_apply_all_frame(mcur[ts@[i as int]].sheet, ab@.target_effects, catalog);
                        assert(same_doms(m0, self@.characters));
                    }
                    i = i + 1;
                }
                proof {
                    assert(ts@.take(n as int) =~= ts@);
                }
            },
        }
        Ok(())
    }
}

} // verus!

verus! {

/// The numeric value of a decimal digit character.
pub open spec fn digit_of(ch: char) -> Option<int> {
    if ch == '0' {
        Some(0int)
    } else if ch == '1' {
        Some(1int)
    } else if ch == '2' {
        Some(2int)
    } else if ch == '3' {
        Some(3int)
    } else if ch == '4' {
        Some(4int)
    } else if ch == '5' {
        Some(5int)
    } else if ch == '6' {
        Some(6int)
    } else if ch == '7' {
        Some(7int)
    } else if ch == '8' {
        Some(8int)
    } else if ch == '9' {
        Some(9int)
    } else {
        None
    }
}

/// The value of a nonempty string of decimal digits; anything else is
/// nothing.
pub open spec fn parse_digits(s: Seq<char>) -> Option<int>
    decreases s.len(),
{
    if s.len() == 0 {
        None
    } else if s.len() == 1 {
        digit_of(s[0])
    } else {
        match (parse_digits(s.drop_last()), digit_of(s.last())) {
            (Some(v), Some(d)) => Some(v * 10 + d),
            _ => None,
        }
    }
}

/// An inventory index parsed from a subtype key: a nonempty digit string
/// whose value does not exceed `i32::MAX`.
pub open spec fn parse_index_spec(s: Seq<char>) -> Option<int> {
    match parse_digits(s) {
        Some(v) => if v <= i32::MAX {
            Some(v)
        } else {
            None
        },
        None => None,
    }
}

/// A parsed digit string is nonnegative and at least the value of any
/// nonempty prefix.
pub proof fn lemma_parse_prefix(s: Seq<char>, i: int)
    requires
        1 <= i <= s.len(),
        parse_digits(s) is Some,
    ensures
        parse_digits(s.take(i)) is Some,
        0 <= parse_digits(s.take(i)).unwrap() <= parse_digits(s).unwrap(),
    decreases s.len(),
{
    if s.len() == 1 {
        assert(s.take(1) =~= s);
    } else {
        assert(parse_digits(s.drop_last()) is Some);
        if i == s.len() {
            assert(s.take(i) =~= s);
            lemma_parse_prefix(s.drop_last(), s.len() - 1);
            assert(s.drop_last().take(s.len() - 1) =~= s.drop_last());
        } else {
            lemma_parse_prefix(s.drop_last(), i);
            assert(s.drop_last().take(i) =~= s.take(i));
            lemma_parse_prefix(s.drop_last(), s.len() - 1);
            assert(s.drop_last().take(s.len() - 1) =~= s.drop_last());
        }
    }
}

/// Executes `digit_of`.
fn digit_of_exec(ch: char) -> (r: Option<u32>)
    ensures
        match r {
            Some(d) => digit_of(ch) == Some(d as int),
            None => digit_of(ch) is None,
        },
{
    if ch == '0' {
        Some(0)
    } else if ch == '1' {
        Some(1)
    } else if ch == '2' {
        Some(2)
    } else if ch == '3' {
        Some(3)
    } else if ch == '4' {
        Some(4)
    } else if ch == '5' {
        Some(5)
    } else if ch == '6' {
        Some(6)
    } else if ch == '7' {
        Some(7)
    } else if ch == '8' {
        Some(8)
    } else if ch == '9' {
        Some(9)
    } else {
        None
    }
}

/// Parses an inventory index from a subtype key.
pub fn parse_index(s: &String) -> (r: Option<usize>)
    ensures
        match r {
            Some(u) => parse_index_spec(s@) == Some(u as int),
            None => parse_index_spec(s@) is None,
        },
{
    let n = s.as_str().unicode_len();
    if n == 0 {
        return None;
    }
    let mut acc: u64 = 0;
    let mut i: usize = 0;
    while i < n
        invariant
            0 <= i <= n,
            1 <= n == s@.len(),
            i > 0 ==> parse_digits(s@.take(i as int)) == Some(acc as int),
            i == 0 ==> acc == 0,
            acc <= i32::MAX,
        decreases n - i,
    {
        let ch = s.as_str().get_char(i);
        let d = match digit_of_exec(ch) {
            None => {
                proof {
                    if parse_digits(s@) is Some {
                        lemma_parse_prefix(s@, i as int + 1);
                        assert(s@.take(i as int + 1).drop_last() =~= s@.take(i as int));
                        assert(s@.take(i as int + 1).last() == s@[i as int]);
                        if i > 0 {
                            assert(parse_digits(s@.take(i as int + 1)) is None);
                        } else {
                            assert(s@.take(1).len() == 1);
                            assert(s@.take(1)[0] == s@[0]);
                            assert(parse_digits(s@.take(1)) is None);
                        }
                    }
                }
                return None;
            },
            Some(d) => d,
        };
        let next: u64 = acc * 10 + d as u64;
        proof {
            assert(s@.take(i as int + 1).drop_last() =~= s@.take(i as int));
            assert(s@.take(i as int + 1).last() == s@[i as int]);
            if i == 0 {
                assert(s@.take(1).len() == 1);
                assert(s@.take(1)[0] == s@[0]);
            }
        }
        if next > i32::MAX as u64 {
            proof {
                assert(parse_digits(s@.take(i as int + 1)) == Some(next as int));
                if parse_digits(s@) is Some {
                    lemma_parse_prefix(s@, i as int + 1);
                    assert(parse_digits(s@).unwrap() >= next as int);
                }
            }
            return None;
        }
        acc = next;
        i = i + 1;
    }
    proof {
        assert(s@.take(n as int) =~= s@);
    }
    Some(acc as usize)
}

/// Whether executing `rq` for `token` succeeds on session `s0`: a stale
/// caster or an unknown action kind is a silent success; otherwise the
/// dispatched operation's own conditions must hold.
pub open spec fn execute_ok(s0: SessionV, token: char, rq: RequestV) -> bool {
    if !s0.characters.contains_key(token) {
        true
    } else if rq.action_type == 0 {
        match rq.target_cell {
            Some(cell) => {
                &&& s0.grid.wf()
                &&& s0.grid.in_bounds(cell.0 as int, cell.1 as int)
                &&& s0.grid.at(cell.0 as int, cell.1 as int) == crate::grid::EMPTY
                &&& s0.grid.in_bounds(
                    s0.characters[token].row as int,
                    s0.characters[token].column as int,
                )
            },
            None => false,
        }
    } else if rq.action_type == 1 {
        match rq.subtype_key {
            Some(sk) => match parse_index_spec(sk) {
                Some(idx) => use_item_ok(s0.characters[token].sheet, idx, s0.effects),
                None => false,
            },
            None => false,
        }
    } else if rq.action_type == 2 {
        match rq.subtype_key {
            Some(sk) => use_ability_ok(s0, token, sk, rq.target_tokens),
            None => false,
        }
    } else if rq.action_type == 3 {
        match rq.subtype_key {
            Some(sk) => unequip_ok(s0.characters[token].sheet, sk, s0.effects),
            None => false,
        }
    } else {
        true
    }
}

/// The session after executing `rq` for `token`, where `execute_ok`
/// holds.
pub open spec fn execute_spec(s0: SessionV, token: char, rq: RequestV) -> SessionV {
    if !s0.characters.contains_key(token) {
        s0
    } else if rq.action_type == 0 {
        match rq.target_cell {
            Some(cell) => SessionV {
                characters: s0.characters.insert(
                    token,
                    TokenV { row: cell.0, column: cell.1, ..s0.characters[token] },
                ),
                grid: s0.grid.write(cell.0 as int, cell.1 as int, token).write(
                    s0.characters[token].row as int,
                    s0.characters[token].column as int,
                    crate::grid::EMPTY,
                ),
                ..s0
            },
            None => s0,
        }
    } else if rq.action_type == 1 {
        match rq.subtype_key {
            Some(sk) => match parse_index_spec(sk) {
                Some(idx) => SessionV {
                    characters: s0.characters.insert(
                        token,
                        TokenV {
                            sheet: use_item_spec(s0.characters[token].sheet, idx, s0.effects),
                            ..s0.characters[token]
                        },
                    ),
                    ..s0
                },
                None => s0,
            },
            None => s0,
        }
    } else if rq.action_type == 2 {
        match rq.subtype_key {
            Some(sk) => SessionV {
                characters: (match rq.target_tokens {
                    None => cast_on(
                        s0.characters,
                        token,
                        s0.abilities[sk].caster_effects,
                        s0.effects,
                    ),
                    Some(ts) => cast_targets(
                        cast_on(s0.characters, token, s0.abilities[sk].caster_effects, s0.effects),
                        ts,
                        s0.abilities[sk].target_effects,
                        s0.effects,
                    ),
                }),
                ..s0
            },
            None => s0,
        }
    } else if rq.action_type == 3 {
        match rq.subtype_key {
            Some(sk) => SessionV {
                characters: s0.characters.insert(
                    token,
                    TokenV {
                        sheet: remove_equipment_spec(s0.characters[token].sheet, sk, s0.effects),
                        ..s0.characters[token]
                    },
                ),
                ..s0
            },
            None => s0,
        }
    } else {
        s0
    }
}

impl GameSession {
    /// Executes a request for `token`: dispatches on the action kind. A
    /// caster that no longer resolves is a silent no-op — stale requests
    /// are dropped, not errors — as is an unknown action kind.
    ///
    /// A dispatched operation that fails leaves the session unchanged
    /// and surfaces that operation's error.
    pub fn execute_request(&mut self, token: char, req: &Request) -> (r: Result<(), EngineError>)
        ensures
            match r {
                Ok(()) => execute_ok(old(self)@, token, req@) && final(self)@ == execute_spec(
                    old(self)@,
                    token,
                    req@,
                ),
                Err(e) => !execute_ok(old(self)@, token, req@) && final(self)@ == old(self)@,
            },
    {
        if !self.characters.contains_key(token) {
            return Ok(());
        }
        if req.action_type == 0 {
            match req.target_cell {
                Some(cell) => self.move_token(token, cell.0, cell.1),
                None => Err(EngineError::NotFound),
            }
        } else if req.action_type == 1 {
            match &req.subtype_key {
                Some(sk) => match parse_index(sk) {
                    Some(idx) => self.use_item(token, idx),
                    None => Err(EngineError::NotFound),
                },
                None => Err(EngineError::NotFound),
            }
        } else if req.action_type == 2 {
            match &req.subtype_key {
                Some(sk) => {
                    let tt = match &req.target_tokens {
                        Some(v) => Some(crate::data::dup_chars(v)),
                        None => None,
                    };
                    self.use_ability(token, sk, tt)
                },
                None => Err(EngineError::NotFound),
            }
        } else if req.action_type == 3 {
            match &req.subtype_key {
                Some(sk) => self.remove_equipment(token, sk),
                None => Err(EngineError::NotFound),
            }
        } else {
            Ok(())
        }
    }
}

} // verus!

verus! {

/// The turn priority of a caster: its token's initiative, with a
/// missing token or missing initiative sorting lowest.
pub open spec fn req_key(m: Map<char, TokenV>, caster: char) -> int {
    if m.contains_key(caster) {
        match m[caster].initiative {
            Some(i) => i as int,
            None => i8::MIN as int,
        }
    } else {
        i8::MIN as int
    }
}

/// Stable insertion of a bucket into a descending-priority list: the new
/// bucket goes after every bucket of equal or higher priority.
pub open spec fn ins_bucket(
    m: Map<char, TokenV>,
    s: Seq<(char, Seq<RequestV>)>,
    x: (char, Seq<RequestV>),
) -> Seq<(char, Seq<RequestV>)>
    decreases s.len(),
{
    if s.len() == 0 {
        seq![x]
    } else if req_key(m, x.0) > req_key(m, s.last().0) {
        ins_bucket(m, s.drop_last(), x).push(s.last())
    } else {
        s.push(x)
    }
}

/// The pending buckets sorted by descending caster priority; buckets of
/// equal priority keep their original order.
pub open spec fn sort_buckets(
    m: Map<char, TokenV>,
    s: Seq<(char, Seq<RequestV>)>,
) -> Seq<(char, Seq<RequestV>)>
    decreases s.len(),
{
    if s.len() == 0 {
        s
    } else {
        ins_bucket(m, sort_buckets(m, s.drop_last()), s.last())
    }
}

/// Descending order of caster priority.
pub open spec fn buckets_sorted(m: Map<char, TokenV>, s: Seq<(char, Seq<RequestV>)>) -> bool {
    forall|i: int, j: int|
        0 <= i < j < s.len() ==> req_key(m, (#[trigger] s[i]).0) >= req_key(m, (#[trigger] s[j]).0)
}

/// Every bucket of the insertion result keeps any priority lower bound
/// that held of the inputs.
pub proof fn lemma_ins_bucket_bound(
    m: Map<char, TokenV>,
    s: Seq<(char, Seq<RequestV>)>,
    x: (char, Seq<RequestV>),
    b: int,
)
    requires
        forall|i: int| 0 <= i < s.len() ==> req_key(m, (#[trigger] s[i]).0) >= b,
        req_key(m, x.0) >= b,
    ensures
        forall|i: int|
            0 <= i < ins_bucket(m, s, x).len() ==> req_key(
                m,
                (#[trigger] ins_bucket(m, s, x)[i]).0,
            ) >= b,
    decreases s.len(),
{
    if s.len() == 0 {
    } else if req_key(m, x.0) > req_key(m, s.last().0) {
        assert forall|i: int| 0 <= i < s.drop_last().len() implies req_key(
            m,
            (#[trigger] s.drop_last()[i]).0,
        ) >= b by {
            assert(s.drop_last()[i] == s[i]);
        }
        lemma_ins_bucket_bound(m, s.drop_last(), x, b);
        let r0 = ins_bucket(m, s.drop_last(), x);
        let r = r0.push(s.last());
        assert forall|i: int| 0 <= i < r.len() implies req_key(m, (#[trigger] r[i]).0) >= b by {
            if i < r.len() - 1 {
                assert(r[i] == r0[i]);
            } else {
                assert(r[i] == s.last());
                assert(req_key(m, s[s.len() - 1].0) >= b);
            }
        }
    } else {
        let r = s.push(x);
        assert forall|i: int| 0 <= i < r.len() implies req_key(m, (#[trigger] r[i]).0) >= b by {
            if i < r.len() - 1 {
                assert(r[i] == s[i]);
            } else {
                assert(r[i] == x);
            }
        }
    }
}

pub proof fn lemma_ins_bucket_sorted(
    m: Map<char, TokenV>,
    s: Seq<(char, Seq<RequestV>)>,
    x: (char, Seq<RequestV>),
)
    requires
        buckets_sorted(m, s),
    ensures
        buckets_sorted(m, ins_bucket(m, s, x)),
        ins_bucket(m, s, x).len() == s.len() + 1,
    decreases s.len(),
{
    if s.len() == 0 {
    } else if req_key(m, x.0) > req_key(m, s.last().0) {
        assert forall|i: int, j: int| 0 <= i < j < s.drop_last().len() implies req_key(
            m,
            (#[trigger] s.drop_last()[i]).0,
        ) >= req_key(m, (#[trigger] s.drop_last()[j]).0) by {
            assert(s.drop_last()[i] == s[i]);
            assert(s.drop_last()[j] == s[j]);
        }
        lemma_ins_bucket_sorted(m, s.drop_last(), x);
        let r0 = ins_bucket(m, s.drop_last(), x);
        let r = r0.push(s.last());
        assert forall|i2: int| 0 <= i2 < s.drop_last().len() implies req_key(
            m,
            (#[trigger] s.drop_last()[i2]).0,
        ) >= req_key(m, s.last().0) by {
            assert(s.drop_last()[i2] == s[i2]);
        }
        lemma_ins_bucket_bound(m, s.drop_last(), x, req_key(m, s.last().0));
        assert forall|i: int, j: int| 0 <= i < j < r.len() implies req_key(
            m,
            (#[trigger] r[i]).0,
        ) >= req_key(m, (#[trigger] r[j]).0) by {
            if j < r.len() - 1 {
                assert(r[i] == r0[i]);
                assert(r[j] == r0[j]);
            } else {
                assert(r[i] == r0[i]);
                assert(r[j] == s.last());
            }
        }
    } else {
        let r = s.push(x);
        assert forall|i: int, j: int| 0 <= i < j < r.len() implies req_key(
            m,
            (#[trigger] r[i]).0,
        ) >= req_key(m, (#[trigger] r[j]).0) by {
            if j < r.len() - 1 {
                assert(r[i] == s[i]);
                assert(r[j] == s[j]);
            } else {
                assert(r[j] == x);
                assert(r[i] == s[i]);
                if i < s.len() - 1 {
                    assert(req_key(m, s[i].0) >= req_key(m, s[s.len() - 1].0));
                } else {
                    assert(s[i] == s.last());
                }
            }
        }
    }
}

/// The sort produces a descending-priority list. This is the ordering
/// guarantee of the pipeline: every higher-initiative caster's bucket
/// precedes every lower one's, and casters without a resolving
/// initiative come last.
pub proof fn lemma_sort_buckets_sorted(m: Map<char, TokenV>, s: Seq<(char, Seq<RequestV>)>)
    ensures
        buckets_sorted(m, sort_buckets(m, s)),
        sort_buckets(m, s).len() == s.len(),
    decreases s.len(),
{
    if s.len() > 0 {
        lemma_sort_buckets_sorted(m, s.drop_last());
        lemma_ins_bucket_sorted(m, sort_buckets(m, s.drop_last()), s.last());
    }
}

/// Inserting a bucket adds exactly that bucket to the collection.
pub proof fn lemma_ins_bucket_multiset(
    m: Map<char, TokenV>,
    s: Seq<(char, Seq<RequestV>)>,
    x: (char, Seq<RequestV>),
)
    ensures
        ins_bucket(m, s, x).to_multiset() == s.to_multiset().insert(x),
    decreases s.len(),
{
    broadcast use vstd::seq_lib::group_to_multiset_ensures;

    if s.len() == 0 {
        assert(seq![x] =~= Seq::<(char, Seq<RequestV>)>::empty().push(x));
        assert(ins_bucket(m, s, x).to_multiset() =~= s.to_multiset().insert(x));
    } else if req_key(m, x.0) > req_key(m, s.last().0) {
        lemma_ins_bucket_multiset(m, s.drop_last(), x);
        let r0 = ins_bucket(m, s.drop_last(), x);
        assert(r0.push(s.last()).to_multiset() =~= r0.to_multiset().insert(s.last()));
        assert(s =~= s.drop_last().push(s.last()));
        assert(s.to_multiset() =~= s.drop_last().to_multiset().insert(s.last()));
        assert(ins_bucket(m, s, x).to_multiset() =~= s.to_multiset().insert(x));
    } else {
        assert(s.push(x).to_multiset() =~= s.to_multiset().insert(x));
    }
}

/// The sort rearranges the pending buckets without adding, dropping, or
/// altering any: its result is a permutation of the input.
pub proof fn lemma_sort_buckets_permutes(m: Map<char, TokenV>, s: Seq<(char, Seq<RequestV>)>)
    ensures
        sort_buckets(m, s).to_multiset() == s.to_multiset(),
    decreases s.len(),
{
    broadcast use vstd::seq_lib::group_to_multiset_ensures;

    if s.len() > 0 {
        lemma_sort_buckets_permutes(m, s.drop_last());
        lemma_ins_bucket_multiset(m, sort_buckets(m, s.drop_last()), s.last());
        assert(s =~= s.drop_last().push(s.last()));
        assert(s.to_multiset() =~= s.drop_last().to_multiset().insert(s.last()));
    }
}

/// The buckets whose caster has priority `k`, in order.
pub open spec fn key_filter(
    m: Map<char, TokenV>,
    s: Seq<(char, Seq<RequestV>)>,
    k: int,
) -> Seq<(char, Seq<RequestV>)>
    decreases s.len(),
{
    if s.len() == 0 {
        s
    } else if req_key(m, s.last().0) == k {
        key_filter(m, s.drop_last(), k).push(s.last())
    } else {
        key_filter(m, s.drop_last(), k)
    }
}

/// Insertion appends the new bucket to its own priority class and leaves
/// every other priority class untouched.
pub proof fn lemma_ins_bucket_key_filter(
    m: Map<char, TokenV>,
    s: Seq<(char, Seq<RequestV>)>,
    x: (char, Seq<RequestV>),
    k: int,
)
    ensures
        key_filter(m, ins_bucket(m, s, x), k) == if req_key(m, x.0) == k {
            key_filter(m, s, k).push(x)
        } else {
            key_filter(m, s, k)
        },
    decreases s.len(),
{
    if s.len() == 0 {
        assert(s =~= Seq::<(char, Seq<RequestV>)>::empty());
        assert(seq![x].drop_last() =~= s);
        assert(seq![x].last() == x);
    } else if req_key(m, x.0) > req_key(m, s.last().0) {
        lemma_ins_bucket_key_filter(m, s.drop_last(), x, k);
        let r0 = ins_bucket(m, s.drop_last(), x);
        let r = ins_bucket(m, s, x);
        assert(r == r0.push(s.last()));
        assert(r.drop_last() =~= r0);
        assert(r.last() == s.last());
        if req_key(m, s.last().0) == k {
            assert(req_key(m, x.0) != k);
            assert(key_filter(m, r, k) == key_filter(m, r0, k).push(s.last()));
            assert(key_filter(m, r0, k) == key_filter(m, s.drop_last(), k));
            assert(key_filter(m, s, k) == key_filter(m, s.drop_last(), k).push(s.last()));
        } else {
            assert(key_filter(m, r, k) == key_filter(m, r0, k));
            assert(key_filter(m, s, k) == key_filter(m, s.drop_last(), k));
        }
    } else {
        assert(s.push(x).drop_last() =~= s);
        assert(s.push(x).last() == x);
    }
}

/// Ties keep their insertion order: for every priority, the sorted
/// queue's buckets of that priority are exactly the input's buckets of
/// that priority, in the same order. This pins the tie-break rule.
pub proof fn lemma_sort_buckets_stable(m: Map<char, TokenV>, s: Seq<(char, Seq<RequestV>)>, k: int)
    ensures
        key_filter(m, sort_buckets(m, s), k) == key_filter(m, s, k),
    decreases s.len(),
{
    if s.len() > 0 {
        lemma_sort_buckets_stable(m, s.drop_last(), k);
        lemma_ins_bucket_key_filter(m, sort_buckets(m, s.drop_last()), s.last(), k);
    }
}

/// Where the new bucket lands: splitting the list at a position where
/// everything after has lower priority and the element just before has
/// at least the new bucket's priority.
pub proof fn lemma_ins_bucket_at(
    m: Map<char, TokenV>,
    s: Seq<(char, Seq<RequestV>)>,
    x: (char, Seq<RequestV>),
    j: int,
)
    requires
        0 <= j <= s.len(),
        forall|i: int| j <= i < s.len() ==> req_key(m, (#[trigger] s[i]).0) < req_key(m, x.0),
        j > 0 ==> req_key(m, s[j - 1].0) >= req_key(m, x.0),
    ensures
        ins_bucket(m, s, x) == s.take(j) + seq![x] + s.skip(j),
    decreases s.len(),
{
    if j == s.len() {
        if s.len() == 0 {
            assert(ins_bucket(m, s, x) =~= s.take(j) + seq![x] + s.skip(j));
        } else {
            assert(req_key(m, s[j - 1].0) >= req_key(m, x.0));
            assert(s[j - 1] == s.last());
            assert(ins_bucket(m, s, x) == s.push(x));
            assert(ins_bucket(m, s, x) =~= s.take(j) + seq![x] + s.skip(j));
        }
    } else {
        assert(req_key(m, s[s.len() - 1].0) < req_key(m, x.0));
        assert(s[s.len() - 1] == s.last());
        assert forall|i: int| j <= i < s.drop_last().len() implies req_key(
            m,
            (#[trigger] s.drop_last()[i]).0,
        ) < req_key(m, x.0) by {
            assert(s.drop_last()[i] == s[i]);
        }
        if j > 0 {
            assert(s.drop_last()[j - 1] == s[j - 1]);
        }
        lemma_ins_bucket_at(m, s.drop_last(), x, j);
        assert(s.drop_last().take(j) =~= s.take(j));
        assert(ins_bucket(m, s, x) == ins_bucket(m, s.drop_last(), x).push(s.last()));
        assert(ins_bucket(m, s, x) =~= s.take(j) + seq![x] + s.skip(j));
    }
}

/// The turn priority of a caster, executable form.
pub fn bucket_key(characters: &crate::keymap::CharMap<crate::data::Token>, c: char) -> (r: i8)
    ensures
        r as int == req_key(characters@, c),
{
    match characters.get(c) {
        Some(t) => match t.initiative {
            Some(iv) => iv,
            None => i8::MIN,
        },
        None => i8::MIN,
    }
}

/// Duplicates a bucket of requests.
fn dup_requests(v: &Vec<Request>) -> (r: Vec<Request>)
    ensures
        r.deep_view() == v.deep_view(),
{
    let n = v.len();
    let mut r: Vec<Request> = Vec::new();
    let mut i: usize = 0;
    while i < n
        invariant
            0 <= i <= n,
            n == v@.len(),
            r@.len() == i,
            forall|m: int| 0 <= m < i ==> (#[trigger] r@[m])@ == v@[m]@,
        decreases n - i,
    {
        r.push(v[i].dup());
        i = i + 1;
    }
    proof {
        assert(r.deep_view() =~= v.deep_view());
    }
    r
}

impl GameSession {
    /// Sorts the pending buckets by the initiative of each bucket's
    /// caster, higher initiative first. The tie rule is pinned: buckets
    /// of equal priority keep their insertion order, and a caster whose
    /// token or initiative does not resolve sorts last, tied at the
    /// lowest priority.
    pub fn sort_requests(&mut self)
        ensures
            final(self)@ == (SessionV {
                requests: sort_buckets(old(self)@.characters, old(self)@.requests),
                ..old(self)@
            }),
            buckets_sorted(old(self)@.characters, final(self)@.requests),
    {
        let ghost m = self@.characters;
        let ghost orig = self@.requests;
        let n = self.requests.len();
        let mut sorted: Vec<(char, Vec<Request>)> = Vec::new();
        let mut i: usize = 0;
        proof {
            assert(orig.take(0) =~= Seq::<(char, Seq<RequestV>)>::empty());
            assert(sorted.deep_view() =~= sort_buckets(m, orig.take(0)));
        }
        while i < n
            invariant
                0 <= i <= n,
                n == self.requests@.len(),
                self == old(self),
                m == self@.characters,
                orig == self@.requests,
                sorted.deep_view() == sort_buckets(m, orig.take(i as int)),
                buckets_sorted(m, sorted.deep_view()),
            decreases n - i,
        {
            let caster = self.requests[i].0;
            let bucket = dup_requests(&self.requests[i].1);
            let key = bucket_key(&self.characters, caster);
            let ghost sv = sorted.deep_view();
            let ghost x: (char, Seq<RequestV>) = (caster, bucket.deep_view());
            proof {
                assert(x == orig[i as int]);
            }
            let mut j: usize = sorted.len();
            while j > 0 && bucket_key(&self.characters, sorted[j - 1].0) < key
                invariant
                    0 <= j <= sorted@.len(),
                    m == self@.characters,
                    sorted.deep_view() == sv,
                    sorted@.len() == sv.len(),
                    key as int == req_key(m, caster),
                    forall|mi: int|
                        j <= mi < sv.len() ==> req_key(m, (#[trigger] sv[mi]).0) < key as int,
                    forall|mi: int| 0 <= mi < sv.len() ==> (#[trigger] sv[mi]).0 == sorted@[mi].0,
                decreases j,
            {
                j = j - 1;
            }
            proof {
                if j > 0 {
                    assert(req_key(m, sv[j - 1].0) >= key as int);
                }
                lemma_ins_bucket_at(m, sv, x, j as int);
            }
            sorted.insert(j, (caster, bucket));
            proof {
                assert(sorted.deep_view() =~= sv.take(j as int) + seq![x] + sv.skip(j as int));
                assert(orig.take(i as int + 1).drop_last() =~= orig.take(i as int));
                assert(orig.take(i as int + 1).last() == orig[i as int]);
                assert(sorted.deep_view() == sort_buckets(m, orig.take(i as int + 1)));
                lemma_ins_bucket_sorted(m, sv, x);
            }
            i = i + 1;
        }
        proof {
            assert(orig.take(n as int) =~= orig);
        }
        self.requests = sorted;
    }
}

} // verus!

verus! {

/// The canonical request built from a high-level intent. An input kind
/// of 1 denotes an ability cast (canonical kind 2) and records the
/// occupant of the target cell when the ability has positive range; an
/// input kind of 2 denotes an item use (canonical kind 1).
pub open spec fn built_request(
    s: SessionV,
    a_type: int,
    key: Seq<char>,
    tok: char,
    end_row: usize,
    end_col: usize,
) -> RequestV {
    RequestV {
        caster: tok,
        action_type: if a_type == 1 {
            2
        } else if a_type == 2 {
            1
        } else {
            a_type as i32
        },
        subtype_key: if key.len() == 0 {
            None
        } else {
            Some(key)
        },
        target_cell: if a_type == 0 {
            Some((end_row, end_col))
        } else {
            None
        },
        target_tokens: if a_type == 1 && s.abilities.contains_key(key) && s.abilities[key].range
            > 0 && s.grid.wf() && s.grid.in_bounds(end_row as int, end_col as int)
            && s.characters.contains_key(s.grid.at(end_row as int, end_col as int)) {
            Some(Seq::empty().push(s.grid.at(end_row as int, end_col as int)))
        } else {
            None
        },
    }
}

/// Whether building the request succeeds: an ability intent must name a
/// cataloged ability, and when that ability has positive range the
/// target cell must lie on a well-formed grid.
pub open spec fn make_request_ok(
    s: SessionV,
    a_type: int,
    key: Seq<char>,
    end_row: usize,
    end_col: usize,
) -> bool {
    a_type == 1 ==> s.abilities.contains_key(key) && (s.abilities[key].range > 0 ==> s.grid.wf()
        && s.grid.in_bounds(end_row as int, end_col as int))
}

impl GameSession {
    /// Builds a canonical request from a high-level intent and, for the
    /// move, ability, and item kinds, executes it immediately. An
    /// unequip request (or an unknown kind) is built but not executed.
    pub fn make_request(
        &mut self,
        a_type: i32,
        key: &str,
        tok: char,
        end_row: usize,
        end_col: usize,
    ) -> (r: Result<Request, EngineError>)
        ensures
            match r {
                Ok(rq) => {
                    &&& make_request_ok(old(self)@, a_type as int, key@, end_row, end_col)
                    &&& rq@ == built_request(
                        old(self)@,
                        a_type as int,
                        key@,
                        tok,
                        end_row,
                        end_col,
                    )
                    &&& if a_type == 0 || a_type == 1 || a_type == 2 {
                        execute_ok(old(self)@, tok, rq@) && final(self)@ == execute_spec(
                            old(self)@,
                            tok,
                            rq@,
                        )
                    } else {
                        final(self)@ == old(self)@
                    }
                },
                Err(e) => {
                    &&& final(self)@ == old(self)@
                    &&& !(make_request_ok(old(self)@, a_type as int, key@, end_row, end_col) && (
                    (a_type == 0 || a_type == 1 || a_type == 2) ==> execute_ok(
                        old(self)@,
                        tok,
                        built_request(old(self)@, a_type as int, key@, tok, end_row, end_col),
                    )))
                },
            },
    {
        let key_string = String::from_str(key);
        let subtype_key = if key.unicode_len() == 0 {
            None
        } else {
            Some(key_string.clone())
        };
        let mut result = Request {
            caster: tok,
            action_type: a_type,
            subtype_key,
            target_cell: None,
            target_tokens: None,
        };
        if a_type == 0 {
            result.target_cell = Some((end_row, end_col));
        } else if a_type == 1 {
            result.action_type = 2;
            let range = match self.abilities.get(&key_string) {
                None => {
                    return Err(EngineError::NotFound);
                },
                Some(ab) => ab.range,
            };
            if range > 0 {
                if !self.grid.check_wf() || !self.grid.in_bounds(end_row, end_col) {
                    return Err(EngineError::OutOfBounds);
                }
                let marker = self.grid.at(end_row, end_col);
                if self.characters.contains_key(marker) {
                    let mut targets: Vec<char> = Vec::new();
                    targets.push(marker);
                    proof {
                        assert(targets@ =~= Seq::<char>::empty().push(marker));
                    }
                    result.target_tokens = Some(targets);
                }
            }
        } else if a_type == 2 {
            result.action_type = 1;
        } else {
            return Ok(result);
        }
        match self.execute_request(tok, &result) {
            Ok(()) => Ok(result),
            Err(e) => Err(e),
        }
    }
}

/// The requests of all pending buckets, flattened in bucket order.
pub open spec fn flatten_reqs(s: Seq<(char, Seq<RequestV>)>) -> Seq<RequestV>
    decreases s.len(),
{
    if s.len() == 0 {
        Seq::empty()
    } else {
        flatten_reqs(s.drop_last()) + s.last().1
    }
}

/// All pending requests, flattened in bucket order.
pub fn get_requests(session: &GameSession) -> (r: Vec<Request>)
    ensures
        r.deep_view() == flatten_reqs(session@.requests),
{
    let n = session.requests.len();
    let mut out: Vec<Request> = Vec::new();
    let mut i: usize = 0;
    proof {
        assert(session@.requests.take(0) =~= Seq::<(char, Seq<RequestV>)>::empty());
        assert(out.deep_view() =~= flatten_reqs(session@.requests.take(0)));
    }
    while i < n
        invariant
            0 <= i <= n,
            n == session@.requests.len(),
            n == session.requests@.len(),
            out.deep_view() == flatten_reqs(session@.requests.take(i as int)),
        decreases n - i,
    {
        let bucket = &session.requests[i].1;
        let bn = bucket.len();
        let mut bi: usize = 0;
        while bi < bn
            invariant
                0 <= bi <= bn,
                0 <= i < n,
                n == session@.requests.len(),
                n == session.requests@.len(),
                bn == session@.requests[i as int].1.len(),
                bucket.deep_view() == session@.requests[i as int].1,
                bn == bucket@.len(),
                out.deep_view() == flatten_reqs(session@.requests.take(i as int))
                    + session@.requests[i as int].1.take(bi as int),
            decreases bn - bi,
        {
            let ghost prev = out.deep_view();
            out.push(bucket[bi].dup());
            proof {
                let elem = session@.requests[i as int].1[bi as int];
                assert(elem == bucket.deep_view()[bi as int]);
                assert(elem == bucket@[bi as int]@);
                assert(out.deep_view() =~= prev.push(elem));
                assert(session@.requests[i as int].1.take(bi as int + 1)
                    =~= session@.requests[i as int].1.take(bi as int).push(elem));
                assert(out.deep_view() =~= flatten_reqs(session@.requests.take(i as int))
                    + session@.requests[i as int].1.take(bi as int + 1));
            }
            bi = bi + 1;
        }
        proof {
            assert(session@.requests[i as int].1.take(bn as int) =~= session@.requests[i as int].1);
            assert(session@.requests.take(i as int + 1).drop_last() =~= session@.requests.take(
                i as int,
            ));
            assert(session@.requests.take(i as int + 1).last() == session@.requests[i as int]);
            assert(out.deep_view() =~= flatten_reqs(session@.requests.take(i as int + 1)));
        }
        i = i + 1;
    }
    proof {
        assert(session@.requests.take(n as int) =~= session@.requests);
    }
    out
}

/// Appends a batch of requests to a caster's pending bucket list,
/// preserving insertion order.
pub fn insert_request(session: &mut GameSession, token: char, requests: Vec<Request>)
    ensures
        final(session)@ == (SessionV {
            requests: old(session)@.requests.push((token, requests.deep_view())),
            ..old(session)@
        }),
{
    let ghost rv = requests.deep_view();
    session.requests.push((token, requests));
    proof {
        assert(session@.requests =~= old(session)@.requests.push((token, rv)));
    }
}

/// Builds a request from a high-level intent against the session; see
/// `GameSession::make_request`.
pub fn generate_request(
    session: &mut GameSession,
    a_type: i32,
    key: &str,
    tok: char,
    end_row: usize,
    end_col: usize,
) -> (r: Result<Request, EngineError>)
    ensures
        match r {
            Ok(rq) => {
                &&& make_request_ok(old(session)@, a_type as int, key@, end_row, end_col)
                &&& rq@ == built_request(
                    old(session)@,
                    a_type as int,
                    key@,
                    tok,
                    end_row,
                    end_col,
                )
                &&& if a_type == 0 || a_type == 1 || a_type == 2 {
                    execute_ok(old(session)@, tok, rq@) && final(session)@ == execute_spec(
                        old(session)@,
                        tok,
                        rq@,
                    )
                } else {
                    final(session)@ == old(session)@
                }
            },
            Err(e) => {
                &&& final(session)@ == old(session)@
                &&& !(make_request_ok(old(session)@, a_type as int, key@, end_row, end_col) && (
                (a_type == 0 || a_type == 1 || a_type == 2) ==> execute_ok(
                    old(session)@,
                    tok,
                    built_request(old(session)@, a_type as int, key@, tok, end_row, end_col),
                )))
            },
        },
{
    session.make_request(a_type, key, tok, end_row, end_col)
}

/// Sorts the pending queue by caster initiative; see
/// `GameSession::sort_requests`.
pub fn sort_requests(session: &mut GameSession)
    ensures
        final(session)@ == (SessionV {
            requests: sort_buckets(old(session)@.characters, old(session)@.requests),
            ..old(session)@
        }),
        buckets_sorted(old(session)@.characters, final(session)@.requests),
{
    session.sort_requests();
}

/// Executes a single already-built request; see
/// `GameSession::execute_request`.
pub fn execute_request(session: &mut GameSession, request: &Request) -> (r: Result<
    (),
    EngineError,
>)
    ensures
        match r {
            Ok(()) => execute_ok(old(session)@, request@.caster, request@) && final(session)@
                == execute_spec(old(session)@, request@.caster, request@),
            Err(e) => !execute_ok(old(session)@, request@.caster, request@) && final(session)@
                == old(session)@,
        },
{
    session.execute_request(request.caster, request)
}

} // verus!
