//! The entities of a game session: effects, items, abilities, character
//! sheets, placed tokens, and player requests.

use vstd::prelude::*;

use crate::keymap::{Dup, KeyMap, KeySet};

verus! {

/// Duplicates a vector of characters.
pub fn dup_chars(v: &Vec<char>) -> (r: Vec<char>)
    ensures
        r@ == v@,
{
    let n = v.len();
    let mut r: Vec<char> = Vec::new();
    let mut i: usize = 0;
    while i < n
        invariant
            0 <= i <= n,
            n == v@.len(),
            r@ =~= v@.take(i as int),
        decreases n - i,
    {
        r.push(v[i]);
        assert(r@ =~= v@.take(i as int + 1));
        i = i + 1;
    }
    assert(v@.take(n as int) =~= v@);
    r
}

/// Duplicates a vector of strings.
pub fn dup_strings(v: &Vec<String>) -> (r: Vec<String>)
    ensures
        r@ == v@,
{
    let n = v.len();
    let mut r: Vec<String> = Vec::new();
    let mut i: usize = 0;
    while i < n
        invariant
            0 <= i <= n,
            n == v@.len(),
            r@ =~= v@.take(i as int),
        decreases n - i,
    {
        r.push(v[i].clone());
        assert(r@ =~= v@.take(i as int + 1));
        i = i + 1;
    }
    assert(v@.take(n as int) =~= v@);
    r
}

/// A temporary stat modifier: a buff, debuff, or recurring effect.
pub struct Effect {
    pub name: String,
    /// Remaining charges; each application consumes one.
    pub duration: i32,
    /// Name of the stat this effect modifies.
    pub target_stat: String,
    /// Lower bound of the modification; the only bound any deterministic
    /// path consults.
    pub modifier_low: i32,
    /// Upper bound of the modification; carried in data, never consulted.
    pub modifier_high: i32,
    /// True for a once-while-active modifier, false for a per-tick effect.
    pub temporary: bool,
}

pub ghost struct EffectV {
    pub name: Seq<char>,
    pub duration: i32,
    pub target_stat: Seq<char>,
    pub modifier_low: i32,
    pub modifier_high: i32,
    pub temporary: bool,
}

impl View for Effect {
    type V = EffectV;

    open spec fn view(&self) -> EffectV {
        EffectV {
            name: self.name@,
            duration: self.duration,
            target_stat: self.target_stat@,
            modifier_low: self.modifier_low,
            modifier_high: self.modifier_high,
            temporary: self.temporary,
        }
    }
}

impl DeepView for Effect {
    type V = EffectV;

    open spec fn deep_view(&self) -> EffectV {
        self@
    }
}

impl Dup for Effect {
    fn dup(&self) -> (r: Self)
        ensures
            r@ == self@,
    {
        Effect {
            name: self.name.clone(),
            duration: self.duration,
            target_stat: self.target_stat.clone(),
            modifier_low: self.modifier_low,
            modifier_high: self.modifier_high,
            temporary: self.temporary,
        }
    }
}

/// A consumable or piece of equipment.
pub struct Item {
    pub name: String,
    /// Remaining uses; a negative count means unlimited.
    pub uses: i32,
    pub weight: u16,
    /// Equipment slots this item occupies when equipped.
    pub slots: Vec<String>,
    /// Effects applied to the user on use or equip.
    pub effects: KeySet,
    /// Abilities granted while the item is equipped.
    pub abilities: KeySet,
}

pub ghost struct ItemV {
    pub name: Seq<char>,
    pub uses: i32,
    pub weight: u16,
    pub slots: Seq<Seq<char>>,
    pub effects: Seq<Seq<char>>,
    pub abilities: Seq<Seq<char>>,
}

impl View for Item {
    type V = ItemV;

    open spec fn view(&self) -> ItemV {
        ItemV {
            name: self.name@,
            uses: self.uses,
            weight: self.weight,
            slots: self.slots.deep_view(),
            effects: self.effects@,
            abilities: self.abilities@,
        }
    }
}

impl DeepView for Item {
    type V = ItemV;

    open spec fn deep_view(&self) -> ItemV {
        self@
    }
}

impl Dup for Item {
    fn dup(&self) -> (r: Self)
        ensures
            r@ == self@,
    {
        let r = Item {
            name: self.name.clone(),
            uses: self.uses,
            weight: self.weight,
            slots: dup_strings(&self.slots),
            effects: self.effects.dup(),
            abilities: self.abilities.dup(),
        };
        assert(r.slots.deep_view() =~= self.slots.deep_view());
        r
    }
}

/// A special action: a spell, an attack, or another invoked maneuver.
pub struct Ability {
    pub name: String,
    /// Maximum reach of the ability, in traversal units.
    pub range: i16,
    /// Action-point cost to cast.
    pub action_points: i8,
    /// Advisory casting-roll bounds; not consumed deterministically.
    pub roll_low: i32,
    pub roll_high: i32,
    /// Stat used as a modifier, if any.
    pub stat_modifier: Option<String>,
    /// Alternative requirement groups; at least one full group must hold.
    pub requirements: Vec<Vec<String>>,
    /// Effects applied to each target on success.
    pub target_effects: KeySet,
    /// Effects applied to the caster on success.
    pub caster_effects: KeySet,
}

pub ghost struct AbilityV {
    pub name: Seq<char>,
    pub range: i16,
    pub action_points: i8,
    pub roll_low: i32,
    pub roll_high: i32,
    pub stat_modifier: Option<Seq<char>>,
    pub requirements: Seq<Seq<Seq<char>>>,
    pub target_effects: Seq<Seq<char>>,
    pub caster_effects: Seq<Seq<char>>,
}

impl View for Ability {
    type V = AbilityV;

    open spec fn view(&self) -> AbilityV {
        AbilityV {
            name: self.name@,
            range: self.range,
            action_points: self.action_points,
            roll_low: self.roll_low,
            roll_high: self.roll_high,
            stat_modifier: match self.stat_modifier {
                Some(s) => Some(s@),
                None => None,
            },
            requirements: self.requirements.deep_view(),
            target_effects: self.target_effects@,
            caster_effects: self.caster_effects@,
        }
    }
}

impl DeepView for Ability {
    type V = AbilityV;

    open spec fn deep_view(&self) -> AbilityV {
        self@
    }
}

impl Dup for Ability {
    fn dup(&self) -> (r: Self)
        ensures
            r@ == self@,
    {
        let stat_modifier = match &self.stat_modifier {
            Some(s) => Some(s.clone()),
            None => None,
        };
        let n = self.requirements.len();
        let mut requirements: Vec<Vec<String>> = Vec::new();
        let mut i: usize = 0;
        while i < n
            invariant
                0 <= i <= n,
                n == self.requirements@.len(),
                requirements@.len() == i,
                forall|m: int| 0 <= m < i ==> (#[trigger] requirements@[m])@ == self.requirements@[m]@,
            decreases n - i,
        {
            requirements.push(dup_strings(&self.requirements[i]));
            i = i + 1;
        }
        let r = Ability {
            name: self.name.clone(),
            range: self.range,
            action_points: self.action_points,
            roll_low: self.roll_low,
            roll_high: self.roll_high,
            stat_modifier,
            requirements,
            target_effects: self.target_effects.dup(),
            caster_effects: self.caster_effects.dup(),
        };
        assert(r.requirements.deep_view() =~~= self.requirements.deep_view());
        r
    }
}

/// A character sheet: stats, traits, inventory, equipment, abilities, and
/// currently active effects, independent of placement.
pub struct Character {
    pub name: String,
    pub speed: i32,
    pub initiative: i8,
    pub hitpoints: i32,
    pub max_hp: i32,
    /// Named base stats, e.g. strength.
    pub stats: KeyMap<i16>,
    /// Permanent qualities of the character.
    pub traits: KeySet,
    /// Carried items, in acquisition order.
    pub items: Vec<Item>,
    /// Equipment-slot name to the item occupying it; one item per slot.
    pub equipment: KeyMap<Item>,
    /// Keys of the abilities this character can invoke.
    pub abilities: KeySet,
    /// Currently active effect instances, keyed by effect name.
    pub effects: KeyMap<Effect>,
}

pub ghost struct CharacterV {
    pub name: Seq<char>,
    pub speed: i32,
    pub initiative: i8,
    pub hitpoints: i32,
    pub max_hp: i32,
    pub stats: Map<Seq<char>, i16>,
    pub traits: Seq<Seq<char>>,
    pub items: Seq<ItemV>,
    pub equipment: Map<Seq<char>, ItemV>,
    pub abilities: Seq<Seq<char>>,
    pub effects: Map<Seq<char>, EffectV>,
}

impl View for Character {
    type V = CharacterV;

    open spec fn view(&self) -> CharacterV {
        CharacterV {
            name: self.name@,
            speed: self.speed,
            initiative: self.initiative,
            hitpoints: self.hitpoints,
            max_hp: self.max_hp,
            stats: self.stats@,
            traits: self.traits@,
            items: self.items.deep_view(),
            equipment: self.equipment@,
            abilities: self.abilities@,
            effects: self.effects@,
        }
    }
}

impl DeepView for Character {
    type V = CharacterV;

    open spec fn deep_view(&self) -> CharacterV {
        self@
    }
}

impl Dup for Character {
    fn dup(&self) -> (r: Self)
        ensures
            r@ == self@,
    {
        let n = self.items.len();
        let mut items: Vec<Item> = Vec::new();
        let mut i: usize = 0;
        while i < n
            invariant
                0 <= i <= n,
                n == self.items@.len(),
                items@.len() == i,
                forall|m: int| 0 <= m < i ==> (#[trigger] items@[m])@ == self.items@[m]@,
            decreases n - i,
        {
            items.push(self.items[i].dup());
            i = i + 1;
        }
        let r = Character {
            name: self.name.clone(),
            speed: self.speed,
            initiative: self.initiative,
            hitpoints: self.hitpoints,
            max_hp: self.max_hp,
            stats: self.stats.dup(),
            traits: self.traits.dup(),
            items,
            equipment: self.equipment.dup(),
            abilities: self.abilities.dup(),
            effects: self.effects.dup(),
        };
        assert(r.items.deep_view() =~= self.items.deep_view());
        r
    }
}

/// A placed, positioned instance of a character on the grid.
pub struct Token {
    pub row: usize,
    pub column: usize,
    /// Priority used only to order request execution.
    pub initiative: Option<i8>,
    /// The character sheet this token carries.
    pub sheet: Character,
}

pub ghost struct TokenV {
    pub row: usize,
    pub column: usize,
    pub initiative: Option<i8>,
    pub sheet: CharacterV,
}

impl View for Token {
    type V = TokenV;

    open spec fn view(&self) -> TokenV {
        TokenV {
            row: self.row,
            column: self.column,
            initiative: self.initiative,
            sheet: self.sheet@,
        }
    }
}

impl DeepView for Token {
    type V = TokenV;

    open spec fn deep_view(&self) -> TokenV {
        self@
    }
}

impl Dup for Token {
    fn dup(&self) -> (r: Self)
        ensures
            r@ == self@,
    {
        Token {
            row: self.row,
            column: self.column,
            initiative: self.initiative,
            sheet: self.sheet.dup(),
        }
    }
}

/// Action kind: move to a target cell.
pub const ACTION_MOVE: i32 = 0;

/// Action kind: use the inventory item named by index.
pub const ACTION_USE_ITEM: i32 = 1;

/// Action kind: invoke an ability, optionally on targets.
pub const ACTION_USE_ABILITY: i32 = 2;

/// Action kind: unequip the item in a slot.
pub const ACTION_UNEQUIP: i32 = 3;

/// A queued, caster-attributed description of an intended action awaiting
/// ordering and execution.
#[derive(Debug)]
pub struct Request {
    /// Identifier of the casting token.
    pub caster: char,
    /// One of the action kinds above.
    pub action_type: i32,
    /// What is used: an ability key, an inventory index rendered as
    /// digits, or an equipment slot, depending on the action kind.
    pub subtype_key: Option<String>,
    /// Target coordinates; absent means the action applies to the caster.
    pub target_cell: Option<(usize, usize)>,
    /// Identifiers of the targeted tokens, if any.
    pub target_tokens: Option<Vec<char>>,
}

pub ghost struct RequestV {
    pub caster: char,
    pub action_type: i32,
    pub subtype_key: Option<Seq<char>>,
    pub target_cell: Option<(usize, usize)>,
    pub target_tokens: Option<Seq<char>>,
}

impl View for Request {
    type V = RequestV;

    open spec fn view(&self) -> RequestV {
        RequestV {
            caster: self.caster,
            action_type: self.action_type,
            subtype_key: match self.subtype_key {
                Some(s) => Some(s@),
                None => None,
            },
            target_cell: self.target_cell,
            target_tokens: match self.target_tokens {
                Some(v) => Some(v@),
                None => None,
            },
        }
    }
}

impl DeepView for Request {
    type V = RequestV;

    open spec fn deep_view(&self) -> RequestV {
        self@
    }
}

impl Dup for Request {
    fn dup(&self) -> (r: Self)
        ensures
            r@ == self@,
    {
        let subtype_key = match &self.subtype_key {
            Some(s) => Some(s.clone()),
            None => None,
        };
        let target_tokens = match &self.target_tokens {
            Some(v) => Some(dup_chars(v)),
            None => None,
        };
        Request {
            caster: self.caster,
            action_type: self.action_type,
            subtype_key,
            target_cell: self.target_cell,
            target_tokens,
        }
    }
}

} // verus!
