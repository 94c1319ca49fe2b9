//! The aggregate session store: grid, placed tokens, unplaced sheets, the
//! three entity catalogs, and the pending request queue, together with
//! the operations the engine exposes over them.

use vstd::prelude::*;
use vstd::string::StrSliceExecFns;
use vstd::string::StringExecFns;

use crate::data::{
    Ability, AbilityV, Character, CharacterV, Effect, EffectV, Item, ItemV, Request, RequestV,
    Token, TokenV,
};
use crate::grid::{Grid, GridV, EMPTY};
use crate::keymap::{CharMap, Dup, KeyMap, KeySet};
use crate::EngineError;

verus! {

/// A game session: the aggregate root every engine operation works on.
pub struct GameSession {
    /// Tokens placed on the grid, by identifier.
    pub characters: CharMap<Token>,
    /// Unplaced character sheets, by identifier.
    pub sheets: CharMap<Character>,
    /// Catalog of ability definitions.
    pub abilities: KeyMap<Ability>,
    /// Catalog of effect definitions.
    pub effects: KeyMap<Effect>,
    /// Catalog of item definitions.
    pub items: KeyMap<Item>,
    /// The board.
    pub grid: Grid,
    /// Pending requests, grouped per caster in insertion order.
    pub requests: Vec<(char, Vec<Request>)>,
}

/// Abstract value of a session.
pub ghost struct SessionV {
    pub characters: Map<char, TokenV>,
    pub sheets: Map<char, CharacterV>,
    pub abilities: Map<Seq<char>, AbilityV>,
    pub effects: Map<Seq<char>, EffectV>,
    pub items: Map<Seq<char>, ItemV>,
    pub grid: GridV,
    pub requests: Seq<(char, Seq<RequestV>)>,
}

impl View for GameSession {
    type V = SessionV;

    open spec fn view(&self) -> SessionV {
        SessionV {
            characters: self.characters@,
            sheets: self.sheets@,
            abilities: self.abilities@,
            effects: self.effects@,
            items: self.items@,
            grid: self.grid@,
            requests: self.requests.deep_view(),
        }
    }
}

/// The view of an empty session.
pub open spec fn empty_session() -> SessionV {
    SessionV {
        characters: Map::empty(),
        sheets: Map::empty(),
        abilities: Map::empty(),
        effects: Map::empty(),
        items: Map::empty(),
        grid: GridV { rows: 0, cols: 0, cells: Seq::empty() },
        requests: Seq::empty(),
    }
}

impl GameSession {
    /// A session with empty defaults.
    pub fn new() -> (r: Self)
        ensures
            r@ == empty_session(),
    {
        let r = GameSession {
            characters: CharMap::new(),
            sheets: CharMap::new(),
            abilities: KeyMap::new(),
            effects: KeyMap::new(),
            items: KeyMap::new(),
            grid: Grid::new(),
            requests: Vec::new(),
        };
        proof {
            assert(r.requests.deep_view() =~= Seq::<(char, Seq<RequestV>)>::empty());
            assert(r@.grid.cells =~= Seq::<char>::empty());
        }
        r
    }
}

/// Replaces the current session with a previously exported one.
pub fn load_game(session: &mut GameSession, data: GameSession)
    ensures
        final(session)@ == data@,
{
    *session = data;
}

/// A copy of a session that keeps every catalog, sheet, token and the
/// grid, and drops the pending request queue.
fn copy_session(session: &GameSession) -> (r: GameSession)
    ensures
        r@.characters == session@.characters,
        r@.sheets == session@.sheets,
        r@.abilities == session@.abilities,
        r@.effects == session@.effects,
        r@.items == session@.items,
        r@.grid == session@.grid,
        r@.requests == Seq::<(char, Seq<RequestV>)>::empty(),
{
    let r = GameSession {
        characters: session.characters.dup(),
        sheets: session.sheets.dup(),
        abilities: session.abilities.dup(),
        effects: session.effects.dup(),
        items: session.items.dup(),
        grid: Grid {
            rows: session.grid.rows,
            cols: session.grid.cols,
            cells: crate::data::dup_chars(&session.grid.cells),
        },
        requests: Vec::new(),
    };
    proof {
        assert(r.requests.deep_view() =~= Seq::<(char, Seq<RequestV>)>::empty());
    }
    r
}

/// Exports the session for persistence: the full state except the
/// pending request queue.
pub fn export_game(session: &GameSession) -> (r: GameSession)
    ensures
        r@.characters == session@.characters,
        r@.sheets == session@.sheets,
        r@.abilities == session@.abilities,
        r@.effects == session@.effects,
        r@.items == session@.items,
        r@.grid == session@.grid,
        r@.requests == Seq::<(char, Seq<RequestV>)>::empty(),
{
    copy_session(session)
}

/// Resets the session to empty defaults.
pub fn reset_session(session: &mut GameSession)
    ensures
        final(session)@ == empty_session(),
{
    let fresh = GameSession::new();
    *session = fresh;
}

/// The marker at a grid coordinate.
pub fn get_char(session: &GameSession, row: usize, col: usize) -> (r: Result<char, EngineError>)
    ensures
        match r {
            Ok(ch) => session@.grid.wf() && session@.grid.in_bounds(row as int, col as int) && ch
                == session@.grid.at(row as int, col as int),
            Err(e) => {
                &&& e == EngineError::OutOfBounds
                &&& !(session@.grid.wf() && session@.grid.in_bounds(row as int, col as int))
            },
        },
{
    if !session.grid.check_wf() || !session.grid.in_bounds(row, col) {
        return Err(EngineError::OutOfBounds);
    }
    Ok(session.grid.at(row, col))
}

/// The character sheet of the token occupying a grid coordinate.
pub fn find_character<'a>(session: &'a GameSession, row: usize, col: usize) -> (r: Result<
    &'a Character,
    EngineError,
>)
    ensures
        match r {
            Ok(c) => {
                &&& session@.grid.wf()
                &&& session@.grid.in_bounds(row as int, col as int)
                &&& session@.characters.contains_key(
                    session@.grid.at(row as int, col as int),
                )
                &&& c@ == session@.characters[session@.grid.at(row as int, col as int)].sheet
            },
            Err(e) => if !(session@.grid.wf() && session@.grid.in_bounds(
                row as int,
                col as int,
            )) {
                e == EngineError::OutOfBounds
            } else {
                e == EngineError::NotFound && !session@.characters.contains_key(
                    session@.grid.at(row as int, col as int),
                )
            },
        },
{
    if !session.grid.check_wf() || !session.grid.in_bounds(row, col) {
        return Err(EngineError::OutOfBounds);
    }
    let marker = session.grid.at(row, col);
    match session.characters.get(marker) {
        None => Err(EngineError::NotFound),
        Some(t) => Ok(&t.sheet),
    }
}

/// The character sheet of the placed token with the given identifier.
pub fn get_character<'a>(session: &'a GameSession, key: char) -> (r: Result<
    &'a Character,
    EngineError,
>)
    ensures
        match r {
            Ok(c) => session@.characters.contains_key(key) && c@
                == session@.characters[key].sheet,
            Err(e) => e == EngineError::NotFound && !session@.characters.contains_key(key),
        },
{
    match session.characters.get(key) {
        None => Err(EngineError::NotFound),
        Some(t) => Ok(&t.sheet),
    }
}

/// The row and column dimensions of the grid.
pub fn get_dimensions(session: &GameSession) -> (r: (usize, usize))
    ensures
        r.0 == session@.grid.rows,
        r.1 == session@.grid.cols,
{
    session.grid.dims()
}

/// The grid as a flattened row-major sequence of markers.
pub fn board_to_string(session: &GameSession) -> (r: Vec<char>)
    ensures
        r@ == session@.grid.cells,
{
    crate::data::dup_chars(&session.grid.cells)
}

/// Manhattan distance between two cells.
pub fn get_cell_distance(src_row: i32, src_col: i32, end_row: i32, end_col: i32) -> (r: i64)
    ensures
        r == (if end_row >= src_row {
            end_row - src_row
        } else {
            src_row - end_row
        }) + (if end_col >= src_col {
            end_col - src_col
        } else {
            src_col - end_col
        }),
{
    let dr: i64 = if end_row >= src_row {
        end_row as i64 - src_row as i64
    } else {
        src_row as i64 - end_row as i64
    };
    let dc: i64 = if end_col >= src_col {
        end_col as i64 - src_col as i64
    } else {
        src_col as i64 - end_col as i64
    };
    dr + dc
}

/// Candidate cells reachable from an origin in the requested mode.
pub fn collect_cell_options(
    session: &GameSession,
    row: usize,
    column: usize,
    range: i32,
    target: bool,
) -> (r: Result<crate::geometry::CellSet, EngineError>)
    ensures
        match r {
            Ok(cs) => {
                &&& session@.grid.wf()
                &&& session@.grid.in_bounds(row as int, column as int)
                &&& cs@ == crate::geometry::action_range(
                    session@.grid,
                    row as int,
                    column as int,
                    range as int,
                    target,
                )
            },
            Err(e) => {
                &&& e == EngineError::OutOfBounds
                &&& !(session@.grid.wf() && session@.grid.in_bounds(row as int, column as int))
            },
        },
{
    if !session.grid.check_wf() || !session.grid.in_bounds(row, column) {
        return Err(EngineError::OutOfBounds);
    }
    Ok(crate::geometry::get_action_range(&session.grid, row, column, range, target))
}

} // verus!

verus! {

/// Adds a character sheet to the unplaced registry under identifier
/// `tok`, with the six standard base stats and an optional trait.
pub fn add_character(
    session: &mut GameSession,
    tok: char,
    nm: String,
    sp: i32,
    iv: i8,
    hp: i32,
    mp: i32,
    st: i16,
    dx: i16,
    cn: i16,
    it: i16,
    ws: i16,
    ch: i16,
    tr: Option<String>,
)
    ensures
        final(session)@ == (SessionV {
            sheets: old(session)@.sheets.insert(
                tok,
                CharacterV {
                    name: nm@,
                    speed: sp,
                    initiative: iv,
                    hitpoints: hp,
                    max_hp: mp,
                    stats: Map::empty().insert("Strength"@, st).insert("Dexterity"@, dx).insert(
                        "Constitution"@,
                        cn,
                    ).insert("Intelligence"@, it).insert("Wisdom"@, ws).insert("Charisma"@, ch),
                    traits: match tr {
                        Some(t) => Seq::empty().push(t@),
                        None => Seq::empty(),
                    },
                    items: Seq::empty(),
                    equipment: Map::empty(),
                    abilities: Seq::empty(),
                    effects: Map::empty(),
                },
            ),
            ..old(session)@
        }),
{
    let mut sheet = Character {
        name: nm,
        speed: sp,
        initiative: iv,
        hitpoints: hp,
        max_hp: mp,
        stats: KeyMap::new(),
        traits: KeySet::new(),
        items: Vec::new(),
        equipment: KeyMap::new(),
        abilities: KeySet::new(),
        effects: KeyMap::new(),
    };
    match tr {
        Some(t) => {
            sheet.traits.insert(t);
        },
        None => {},
    }
    sheet.stats.insert(String::from_str("Strength"), st);
    sheet.stats.insert(String::from_str("Dexterity"), dx);
    sheet.stats.insert(String::from_str("Constitution"), cn);
    sheet.stats.insert(String::from_str("Intelligence"), it);
    sheet.stats.insert(String::from_str("Wisdom"), ws);
    sheet.stats.insert(String::from_str("Charisma"), ch);
    proof {
        assert(sheet.items.deep_view() =~= Seq::<ItemV>::empty());
    }
    session.sheets.insert(tok, sheet);
}

/// Adds an item definition to the item catalog under its name.
pub fn add_item(
    session: &mut GameSession,
    name: String,
    uses: i32,
    wgt: u16,
    slot: Option<String>,
    effx: Option<String>,
    abil: Option<String>,
)
    ensures
        final(session)@ == (SessionV {
            items: old(session)@.items.insert(
                name@,
                ItemV {
                    name: name@,
                    uses: uses,
                    weight: wgt,
                    slots: match slot {
                        Some(s) => Seq::empty().push(s@),
                        None => Seq::empty(),
                    },
                    effects: match effx {
                        Some(e) => Seq::empty().push(e@),
                        None => Seq::empty(),
                    },
                    abilities: match abil {
                        Some(a) => Seq::empty().push(a@),
                        None => Seq::empty(),
                    },
                },
            ),
            ..old(session)@
        }),
{
    let key = name.clone();
    let mut item = Item {
        name,
        uses,
        weight: wgt,
        slots: Vec::new(),
        effects: KeySet::new(),
        abilities: KeySet::new(),
    };
    match slot {
        Some(s) => {
            let ghost sv = s@;
            item.slots.push(s);
            assert(item.slots.deep_view() =~= Seq::<Seq<char>>::empty().push(sv));
        },
        None => {
            assert(item.slots.deep_view() =~= Seq::<Seq<char>>::empty());
        },
    }
    match effx {
        Some(e) => {
            item.effects.insert(e);
        },
        None => {},
    }
    match abil {
        Some(a) => {
            item.abilities.insert(a);
        },
        None => {},
    }
    session.items.insert(key, item);
}

/// Adds an ability definition to the ability catalog under its name.
pub fn add_ability(
    session: &mut GameSession,
    nm: String,
    ran: i16,
    ap: i8,
    low: i32,
    high: i32,
    stat: Option<String>,
    req: Option<String>,
    tar: Option<String>,
    cas: Option<String>,
)
    ensures
        final(session)@ == (SessionV {
            abilities: old(session)@.abilities.insert(
                nm@,
                AbilityV {
                    name: nm@,
                    range: ran,
                    action_points: ap,
                    roll_low: low,
                    roll_high: high,
                    stat_modifier: match stat {
                        Some(s) => Some(s@),
                        None => None,
                    },
                    requirements: match req {
                        Some(r) => Seq::empty().push(Seq::empty().push(r@)),
                        None => Seq::empty(),
                    },
                    target_effects: match tar {
                        Some(t) => Seq::empty().push(t@),
                        None => Seq::empty(),
                    },
                    caster_effects: match cas {
                        Some(c) => Seq::empty().push(c@),
                        None => Seq::empty(),
                    },
                },
            ),
            ..old(session)@
        }),
{
    let key = nm.clone();
    let mut ability = Ability {
        name: nm,
        range: ran,
        action_points: ap,
        roll_low: low,
        roll_high: high,
        stat_modifier: stat,
        requirements: Vec::new(),
        target_effects: KeySet::new(),
        caster_effects: KeySet::new(),
    };
    match req {
        Some(r) => {
            let ghost rv = r@;
            let mut group: Vec<String> = Vec::new();
            group.push(r);
            assert(group.deep_view() =~= Seq::<Seq<char>>::empty().push(rv));
            ability.requirements.push(group);
            assert(ability.requirements.deep_view() =~~= Seq::<Seq<Seq<char>>>::empty().push(
                Seq::<Seq<char>>::empty().push(rv),
            ));
        },
        None => {
            assert(ability.requirements.deep_view() =~~= Seq::<Seq<Seq<char>>>::empty());
        },
    }
    match tar {
        Some(t) => {
            ability.target_effects.insert(t);
        },
        None => {},
    }
    match cas {
        Some(c) => {
            ability.caster_effects.insert(c);
        },
        None => {},
    }
    session.abilities.insert(key, ability);
}

/// Adds an effect definition to the effect catalog under its name.
pub fn add_effect(
    session: &mut GameSession,
    nm: String,
    dur: i32,
    target: String,
    low: i32,
    high: i32,
    temp: bool,
)
    ensures
        final(session)@ == (SessionV {
            effects: old(session)@.effects.insert(
                nm@,
                EffectV {
                    name: nm@,
                    duration: dur,
                    target_stat: target@,
                    modifier_low: low,
                    modifier_high: high,
                    temporary: temp,
                },
            ),
            ..old(session)@
        }),
{
    let key = nm.clone();
    let effect = Effect {
        name: nm,
        duration: dur,
        target_stat: target,
        modifier_low: low,
        modifier_high: high,
        temporary: temp,
    };
    session.effects.insert(key, effect);
}

/// Gives a clone of a cataloged item to an unplaced sheet's inventory.
pub fn give_item(session: &mut GameSession, tok: char, item_key: &String) -> (r: Result<
    (),
    EngineError,
>)
    ensures
        match r {
            Ok(()) => {
                &&& old(session)@.items.contains_key(item_key@)
                &&& old(session)@.sheets.contains_key(tok)
                &&& final(session)@ == (SessionV {
                    sheets: old(session)@.sheets.insert(
                        tok,
                        CharacterV {
                            items: old(session)@.sheets[tok].items.push(
                                old(session)@.items[item_key@],
                            ),
                            ..old(session)@.sheets[tok]
                        },
                    ),
                    ..old(session)@
                })
            },
            Err(e) => {
                &&& e == EngineError::NotFound
                &&& !(old(session)@.items.contains_key(item_key@)
                    && old(session)@.sheets.contains_key(tok))
                &&& *final(session) == *old(session)
            },
        },
{
    let new_item = match session.items.get(item_key) {
        None => {
            return Err(EngineError::NotFound);
        },
        Some(i) => i.dup(),
    };
    if !session.sheets.contains_key(tok) {
        return Err(EngineError::NotFound);
    }
    let mut sheet = match session.sheets.take_out(tok) {
        None => {
            proof {
                assert(false);
            }
            return Err(EngineError::NotFound);
        },
        Some(s) => s,
    };
    let ghost sheet0 = sheet@;
    sheet.items.push(new_item);
    proof {
        assert(sheet.items.deep_view() =~= sheet0.items.push(old(session)@.items[item_key@]));
    }
    session.sheets.insert(tok, sheet);
    proof {
        assert(final(session)@.sheets =~= old(session)@.sheets.insert(tok, sheet@));
    }
    Ok(())
}

/// Gives an ability key to an unplaced sheet.
pub fn give_ability(session: &mut GameSession, tok: char, abil_key: String) -> (r: Result<
    (),
    EngineError,
>)
    ensures
        match r {
            Ok(()) => {
                &&& old(session)@.sheets.contains_key(tok)
                &&& final(session)@ == (SessionV {
                    sheets: old(session)@.sheets.insert(
                        tok,
                        CharacterV {
                            abilities: crate::keymap::set_insert(
                                old(session)@.sheets[tok].abilities,
                                abil_key@,
                            ),
                            ..old(session)@.sheets[tok]
                        },
                    ),
                    ..old(session)@
                })
            },
            Err(e) => {
                &&& e == EngineError::NotFound
                &&& !old(session)@.sheets.contains_key(tok)
                &&& *final(session) == *old(session)
            },
        },
{
    let mut sheet = match session.sheets.take_out(tok) {
        None => {
            return Err(EngineError::NotFound);
        },
        Some(s) => s,
    };
    sheet.abilities.insert(abil_key);
    session.sheets.insert(tok, sheet);
    proof {
        assert(final(session)@.sheets =~= old(session)@.sheets.insert(tok, sheet@));
    }
    Ok(())
}

} // verus!

verus! {

/// Places an unplaced sheet on the grid at `(row, col)` as a token.
///
/// Fails closed: `OutOfBounds` when the grid shape or the coordinate is
/// bad, `InvalidPlacement` when the destination cell is not empty, and
/// `NotFound` when no unplaced sheet has the identifier.
pub fn place_token(session: &mut GameSession, tok: char, row: usize, col: usize) -> (r: Result<
    (),
    EngineError,
>)
    ensures
        match r {
            Ok(()) => {
                &&& old(session)@.grid.wf()
                &&& old(session)@.grid.in_bounds(row as int, col as int)
                &&& old(session)@.grid.at(row as int, col as int) == crate::grid::EMPTY
                &&& old(session)@.sheets.contains_key(tok)
                &&& final(session)@ == (SessionV {
                    sheets: old(session)@.sheets.remove(tok),
                    characters: old(session)@.characters.insert(
                        tok,
                        TokenV {
                            row: row,
                            column: col,
                            initiative: Some(old(session)@.sheets[tok].initiative),
                            sheet: old(session)@.sheets[tok],
                        },
                    ),
                    grid: old(session)@.grid.write(row as int, col as int, tok),
                    ..old(session)@
                })
            },
            Err(e) => {
                &&& final(session)@ == old(session)@
                &&& if !(old(session)@.grid.wf() && old(session)@.grid.in_bounds(
                    row as int,
                    col as int,
                )) {
                    e == EngineError::OutOfBounds
                } else if old(session)@.grid.at(row as int, col as int) != crate::grid::EMPTY {
                    e == EngineError::InvalidPlacement
                } else {
                    e == EngineError::NotFound && !old(session)@.sheets.contains_key(tok)
                }
            },
        },
{
    if !session.grid.check_wf() || !session.grid.in_bounds(row, col) {
        return Err(EngineError::OutOfBounds);
    }
    if session.grid.at(row, col) != EMPTY {
        return Err(EngineError::InvalidPlacement);
    }
    let sheet = match session.sheets.take_out(tok) {
        None => {
            assert(session@ =~= old(session)@);
            return Err(EngineError::NotFound);
        },
        Some(s) => s,
    };
    let initiative = sheet.initiative;
    let token = Token { row, column: col, initiative: Some(initiative), sheet };
    session.grid.set(row, col, tok);
    session.characters.insert(tok, token);
    Ok(())
}

/// Toggles the cell at `(row, col)`: an empty cell becomes blocking; a
/// blocking cell becomes empty; a cell occupied by a token returns the
/// token's sheet to the unplaced registry and clears the cell. Returns
/// the new marker of the cell.
pub fn toggle_cell(session: &mut GameSession, row: usize, col: usize) -> (r: Result<
    char,
    EngineError,
>)
    ensures
        match r {
            Ok(ch) => {
                &&& old(session)@.grid.wf()
                &&& old(session)@.grid.in_bounds(row as int, col as int)
                &&& {
                    let marker = old(session)@.grid.at(row as int, col as int);
                    if marker == crate::grid::EMPTY {
                        &&& ch == crate::grid::BLOCKED
                        &&& final(session)@ == (SessionV {
                            grid: old(session)@.grid.write(
                                row as int,
                                col as int,
                                crate::grid::BLOCKED,
                            ),
                            ..old(session)@
                        })
                    } else if marker == crate::grid::BLOCKED {
                        &&& ch == crate::grid::EMPTY
                        &&& final(session)@ == (SessionV {
                            grid: old(session)@.grid.write(
                                row as int,
                                col as int,
                                crate::grid::EMPTY,
                            ),
                            ..old(session)@
                        })
                    } else {
                        &&& ch == crate::grid::EMPTY
                        &&& old(session)@.characters.contains_key(marker)
                        &&& final(session)@ == (SessionV {
                            characters: old(session)@.characters.remove(marker),
                            sheets: old(session)@.sheets.insert(
                                marker,
                                old(session)@.characters[marker].sheet,
                            ),
                            grid: old(session)@.grid.write(
                                row as int,
                                col as int,
                                crate::grid::EMPTY,
                            ),
                            ..old(session)@
                        })
                    }
                }
            },
            Err(e) => {
                &&& final(session)@ == old(session)@
                &&& if !(old(session)@.grid.wf() && old(session)@.grid.in_bounds(
                    row as int,
                    col as int,
                )) {
                    e == EngineError::OutOfBounds
                } else {
                    let marker = old(session)@.grid.at(row as int, col as int);
                    &&& marker != crate::grid::EMPTY
                    &&& marker != crate::grid::BLOCKED
                    &&& e == EngineError::NotFound
                    &&& !old(session)@.characters.contains_key(marker)
                }
            },
        },
{
    if !session.grid.check_wf() || !session.grid.in_bounds(row, col) {
        return Err(EngineError::OutOfBounds);
    }
    let marker = session.grid.at(row, col);
    if marker == EMPTY {
        session.grid.set(row, col, crate::grid::BLOCKED);
        Ok(crate::grid::BLOCKED)
    } else if marker == crate::grid::BLOCKED {
        session.grid.set(row, col, EMPTY);
        Ok(EMPTY)
    } else {
        let token = match session.characters.take_out(marker) {
            None => {
                assert(session@ =~= old(session)@);
                return Err(EngineError::NotFound);
            },
            Some(t) => t,
        };
        session.sheets.insert(marker, token.sheet);
        session.grid.set(row, col, EMPTY);
        Ok(EMPTY)
    }
}

/// Resizes the grid to the given dimensions: overlapping cells keep
/// their markers, new cells are padded empty, and truncation drops the
/// far edge. Tokens are left untouched.
pub fn resize_board(session: &mut GameSession, rows: usize, cols: usize) -> (r: Result<
    (),
    EngineError,
>)
    ensures
        match r {
            Ok(()) => {
                &&& old(session)@.grid.wf()
                &&& final(session)@.grid.wf()
                &&& final(session)@.grid.rows == rows
                &&& final(session)@.grid.cols == cols
                &&& forall|r2: int, c2: int|
                    final(session)@.grid.in_bounds(r2, c2)
                        ==> #[trigger] final(session)@.grid.at(r2, c2) == if old(
                        session,
                    )@.grid.in_bounds(r2, c2) {
                        old(session)@.grid.at(r2, c2)
                    } else {
                        crate::grid::EMPTY
                    }
                &&& final(session)@ == (SessionV { grid: final(session)@.grid, ..old(session)@ })
            },
            Err(e) => {
                &&& e == EngineError::OutOfBounds
                &&& final(session)@ == old(session)@
                &&& !(old(session)@.grid.wf() && rows * cols <= usize::MAX)
            },
        },
{
    if !session.grid.check_wf() {
        return Err(EngineError::OutOfBounds);
    }
    let resized = match session.grid.resized(rows, cols) {
        Err(e) => {
            return Err(e);
        },
        Ok(g) => g,
    };
    session.grid = resized;
    Ok(())
}

impl GameSession {
    /// Rebuilds the grid from a flattened marker string of the given row
    /// width. The input length must be an exact multiple of the width.
    pub fn board_from_str(&mut self, input: &str, width: usize) -> (r: Result<(), EngineError>)
        ensures
            match r {
                Ok(()) => {
                    &&& (if width == 0 {
                        input@.len() == 0
                    } else {
                        input@.len() as int % (width as int) == 0
                    })
                    &&& final(self)@ == (SessionV {
                        grid: GridV {
                            rows: if width == 0 {
                                0
                            } else {
                                input@.len() as int / (width as int)
                            },
                            cols: width as int,
                            cells: input@,
                        },
                        ..old(self)@
                    })
                    &&& final(self)@.grid.wf()
                },
                Err(e) => {
                    &&& e == EngineError::OutOfBounds
                    &&& final(self)@ == old(self)@
                    &&& !(if width == 0 {
                        input@.len() == 0
                    } else {
                        input@.len() as int % (width as int) == 0
                    })
                },
            },
    {
        let n = input.unicode_len();
        if width == 0 {
            if n != 0 {
                return Err(EngineError::OutOfBounds);
            }
            self.grid = Grid { rows: 0, cols: 0, cells: Vec::new() };
            proof {
                assert(self@.grid.cells =~= input@);
                assert(self@.grid == GridV { rows: 0, cols: 0, cells: input@ });
                assert(self@ == (SessionV {
                    grid: GridV { rows: 0, cols: 0, cells: input@ },
                    ..old(self)@
                }));
            }
            return Ok(());
        }
        if n % width != 0 {
            return Err(EngineError::OutOfBounds);
        }
        let rows = n / width;
        let mut cells: Vec<char> = Vec::new();
        let mut i: usize = 0;
        while i < n
            invariant
                0 <= i <= n,
                n == input@.len(),
                cells@.len() == i,
                forall|m: int| 0 <= m < i ==> #[trigger] cells@[m] == input@[m],
            decreases n - i,
        {
            cells.push(input.get_char(i));
            i = i + 1;
        }
        proof {
            assert(cells@ =~= input@);
        }
        self.grid = Grid { rows, cols: width, cells };
        proof {
            assert(n as int % width as int == 0);
            assert(rows as int == n as int / width as int);
            vstd::arithmetic::div_mod::lemma_fundamental_div_mod(n as int, width as int);
            assert(n as int == width as int * rows as int);
            assert(width as int * rows as int == rows as int * width as int) by (nonlinear_arith);
            assert(self@.grid.wf());
        }
        Ok(())
    }

    /// Stamps every placed token's identifier onto its recorded grid
    /// cell, in token-table order. Fails closed, changing nothing, when
    /// the grid shape is bad or some token's position lies outside it.
    pub fn place_tokens(&mut self) -> (r: Result<(), EngineError>)
        ensures
            match r {
                Ok(()) => {
                    &&& old(self)@.grid.wf()
                    &&& final(self)@ == (SessionV {
                        grid: write_tokens(old(self)@.grid, old(self).characters.kv()),
                        ..old(self)@
                    })
                },
                Err(e) => {
                    &&& e == EngineError::OutOfBounds
                    &&& final(self)@ == old(self)@
                    &&& !(old(self)@.grid.wf() && (forall|m: int|
                        0 <= m < old(self).characters.kv().len()
                            ==> old(self)@.grid.in_bounds(
                            (#[trigger] old(self).characters.kv()[m]).1.row as int,
                            old(self).characters.kv()[m].1.column as int,
                        )))
                },
            },
    {
        if !self.grid.check_wf() {
            return Err(EngineError::OutOfBounds);
        }
        let n = self.characters.entry_count();
        let mut i: usize = 0;
        while i < n
            invariant
                0 <= i <= n,
                n == self.characters.kv().len(),
                self == old(self),
                self@.grid.wf(),
                forall|m: int|
                    0 <= m < i ==> self@.grid.in_bounds(
                        (#[trigger] self.characters.kv()[m]).1.row as int,
                        self.characters.kv()[m].1.column as int,
                    ),
            decreases n - i,
        {
            let t = self.characters.val_at(i);
            if !self.grid.in_bounds(t.row, t.column) {
                return Err(EngineError::OutOfBounds);
            }
            i = i + 1;
        }
        let ghost g0 = self@.grid;
        let ghost kv = self.characters.kv();
        let mut j: usize = 0;
        while j < n
            invariant
                0 <= j <= n,
                n == kv.len(),
                kv == self.characters.kv(),
                self.characters == old(self).characters,
                self.sheets == old(self).sheets,
                self.abilities == old(self).abilities,
                self.effects == old(self).effects,
                self.items == old(self).items,
                self.requests == old(self).requests,
                g0 == old(self)@.grid,
                self@.grid == write_tokens(g0, kv.take(j as int)),
                self@.grid.wf(),
                self@.grid.rows == g0.rows,
                self@.grid.cols == g0.cols,
                forall|m: int|
                    0 <= m < n ==> g0.in_bounds(
                        (#[trigger] kv[m]).1.row as int,
                        kv[m].1.column as int,
                    ),
            decreases n - j,
        {
            let key = self.characters.key_at(j);
            let t_row: usize;
            let t_col: usize;
            {
                let t = self.characters.val_at(j);
                t_row = t.row;
                t_col = t.column;
            }
            self.grid.set(t_row, t_col, key);
            proof {
                assert(kv.take(j as int + 1).drop_last() =~= kv.take(j as int));
                assert(kv.take(j as int + 1).last() == kv[j as int]);
            }
            j = j + 1;
        }
        proof {
            assert(kv.take(n as int) =~= kv);
        }
        Ok(())
    }
}

/// The grid after stamping each listed token's identifier onto its
/// recorded cell, in list order.
pub open spec fn write_tokens(g: GridV, kv: Seq<(char, TokenV)>) -> GridV
    decreases kv.len(),
{
    if kv.len() == 0 {
        g
    } else {
        write_tokens(g, kv.drop_last()).write(
            kv.last().1.row as int,
            kv.last().1.column as int,
            kv.last().0,
        )
    }
}

} // verus!

verus! {

impl GameSession {
    /// Moves a placed token to an empty destination cell: the source
    /// cell is vacated, the destination is occupied, and the token's
    /// coordinates are updated.
    ///
    /// Fails closed, changing nothing: `OutOfBounds` for a bad grid
    /// shape, destination, or recorded source position; a move onto a
    /// non-empty destination is refused as `InvalidPlacement`; an
    /// unknown token is `NotFound`.
    pub fn move_token(&mut self, token: char, new_row: usize, new_col: usize) -> (r: Result<
        (),
        EngineError,
    >)
        ensures
            match r {
                Ok(()) => {
                    &&& old(self)@.grid.wf()
                    &&& old(self)@.grid.in_bounds(new_row as int, new_col as int)
                    &&& old(self)@.grid.at(new_row as int, new_col as int) == crate::grid::EMPTY
                    &&& old(self)@.characters.contains_key(token)
                    &&& old(self)@.grid.in_bounds(
                        old(self)@.characters[token].row as int,
                        old(self)@.characters[token].column as int,
                    )
                    &&& final(self)@ == (SessionV {
                        characters: old(self)@.characters.insert(
                            token,
                            TokenV {
                                row: new_row,
                                column: new_col,
                                ..old(self)@.characters[token]
                            },
                        ),
                        grid: old(self)@.grid.write(
                            new_row as int,
                            new_col as int,
                            token,
                        ).write(
                            old(self)@.characters[token].row as int,
                            old(self)@.characters[token].column as int,
                            crate::grid::EMPTY,
                        ),
                        ..old(self)@
                    })
                },
                Err(e) => {
                    &&& final(self)@ == old(self)@
                    &&& if !(old(self)@.grid.wf() && old(self)@.grid.in_bounds(
                        new_row as int,
                        new_col as int,
                    )) {
                        e == EngineError::OutOfBounds
                    } else if old(self)@.grid.at(new_row as int, new_col as int)
                        != crate::grid::EMPTY {
                        e == EngineError::InvalidPlacement
                    } else if !old(self)@.characters.contains_key(token) {
                        e == EngineError::NotFound
                    } else {
                        e == EngineError::OutOfBounds && !old(self)@.grid.in_bounds(
                            old(self)@.characters[token].row as int,
                            old(self)@.characters[token].column as int,
                        )
                    }
                },
            },
    {
        if !self.grid.check_wf() || !self.grid.in_bounds(new_row, new_col) {
            return Err(EngineError::OutOfBounds);
        }
        if self.grid.at(new_row, new_col) != EMPTY {
            return Err(EngineError::InvalidPlacement);
        }
        let (src_row, src_col) = match self.characters.get(token) {
            None => {
                return Err(EngineError::NotFound);
            },
            Some(t) => (t.row, t.column),
        };
        if !self.grid.in_bounds(src_row, src_col) {
            return Err(EngineError::OutOfBounds);
        }
        let mut tok = match self.characters.take_out(token) {
            None => {
                proof {
                    assert(false);
                }
                return Err(EngineError::NotFound);
            },
            Some(t) => t,
        };
        tok.row = new_row;
        tok.column = new_col;
        self.grid.set(new_row, new_col, token);
        self.grid.set(src_row, src_col, EMPTY);
        self.characters.insert(token, tok);
        proof {
            assert(self@.characters =~= old(self)@.characters.insert(
                token,
                TokenV { row: new_row, column: new_col, ..old(self)@.characters[token] },
            ));
        }
        Ok(())
    }
}

} // verus!
