use bytedungeon::data::Request;
use bytedungeon::pipeline::{execute_request, get_requests, insert_request, sort_requests};
use bytedungeon::session::{
    add_ability, add_character, add_effect, add_item, get_char, get_character, give_ability,
    give_item, place_token, toggle_cell, GameSession,
};
use bytedungeon::EngineError;

fn board(s: &mut GameSession, text: &str, width: usize) {
    s.board_from_str(text, width).unwrap();
}

fn fighter(s: &mut GameSession, tok: char, name: &str, initiative: i8) {
    add_character(
        s,
        tok,
        name.to_string(),
        6,
        initiative,
        10,
        10,
        12,
        11,
        10,
        9,
        8,
        7,
        None,
    );
}

fn unequip_request(caster: char, slot: &str) -> Request {
    Request {
        caster,
        action_type: 3,
        subtype_key: Some(slot.to_string()),
        target_cell: None,
        target_tokens: None,
    }
}

#[test]
fn move_request_moves_the_token() {
    let mut s = GameSession::new();
    board(&mut s, "000000000", 3);
    fighter(&mut s, 'a', "Ari", 4);
    place_token(&mut s, 'a', 0, 0).unwrap();
    let req = s.make_request(0, "", 'a', 2, 1).unwrap();
    assert_eq!(req.action_type, 0);
    assert_eq!(req.target_cell, Some((2, 1)));
    assert_eq!(get_char(&s, 0, 0).unwrap(), '0');
    assert_eq!(get_char(&s, 2, 1).unwrap(), 'a');
}

#[test]
fn move_to_occupied_destination_changes_nothing() {
    // The verified no-op: a move onto an occupied cell is refused and
    // both grid and token position stay as they were.
    let mut s = GameSession::new();
    board(&mut s, "0000", 2);
    fighter(&mut s, 'a', "Ari", 4);
    fighter(&mut s, 'b', "Bo", 2);
    place_token(&mut s, 'a', 0, 0).unwrap();
    place_token(&mut s, 'b', 1, 1).unwrap();
    assert_eq!(
        s.move_token('a', 1, 1).unwrap_err(),
        EngineError::InvalidPlacement
    );
    assert_eq!(get_char(&s, 0, 0).unwrap(), 'a');
    assert_eq!(get_char(&s, 1, 1).unwrap(), 'b');
}

#[test]
fn stale_request_is_silently_dropped() {
    let mut s = GameSession::new();
    board(&mut s, "0000", 2);
    fighter(&mut s, 'a', "Ari", 4);
    place_token(&mut s, 'a', 0, 0).unwrap();
    let req = s.make_request(3, "hand", 'a', 0, 0).unwrap();
    toggle_cell(&mut s, 0, 0).unwrap(); // the caster leaves the grid
    assert_eq!(execute_request(&mut s, &req), Ok(()));
    assert_eq!(get_char(&s, 0, 0).unwrap(), '0');
}

#[test]
fn sort_orders_by_initiative_with_pinned_ties() {
    // Casters with initiatives [5, 3, 5, none]: both fives first, in
    // insertion order, then the three, then the caster that does not
    // resolve.
    let mut s = GameSession::new();
    board(&mut s, "000000000", 3);
    fighter(&mut s, 'a', "Ari", 5);
    fighter(&mut s, 'b', "Bo", 3);
    fighter(&mut s, 'c', "Cy", 5);
    place_token(&mut s, 'a', 0, 0).unwrap();
    place_token(&mut s, 'b', 0, 1).unwrap();
    place_token(&mut s, 'c', 0, 2).unwrap();
    insert_request(&mut s, 'a', vec![unequip_request('a', "hand")]);
    insert_request(&mut s, 'b', vec![unequip_request('b', "hand")]);
    insert_request(&mut s, 'c', vec![unequip_request('c', "hand")]);
    insert_request(&mut s, 'z', vec![unequip_request('z', "hand")]);
    sort_requests(&mut s);
    let flat = get_requests(&s);
    let order: Vec<char> = flat.iter().map(|r| r.caster).collect();
    assert_eq!(order, vec!['a', 'c', 'b', 'z']);
}

#[test]
fn use_item_equips_grants_and_consumes() {
    let mut s = GameSession::new();
    board(&mut s, "0000", 2);
    add_item(
        &mut s,
        "sword".to_string(),
        2,
        5,
        Some("hand".to_string()),
        None,
        Some("slash".to_string()),
    );
    fighter(&mut s, 'a', "Ari", 4);
    give_item(&mut s, 'a', &"sword".to_string()).unwrap();
    place_token(&mut s, 'a', 0, 0).unwrap();
    s.use_item('a', 0).unwrap();
    let sheet = get_character(&s, 'a').unwrap();
    assert!(sheet.abilities.member(&"slash".to_string()));
    let held = sheet.equipment.get(&"hand".to_string()).unwrap();
    assert_eq!(held.name, "sword");
    assert_eq!(sheet.items.len(), 1);
    assert_eq!(sheet.items[0].uses, 1);
}

#[test]
fn use_item_with_one_use_leaves_inventory() {
    let mut s = GameSession::new();
    board(&mut s, "0000", 2);
    add_item(&mut s, "potion".to_string(), 1, 1, None, None, None);
    fighter(&mut s, 'a', "Ari", 4);
    give_item(&mut s, 'a', &"potion".to_string()).unwrap();
    place_token(&mut s, 'a', 0, 0).unwrap();
    s.use_item('a', 0).unwrap();
    let sheet = get_character(&s, 'a').unwrap();
    assert_eq!(sheet.items.len(), 0);
}

#[test]
fn use_item_applies_its_effect_once() {
    let mut s = GameSession::new();
    board(&mut s, "0000", 2);
    add_effect(&mut s, "sting".to_string(), 2, "Health".to_string(), -4, 0, false);
    add_item(
        &mut s,
        "trap".to_string(),
        3,
        1,
        None,
        Some("sting".to_string()),
        None,
    );
    fighter(&mut s, 'a', "Ari", 4);
    give_item(&mut s, 'a', &"trap".to_string()).unwrap();
    place_token(&mut s, 'a', 0, 0).unwrap();
    s.use_item('a', 0).unwrap();
    let sheet = get_character(&s, 'a').unwrap();
    assert_eq!(sheet.hitpoints, 6);
    assert_eq!(sheet.effects.get(&"sting".to_string()).unwrap().duration, 1);
}

#[test]
fn use_item_bad_index_fails_closed() {
    let mut s = GameSession::new();
    board(&mut s, "0000", 2);
    fighter(&mut s, 'a', "Ari", 4);
    place_token(&mut s, 'a', 0, 0).unwrap();
    assert_eq!(s.use_item('a', 0).unwrap_err(), EngineError::NotFound);
    assert_eq!(get_character(&s, 'a').unwrap().hitpoints, 10);
}

#[test]
fn item_request_uses_inventory_index() {
    // An input kind of 2 builds a canonical use-item request whose
    // subtype key is the decimal inventory index, and executes it.
    let mut s = GameSession::new();
    board(&mut s, "0000", 2);
    add_item(&mut s, "potion".to_string(), 1, 1, None, None, None);
    fighter(&mut s, 'a', "Ari", 4);
    give_item(&mut s, 'a', &"potion".to_string()).unwrap();
    place_token(&mut s, 'a', 0, 0).unwrap();
    let req = s.make_request(2, "0", 'a', 0, 0).unwrap();
    assert_eq!(req.action_type, 1);
    assert_eq!(get_character(&s, 'a').unwrap().items.len(), 0);
}

#[test]
fn ability_cast_applies_caster_and_target_effects() {
    let mut s = GameSession::new();
    board(&mut s, "000000000", 3);
    add_effect(&mut s, "recoil".to_string(), 2, "Health".to_string(), -1, 0, false);
    add_effect(&mut s, "zap".to_string(), 2, "Health".to_string(), -5, 0, false);
    add_ability(
        &mut s,
        "bolt".to_string(),
        3,
        1,
        1,
        6,
        None,
        None,
        Some("zap".to_string()),
        Some("recoil".to_string()),
    );
    fighter(&mut s, 'a', "Ari", 4);
    fighter(&mut s, 'b', "Bo", 2);
    give_ability(&mut s, 'a', "bolt".to_string()).unwrap();
    place_token(&mut s, 'a', 0, 0).unwrap();
    place_token(&mut s, 'b', 0, 2).unwrap();
    // building the request against the occupied target cell records the
    // occupant, and execution applies both effect sets
    let req = s.make_request(1, "bolt", 'a', 0, 2).unwrap();
    assert_eq!(req.action_type, 2);
    assert_eq!(req.target_tokens, Some(vec!['b']));
    assert_eq!(get_character(&s, 'a').unwrap().hitpoints, 9);
    assert_eq!(get_character(&s, 'b').unwrap().hitpoints, 5);
}

#[test]
fn ability_request_for_unknown_ability_fails_closed() {
    let mut s = GameSession::new();
    board(&mut s, "0000", 2);
    fighter(&mut s, 'a', "Ari", 4);
    place_token(&mut s, 'a', 0, 0).unwrap();
    assert_eq!(
        s.make_request(1, "meteor", 'a', 0, 1).unwrap_err(),
        EngineError::NotFound
    );
}

#[test]
fn equip_then_unequip_restores_the_ability_set() {
    // The proved restoration law, on concrete values: the granted
    // ability disappears again and the item returns to the inventory.
    let mut s = GameSession::new();
    board(&mut s, "0000", 2);
    add_item(
        &mut s,
        "sword".to_string(),
        5,
        5,
        Some("hand".to_string()),
        None,
        Some("slash".to_string()),
    );
    fighter(&mut s, 'a', "Ari", 4);
    give_item(&mut s, 'a', &"sword".to_string()).unwrap();
    place_token(&mut s, 'a', 0, 0).unwrap();
    assert!(!get_character(&s, 'a').unwrap().abilities.member(&"slash".to_string()));
    s.use_item('a', 0).unwrap();
    assert!(get_character(&s, 'a').unwrap().abilities.member(&"slash".to_string()));
    s.remove_equipment('a', &"hand".to_string()).unwrap();
    let sheet = get_character(&s, 'a').unwrap();
    assert!(!sheet.abilities.member(&"slash".to_string()));
    assert!(sheet.equipment.get(&"hand".to_string()).is_none());
    // the kept inventory copy (one use spent) plus the returned
    // equipped copy
    assert_eq!(sheet.items.len(), 2);
    assert_eq!(sheet.items[0].name, "sword");
    assert_eq!(sheet.items[0].uses, 4);
    assert_eq!(sheet.items[1].name, "sword");
    assert_eq!(sheet.items[1].uses, 5);
}

#[test]
fn unequip_reverses_the_granted_effect_by_negation() {
    let mut s = GameSession::new();
    board(&mut s, "0000", 2);
    add_effect(&mut s, "vigor".to_string(), 1, "Health".to_string(), 5, 5, true);
    add_item(
        &mut s,
        "amulet".to_string(),
        9,
        1,
        Some("neck".to_string()),
        Some("vigor".to_string()),
        None,
    );
    fighter(&mut s, 'a', "Ari", 4);
    give_item(&mut s, 'a', &"amulet".to_string()).unwrap();
    place_token(&mut s, 'a', 0, 0).unwrap();
    s.use_item('a', 0).unwrap();
    assert_eq!(get_character(&s, 'a').unwrap().hitpoints, 15);
    s.remove_equipment('a', &"neck".to_string()).unwrap();
    let sheet = get_character(&s, 'a').unwrap();
    assert_eq!(sheet.hitpoints, 10);
    // the transient reversal key never lingers in the active map
    assert!(sheet.effects.get(&"removing_temp_item".to_string()).is_none());
}

#[test]
fn unequip_empty_slot_fails_closed() {
    let mut s = GameSession::new();
    board(&mut s, "0000", 2);
    fighter(&mut s, 'a', "Ari", 4);
    place_token(&mut s, 'a', 0, 0).unwrap();
    assert_eq!(
        s.remove_equipment('a', &"hand".to_string()).unwrap_err(),
        EngineError::NotFound
    );
}

#[test]
fn malformed_item_index_fails_closed() {
    let mut s = GameSession::new();
    board(&mut s, "0000", 2);
    fighter(&mut s, 'a', "Ari", 4);
    place_token(&mut s, 'a', 0, 0).unwrap();
    let req = Request {
        caster: 'a',
        action_type: 1,
        subtype_key: Some("first".to_string()),
        target_cell: None,
        target_tokens: None,
    };
    assert_eq!(
        execute_request(&mut s, &req).unwrap_err(),
        EngineError::NotFound
    );
}

#[test]
fn unknown_action_kind_is_a_no_op() {
    let mut s = GameSession::new();
    board(&mut s, "0000", 2);
    fighter(&mut s, 'a', "Ari", 4);
    place_token(&mut s, 'a', 0, 0).unwrap();
    let req = Request {
        caster: 'a',
        action_type: 9,
        subtype_key: None,
        target_cell: None,
        target_tokens: None,
    };
    assert_eq!(execute_request(&mut s, &req), Ok(()));
    assert_eq!(get_char(&s, 0, 0).unwrap(), 'a');
}

#[test]
fn place_tokens_restamps_the_board() {
    // After the grid is rebuilt from text, the token table re-stamps
    // each token onto its recorded cell.
    let mut s = GameSession::new();
    board(&mut s, "000000000", 3);
    fighter(&mut s, 'a', "Ari", 4);
    place_token(&mut s, 'a', 1, 2).unwrap();
    board(&mut s, "000000000", 3); // wipes the marker
    assert_eq!(get_char(&s, 1, 2).unwrap(), '0');
    s.place_tokens().unwrap();
    assert_eq!(get_char(&s, 1, 2).unwrap(), 'a');
}

#[test]
fn place_tokens_fails_closed_when_a_token_is_off_grid() {
    let mut s = GameSession::new();
    board(&mut s, "000000000", 3);
    fighter(&mut s, 'a', "Ari", 4);
    place_token(&mut s, 'a', 2, 2).unwrap();
    board(&mut s, "0000", 2); // shrinks the grid under the token
    assert_eq!(s.place_tokens().unwrap_err(), EngineError::OutOfBounds);
}

#[test]
fn get_requests_flattens_buckets_in_order() {
    let mut s = GameSession::new();
    board(&mut s, "0000", 2);
    insert_request(
        &mut s,
        'a',
        vec![unequip_request('a', "hand"), unequip_request('a', "neck")],
    );
    insert_request(&mut s, 'b', vec![unequip_request('b', "hand")]);
    let flat = get_requests(&s);
    assert_eq!(flat.len(), 3);
    assert_eq!(flat[0].caster, 'a');
    assert_eq!(flat[0].subtype_key, Some("hand".to_string()));
    assert_eq!(flat[1].caster, 'a');
    assert_eq!(flat[1].subtype_key, Some("neck".to_string()));
    assert_eq!(flat[2].caster, 'b');
}

#[test]
fn oversized_item_index_fails_closed() {
    let mut s = GameSession::new();
    board(&mut s, "0000", 2);
    fighter(&mut s, 'a', "Ari", 4);
    place_token(&mut s, 'a', 0, 0).unwrap();
    let req = Request {
        caster: 'a',
        action_type: 1,
        subtype_key: Some("99999999999".to_string()),
        target_cell: None,
        target_tokens: None,
    };
    assert_eq!(
        execute_request(&mut s, &req).unwrap_err(),
        EngineError::NotFound
    );
}

#[test]
fn unequip_discards_the_transient_key_even_with_duration_left() {
    // The reversal runs under the transient key and is discarded
    // afterwards, also when the catalog duration would leave charges.
    let mut s = GameSession::new();
    board(&mut s, "0000", 2);
    add_effect(&mut s, "vigor".to_string(), 3, "Health".to_string(), 5, 5, true);
    add_item(
        &mut s,
        "ring".to_string(),
        9,
        1,
        Some("finger".to_string()),
        Some("vigor".to_string()),
        None,
    );
    fighter(&mut s, 'a', "Ari", 4);
    give_item(&mut s, 'a', &"ring".to_string()).unwrap();
    place_token(&mut s, 'a', 0, 0).unwrap();
    s.use_item('a', 0).unwrap();
    assert_eq!(get_character(&s, 'a').unwrap().hitpoints, 15);
    s.remove_equipment('a', &"finger".to_string()).unwrap();
    let sheet = get_character(&s, 'a').unwrap();
    assert_eq!(sheet.hitpoints, 10);
    assert!(sheet.effects.get(&"removing_temp_item".to_string()).is_none());
    // the equip-time attachment keeps its remaining charges
    assert_eq!(sheet.effects.get(&"vigor".to_string()).unwrap().duration, 2);
}
