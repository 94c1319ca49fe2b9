use bytedungeon::data::Effect;
use bytedungeon::effects::apply_effect;
use bytedungeon::session::{
    add_character, add_effect, add_item, board_to_string, export_game, find_character, get_char,
    get_character, get_cell_distance, get_dimensions, give_ability, give_item, load_game,
    place_token, reset_session, resize_board, toggle_cell, GameSession,
};
use bytedungeon::EngineError;

fn board(s: &mut GameSession, text: &str, width: usize) {
    s.board_from_str(text, width).unwrap();
}

fn plain_character(s: &mut GameSession, tok: char, name: &str, initiative: i8) {
    add_character(
        s,
        tok,
        name.to_string(),
        6,
        initiative,
        10,
        10,
        12,
        11,
        10,
        9,
        8,
        7,
        Some("Sturdy".to_string()),
    );
}

#[test]
fn board_from_str_and_accessors() {
    let mut s = GameSession::new();
    board(&mut s, "010100", 3);
    assert_eq!(get_dimensions(&s), (2, 3));
    assert_eq!(get_char(&s, 0, 1).unwrap(), '1');
    assert_eq!(get_char(&s, 1, 2).unwrap(), '0');
    assert_eq!(board_to_string(&s), vec!['0', '1', '0', '1', '0', '0']);
}

#[test]
fn board_from_str_rejects_ragged_input() {
    let mut s = GameSession::new();
    assert_eq!(
        s.board_from_str("00000", 3).unwrap_err(),
        EngineError::OutOfBounds
    );
}

#[test]
fn get_char_out_of_bounds() {
    let mut s = GameSession::new();
    board(&mut s, "0000", 2);
    assert_eq!(get_char(&s, 2, 0).unwrap_err(), EngineError::OutOfBounds);
}

#[test]
fn place_and_find_character() {
    let mut s = GameSession::new();
    board(&mut s, "000000000", 3);
    plain_character(&mut s, 'a', "Ari", 4);
    place_token(&mut s, 'a', 1, 2).unwrap();
    assert_eq!(get_char(&s, 1, 2).unwrap(), 'a');
    let sheet = find_character(&s, 1, 2).unwrap();
    assert_eq!(sheet.name, "Ari");
    assert_eq!(sheet.hitpoints, 10);
    assert_eq!(*sheet.stats.get(&"Strength".to_string()).unwrap(), 12);
    assert!(sheet.traits.member(&"Sturdy".to_string()));
    let by_key = get_character(&s, 'a').unwrap();
    assert_eq!(by_key.speed, 6);
}

#[test]
fn place_token_errors() {
    let mut s = GameSession::new();
    board(&mut s, "0010", 2);
    plain_character(&mut s, 'a', "Ari", 4);
    assert_eq!(
        place_token(&mut s, 'a', 5, 0).unwrap_err(),
        EngineError::OutOfBounds
    );
    assert_eq!(
        place_token(&mut s, 'a', 1, 0).unwrap_err(),
        EngineError::InvalidPlacement
    );
    assert_eq!(
        place_token(&mut s, 'z', 0, 0).unwrap_err(),
        EngineError::NotFound
    );
    place_token(&mut s, 'a', 0, 0).unwrap();
    assert_eq!(get_char(&s, 0, 0).unwrap(), 'a');
}

#[test]
fn toggle_cell_cycles_and_unseats_tokens() {
    let mut s = GameSession::new();
    board(&mut s, "0000", 2);
    assert_eq!(toggle_cell(&mut s, 0, 0).unwrap(), '1');
    assert_eq!(toggle_cell(&mut s, 0, 0).unwrap(), '0');
    plain_character(&mut s, 'a', "Ari", 4);
    place_token(&mut s, 'a', 0, 1).unwrap();
    assert_eq!(toggle_cell(&mut s, 0, 1).unwrap(), '0');
    // the token is gone from the grid and its sheet is unplaced again
    assert!(get_character(&s, 'a').is_err());
    assert_eq!(get_char(&s, 0, 1).unwrap(), '0');
    place_token(&mut s, 'a', 1, 1).unwrap();
    assert_eq!(get_char(&s, 1, 1).unwrap(), 'a');
}

#[test]
fn resize_board_pads_and_truncates() {
    let mut s = GameSession::new();
    board(&mut s, "0110", 2);
    resize_board(&mut s, 3, 3).unwrap();
    assert_eq!(get_dimensions(&s), (3, 3));
    assert_eq!(get_char(&s, 0, 1).unwrap(), '1');
    assert_eq!(get_char(&s, 1, 0).unwrap(), '1');
    assert_eq!(get_char(&s, 2, 2).unwrap(), '0');
    resize_board(&mut s, 1, 2).unwrap();
    assert_eq!(get_dimensions(&s), (1, 2));
    assert_eq!(board_to_string(&s), vec!['0', '1']);
}

#[test]
fn cell_distance_is_manhattan() {
    assert_eq!(get_cell_distance(0, 0, 2, 3), 5);
    assert_eq!(get_cell_distance(4, 4, 1, 2), 5);
    assert_eq!(get_cell_distance(3, 3, 3, 3), 0);
}

#[test]
fn give_item_and_ability_to_sheet() {
    let mut s = GameSession::new();
    board(&mut s, "00", 2);
    plain_character(&mut s, 'a', "Ari", 4);
    add_item(
        &mut s,
        "rope".to_string(),
        3,
        2,
        None,
        None,
        None,
    );
    give_item(&mut s, 'a', &"rope".to_string()).unwrap();
    give_ability(&mut s, 'a', "climb".to_string()).unwrap();
    assert_eq!(
        give_item(&mut s, 'a', &"anvil".to_string()).unwrap_err(),
        EngineError::NotFound
    );
    place_token(&mut s, 'a', 0, 0).unwrap();
    let sheet = get_character(&s, 'a').unwrap();
    assert_eq!(sheet.items.len(), 1);
    assert_eq!(sheet.items[0].name, "rope");
    assert!(sheet.abilities.member(&"climb".to_string()));
}

#[test]
fn effect_duration_one_is_removed_after_one_application() {
    // An attached effect with duration 1 ticks once and disappears.
    let mut c = character_with_effect("bruise", 1, "Health", -3);
    apply_effect(&mut c, &"bruise".to_string()).unwrap();
    assert_eq!(c.hitpoints, 7);
    assert!(c.effects.get(&"bruise".to_string()).is_none());
}

#[test]
fn effect_duration_two_stays_with_one_left() {
    let mut c = character_with_effect("bruise", 2, "Health", -3);
    apply_effect(&mut c, &"bruise".to_string()).unwrap();
    assert_eq!(c.hitpoints, 7);
    let left = c.effects.get(&"bruise".to_string()).unwrap();
    assert_eq!(left.duration, 1);
}

#[test]
fn effect_stat_resolves_case_insensitively() {
    let mut c = character_with_effect("haste", 2, "SpEeD", 4);
    apply_effect(&mut c, &"haste".to_string()).unwrap();
    assert_eq!(c.speed, 10);
    let mut c2 = character_with_effect("focus", 2, "INITIATIVE", 1);
    apply_effect(&mut c2, &"focus".to_string()).unwrap();
    assert_eq!(c2.initiative, 5);
}

#[test]
fn effect_on_named_stat_uses_lowercased_key() {
    let mut c = character_with_effect("bless", 2, "Luck", 2);
    c.stats.insert("luck".to_string(), 5);
    apply_effect(&mut c, &"bless".to_string()).unwrap();
    assert_eq!(*c.stats.get(&"luck".to_string()).unwrap(), 7);
}

#[test]
fn effect_on_missing_stat_fails_closed() {
    let mut c = character_with_effect("bless", 2, "Luck", 2);
    let hp = c.hitpoints;
    assert_eq!(
        apply_effect(&mut c, &"bless".to_string()).unwrap_err(),
        EngineError::NotFound
    );
    assert_eq!(c.hitpoints, hp);
    // the attached effect still has its full duration
    assert_eq!(c.effects.get(&"bless".to_string()).unwrap().duration, 2);
}

#[test]
fn effect_missing_key_fails_closed() {
    let mut c = character_with_effect("bruise", 1, "Health", -3);
    assert_eq!(
        apply_effect(&mut c, &"sting".to_string()).unwrap_err(),
        EngineError::NotFound
    );
    assert_eq!(c.hitpoints, 10);
}

fn character_with_effect(
    key: &str,
    duration: i32,
    target_stat: &str,
    amount: i32,
) -> bytedungeon::data::Character {
    let mut s = GameSession::new();
    plain_character(&mut s, 'a', "Ari", 4);
    let mut c = match s.sheets.take_out('a') {
        Some(c) => c,
        None => panic!("sheet must exist"),
    };
    c.effects.insert(
        key.to_string(),
        Effect {
            name: key.to_string(),
            duration,
            target_stat: target_stat.to_string(),
            modifier_low: amount,
            modifier_high: amount,
            temporary: true,
        },
    );
    c
}

#[test]
fn export_then_import_reproduces_the_session() {
    let mut s = GameSession::new();
    board(&mut s, "000000000", 3);
    plain_character(&mut s, 'a', "Ari", 4);
    plain_character(&mut s, 'b', "Bo", 2);
    add_effect(&mut s, "sting".to_string(), 2, "Health".to_string(), -1, 0, false);
    add_item(&mut s, "rope".to_string(), 3, 2, None, None, None);
    place_token(&mut s, 'a', 1, 1).unwrap();
    s.make_request(3, "hand", 'a', 0, 0).unwrap();
    assert_eq!(bytedungeon::pipeline::get_requests(&s).len(), 0);
    bytedungeon::pipeline::insert_request(&mut s, 'a', Vec::new());

    let doc = export_game(&s);
    let mut restored = GameSession::new();
    load_game(&mut restored, doc);

    assert_eq!(get_dimensions(&restored), (3, 3));
    assert_eq!(board_to_string(&restored), board_to_string(&s));
    assert_eq!(get_char(&restored, 1, 1).unwrap(), 'a');
    let sheet = get_character(&restored, 'a').unwrap();
    assert_eq!(sheet.name, "Ari");
    assert!(restored.sheets.get('b').is_some());
    assert!(restored.effects.get(&"sting".to_string()).is_some());
    assert!(restored.items.get(&"rope".to_string()).is_some());
    // the pending request queue is not part of the export
    assert_eq!(bytedungeon::pipeline::get_requests(&restored).len(), 0);
}

#[test]
fn reset_session_clears_everything() {
    let mut s = GameSession::new();
    board(&mut s, "0000", 2);
    plain_character(&mut s, 'a', "Ari", 4);
    reset_session(&mut s);
    assert_eq!(get_dimensions(&s), (0, 0));
    assert!(s.sheets.get('a').is_none());
}

#[test]
fn resize_board_rejects_impossible_dimensions() {
    let mut s = GameSession::new();
    board(&mut s, "0000", 2);
    assert_eq!(
        resize_board(&mut s, usize::MAX, 2).unwrap_err(),
        EngineError::OutOfBounds
    );
    assert_eq!(get_dimensions(&s), (2, 2));
}

#[test]
fn generate_request_builds_and_moves() {
    let mut s = GameSession::new();
    board(&mut s, "0000", 2);
    plain_character(&mut s, 'a', "Ari", 4);
    place_token(&mut s, 'a', 0, 0).unwrap();
    let req = bytedungeon::pipeline::generate_request(&mut s, 0, "", 'a', 1, 0).unwrap();
    assert_eq!(req.caster, 'a');
    assert_eq!(get_char(&s, 1, 0).unwrap(), 'a');
    assert_eq!(get_char(&s, 0, 0).unwrap(), '0');
}

#[test]
fn adding_under_an_existing_key_overwrites() {
    let mut s = GameSession::new();
    add_effect(&mut s, "sting".to_string(), 2, "Health".to_string(), -1, 0, false);
    add_effect(&mut s, "sting".to_string(), 5, "Speed".to_string(), -2, 0, true);
    let def = s.effects.get(&"sting".to_string()).unwrap();
    assert_eq!(def.duration, 5);
    assert_eq!(def.target_stat, "Speed");
}

#[test]
fn stat_arithmetic_saturates_at_the_type_bounds() {
    let mut c = character_with_effect("surge", 2, "Health", i32::MAX);
    apply_effect(&mut c, &"surge".to_string()).unwrap();
    assert_eq!(c.hitpoints, i32::MAX);
    let mut c2 = character_with_effect("drain", 2, "Health", i32::MIN);
    apply_effect(&mut c2, &"drain".to_string()).unwrap();
    assert_eq!(c2.hitpoints, i32::MIN + 10);
    apply_effect(&mut c2, &"drain".to_string()).unwrap();
    assert_eq!(c2.hitpoints, i32::MIN);
}
