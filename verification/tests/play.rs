use server_game::dto::{GameStatus, PositionDto, SeatKind};
use server_game::game_state::{GameSession, ParticipantState};
use server_game::rules::{
    BoardCell, Direction, MoveCandidate, MoveValidation, Position, Rack, Tile, TilePlacement, shuffle_bag, shuffle_bag_with_draws,
    VariantRules,
};

fn participant(seat_number: u8, name: &str, player_id: &str) -> ParticipantState {
    ParticipantState {
        seat_number,
        kind: SeatKind::Human,
        display_name: name.to_string(),
        player_id: Some(player_id.to_string()),
        engine_id: None,
        score: 0,
        rack: Rack::default(),
        resigned: false,
        removed_by_player: false,
        invited_email: None,
        reminder_sent_turn: None,
    }
}

fn started_game() -> GameSession {
    let mut game = GameSession::new(
        "g".to_string(),
        vec![participant(0, "Alice", "alice"), participant(1, "Bob", "bob")],
        Some("alice".to_string()),
        7,
        VariantRules::official(),
        3600,
    );
    game.start_at(1000);
    game
}

fn rack_of(letters: &[u8], blanks: u8) -> Rack {
    let mut rack = Rack::default();
    for &l in letters {
        rack.counts[l as usize] += 1;
    }
    rack.blanks = blanks;
    rack
}

fn rack_size(rack: &Rack) -> u32 {
    rack.counts.iter().map(|&c| c as u32).sum::<u32>() + rack.blanks as u32
}

fn cat_move(x: u8, y: u8) -> MoveCandidate {
    MoveCandidate {
        start: Position { x, y },
        direction: Direction::Horizontal,
        tiles: vec![
            TilePlacement { offset: 0, tile: Tile::Letter(2) },
            TilePlacement { offset: 1, tile: Tile::Letter(0) },
            TilePlacement { offset: 2, tile: Tile::Letter(19) },
        ],
    }
}

fn cat_ok() -> Result<MoveValidation, String> {
    Ok(MoveValidation { score_total: 10, main_word: "CAT".to_string() })
}

#[test]
fn a_fresh_game_deals_seven_tiles_to_each_seat_from_a_full_bag() {
    let game = started_game();
    assert_eq!(game.status, GameStatus::Active);
    assert_eq!(game.turn_number, 1);
    assert_eq!(game.current_seat, 0);
    assert_eq!(rack_size(&game.participants[0].rack), 7);
    assert_eq!(rack_size(&game.participants[1].rack), 7);
    assert_eq!(game.bag.len(), 100 - 14);
    assert_eq!(game.turn_started_at, "1000");
}

#[test]
fn placing_a_word_writes_the_board_scores_and_refills() {
    let mut game = started_game();
    game.participants[0].rack = rack_of(&[2, 0, 19], 0);
    let bag_before = game.bag.len();
    game.apply_place_move_at(0, cat_move(7, 7), cat_ok(), 2000).expect("CAT fits");
    assert_eq!(game.state.board.cells[112], BoardCell::Filled { letter: 2, is_blank: false });
    assert_eq!(game.state.board.cells[113], BoardCell::Filled { letter: 0, is_blank: false });
    assert_eq!(game.state.board.cells[114], BoardCell::Filled { letter: 19, is_blank: false });
    assert_eq!(game.participants[0].score, 10);
    assert_eq!(rack_size(&game.participants[0].rack), 7);
    assert_eq!(game.bag.len(), bag_before - 7);
    let record = game.moves.last().unwrap();
    assert_eq!(record.move_type, "place");
    assert_eq!(record.main_word.as_deref(), Some("CAT"));
    assert_eq!(record.score_delta, 10);
    assert_eq!(record.description, "Alice played CAT for 10");
    assert_eq!(
        record.positions,
        vec![PositionDto { x: 7, y: 7 }, PositionDto { x: 8, y: 7 }, PositionDto { x: 9, y: 7 }]
    );
    assert_eq!(game.consecutive_scoreless_turns, 0);
    assert_eq!(game.current_seat, 1);
    assert_eq!(game.turn_number, 2);
    assert_eq!(game.turn_started_at, "2000");
}

#[test]
fn a_vertical_word_with_a_blank_marks_the_blank_square() {
    let mut game = started_game();
    game.participants[0].rack = rack_of(&[0], 1);
    let candidate = MoveCandidate {
        start: Position { x: 3, y: 4 },
        direction: Direction::Vertical,
        tiles: vec![
            TilePlacement { offset: 0, tile: Tile::Blank { acting_as: Some(1) } },
            TilePlacement { offset: 1, tile: Tile::Letter(0) },
        ],
    };
    game.apply_place_move_at(0, candidate, Ok(MoveValidation { score_total: 1, main_word: "BA".to_string() }), 5)
        .expect("fits");
    assert_eq!(game.state.board.cells[4 * 15 + 3], BoardCell::Filled { letter: 1, is_blank: true });
    assert_eq!(game.state.board.cells[5 * 15 + 3], BoardCell::Filled { letter: 0, is_blank: false });
    assert_eq!(game.moves.last().unwrap().positions, vec![PositionDto { x: 3, y: 4 }, PositionDto { x: 3, y: 5 }]);
}

#[test]
fn a_rules_engine_rejection_passes_through_and_changes_nothing() {
    let mut game = started_game();
    let rack_before = game.participants[0].rack.counts.clone();
    let result = game.apply_place_move_at(0, cat_move(7, 7), Err("Not a word: CTA".to_string()), 2000);
    assert_eq!(result, Err("Not a word: CTA".to_string()));
    assert_eq!(game.participants[0].rack.counts, rack_before);
    assert!(game.moves.is_empty());
    assert_eq!(game.current_seat, 0);
}

#[test]
fn a_move_the_rack_cannot_cover_is_refused_after_taking_what_it_found() {
    let mut game = started_game();
    game.participants[0].rack = rack_of(&[2, 0], 0);
    let result = game.apply_place_move_at(0, cat_move(7, 7), cat_ok(), 2000);
    assert_eq!(result, Err("Rack no longer matches move".to_string()));
    assert_eq!(rack_size(&game.participants[0].rack), 0);
    assert!(game.moves.is_empty());
    assert!(game.state.board.cells.iter().all(|c| matches!(c, BoardCell::Empty { .. })));
}

#[test]
fn a_move_off_the_board_is_refused() {
    let mut game = started_game();
    game.participants[0].rack = rack_of(&[2, 0, 19], 0);
    let result = game.apply_place_move_at(0, cat_move(13, 7), cat_ok(), 2000);
    assert_eq!(result, Err("Move does not fit the board".to_string()));
    assert!(game.moves.is_empty());
    assert!(game.state.board.cells.iter().all(|c| matches!(c, BoardCell::Empty { .. })));
}

#[test]
fn only_the_seat_on_turn_may_place() {
    let mut game = started_game();
    let result = game.apply_place_move_at(1, cat_move(7, 7), cat_ok(), 2000);
    assert_eq!(result, Err("It is not seat 1's turn".to_string()));
    let mut waiting = GameSession::new(
        "w".to_string(),
        vec![participant(0, "Alice", "alice")],
        None,
        1,
        VariantRules::official(),
        60,
    );
    assert_eq!(waiting.apply_pass_at(0, 5), Err("Game is not active".to_string()));
}

#[test]
fn going_out_ends_the_game_and_moves_the_other_racks_points() {
    let mut game = started_game();
    game.bag.clear();
    game.participants[0].rack = rack_of(&[2, 0, 19], 0);
    // Bob keeps Q (10) and Z (10).
    game.participants[1].rack = rack_of(&[16, 25], 0);
    let total_before: i32 = game.participants.iter().map(|p| p.score).sum::<i32>() + 10;
    game.apply_place_move_at(0, cat_move(7, 7), cat_ok(), 2000).expect("CAT fits");
    assert_eq!(game.status, GameStatus::Finished);
    assert_eq!(game.final_bonus_seat, Some(0));
    assert_eq!(game.final_bonus_points, Some(20));
    assert_eq!(game.participants[0].score, 30);
    assert_eq!(game.participants[1].score, -20);
    assert_eq!(game.winner_seat, Some(0));
    let total_after: i32 = game.participants.iter().map(|p| p.score).sum();
    assert_eq!(total_after, total_before);
}

#[test]
fn six_scoreless_turns_end_the_game_without_a_bonus() {
    let mut game = started_game();
    for turn in 0..6u64 {
        let seat = game.current_seat;
        game.apply_pass_at(seat, 100 + turn).expect("on turn");
    }
    assert_eq!(game.status, GameStatus::Finished);
    assert_eq!(game.final_bonus_seat, None);
    assert_eq!(game.moves.len(), 6);
    assert_eq!(game.moves[0].description, "Alice passed");
    assert_eq!(game.moves[1].description, "Bob passed");
}

#[test]
fn exchanging_keeps_the_tile_count_and_the_bag_size() {
    let mut game = started_game();
    game.participants[0].rack = rack_of(&[2, 0, 19, 4, 4, 4, 4], 0);
    let bag_before = game.bag.len();
    game.apply_exchange_at(0, vec![Tile::Letter(4), Tile::Letter(4)], 3000).expect("has two Es");
    assert_eq!(rack_size(&game.participants[0].rack), 7);
    assert_eq!(game.bag.len(), bag_before);
    assert_eq!(game.moves.last().unwrap().description, "Alice exchanged 2 tiles");
    assert_eq!(game.consecutive_scoreless_turns, 1);
}

#[test]
fn exchanging_more_than_the_bag_holds_is_refused() {
    let mut game = started_game();
    game.bag.truncate(1);
    let result = game.apply_exchange_at(0, vec![Tile::Letter(4), Tile::Letter(4)], 3000);
    assert_eq!(result, Err("Not enough tiles left in bag to exchange".to_string()));
}

#[test]
fn exchanging_tiles_the_rack_lacks_is_refused() {
    let mut game = started_game();
    game.participants[0].rack = rack_of(&[2], 0);
    let result = game.apply_exchange_at(0, vec![Tile::Letter(2), Tile::Letter(25)], 3000);
    assert_eq!(result, Err("Rack does not contain exchange tiles".to_string()));
}

#[test]
fn resigning_a_two_seat_game_ends_it_for_the_other_seat() {
    let mut game = started_game();
    game.apply_resign_at(0, 10).expect("on turn");
    assert_eq!(game.status, GameStatus::Finished);
    assert_eq!(game.winner_seat, Some(1));
    assert!(game.participants[0].resigned);
    assert_eq!(game.moves.last().unwrap().description, "Alice resigned");
}

#[test]
fn force_resign_refuses_the_creators_own_seat() {
    let mut game = started_game();
    assert_eq!(game.force_resign_at(0, 10), Err("The creator's own seat can't be force-resigned".to_string()));
    game.force_resign_at(1, 10).expect("bob's seat");
    assert_eq!(game.moves.last().unwrap().move_type, "force_resign");
    assert_eq!(game.moves.last().unwrap().description, "Bob resigned (by the game creator)");
    assert_eq!(game.winner_seat, Some(0));
}

#[test]
fn an_overdue_turn_times_out_the_seat_on_turn() {
    let mut game = started_game();
    assert_eq!(game.seconds_remaining_on_turn_at(1000 + 600), Some(3000));
    assert!(!game.apply_move_timeout_at(1000 + 3599));
    assert!(game.apply_move_timeout_at(1000 + 3600));
    assert_eq!(game.moves.last().unwrap().move_type, "timeout");
    assert_eq!(game.status, GameStatus::Finished);
    assert_eq!(game.winner_seat, Some(1));
    assert_eq!(game.seconds_remaining_on_turn_at(99999), None);
}

#[test]
fn swapping_twice_restores_the_seating() {
    let mut game = GameSession::new(
        "g".to_string(),
        vec![participant(0, "Alice", "alice"), participant(1, "Bob", "bob")],
        Some("alice".to_string()),
        7,
        VariantRules::official(),
        3600,
    );
    game.swap_seats(0, 1).expect("waiting and filled");
    game.swap_seats(0, 1).expect("waiting and filled");
    assert_eq!(game.participants[0].player_id.as_deref(), Some("alice"));
    assert_eq!(game.participants[1].player_id.as_deref(), Some("bob"));
    assert_eq!(game.participants[0].seat_number, 0);
}

#[test]
fn adding_and_removing_seats_keeps_them_numbered_in_order() {
    let mut game = GameSession::new(
        "g".to_string(),
        vec![participant(0, "Alice", "alice")],
        Some("alice".to_string()),
        7,
        VariantRules::official(),
        3600,
    );
    game.add_seat(participant(9, "Bob", "bob")).expect("room");
    game.add_seat(participant(9, "Carol", "carol")).expect("room");
    assert_eq!(game.participants.iter().map(|p| p.seat_number).collect::<Vec<_>>(), vec![0, 1, 2]);
    game.remove_seat(1).expect("bob's seat");
    assert_eq!(game.participants.iter().map(|p| p.seat_number).collect::<Vec<_>>(), vec![0, 1]);
    assert_eq!(game.participants[1].display_name, "Carol");
}

#[test]
fn admin_force_finish_records_its_own_ending() {
    let mut game = started_game();
    game.admin_force_finish();
    assert_eq!(game.status, GameStatus::Finished);
    assert_eq!(game.moves.last().unwrap().move_type, "admin_force_end");
    assert_eq!(game.moves.last().unwrap().description, "Game force-ended by admin");
}

#[test]
fn a_new_bag_holds_the_variants_tiles_in_shuffled_order() {
    let game = GameSession::new("g".to_string(), Vec::new(), None, 99, VariantRules::official(), 60);
    assert_eq!(game.bag.len(), 100);
    let mut counts = [0u32; 27];
    for tile in &game.bag {
        match tile {
            Tile::Letter(l) => counts[*l as usize] += 1,
            Tile::Blank { acting_as } => {
                assert_eq!(*acting_as, None);
                counts[26] += 1;
            }
        }
    }
    assert_eq!(counts[4], 12);
    assert_eq!(counts[0], 9);
    assert_eq!(counts[26], 2);
    let sorted = {
        let mut keys: Vec<u8> = game.bag.iter().map(|t| match t { Tile::Letter(l) => *l, Tile::Blank { .. } => 255 }).collect();
        keys.sort();
        keys
    };
    let order: Vec<u8> = game.bag.iter().map(|t| match t { Tile::Letter(l) => *l, Tile::Blank { .. } => 255 }).collect();
    assert_ne!(order, sorted);
    let again = GameSession::new("h".to_string(), Vec::new(), None, 99, VariantRules::official(), 60);
    assert_eq!(again.bag, game.bag);
}

#[test]
fn chat_messages_get_fresh_ids_and_times() {
    let mut game = started_game();
    game.post_chat_message("alice", "Alice", "one".to_string()).expect("seated");
    game.post_chat_message("bob", "Bob", "two".to_string()).expect("seated");
    assert!(!game.messages[0].id.is_empty());
    assert_ne!(game.messages[0].id, game.messages[1].id);
    assert!(game.messages[0].created_at.chars().all(|c| c.is_ascii_digit()));
    game.post_chat_message_at("alice", "Alice", "three".to_string(), "m-3".to_string(), 77).expect("seated");
    assert_eq!(game.messages[2].id, "m-3");
    assert_eq!(game.messages[2].created_at, "77");
}

fn tiles_in_play(game: &GameSession) -> u32 {
    let on_racks: u32 = game.participants.iter().map(|p| rack_size(&p.rack)).sum();
    let on_board = game.state.board.cells.iter().filter(|c| matches!(c, BoardCell::Filled { .. })).count() as u32;
    on_racks + game.bag.len() as u32 + on_board
}

#[test]
fn every_turn_action_keeps_all_hundred_tiles() {
    let mut game = started_game();
    assert_eq!(tiles_in_play(&game), 100);
    // Swap seat 0's rack for C, A, T plus four Es, taking the difference from the bag.
    let before = rack_size(&game.participants[0].rack);
    game.participants[0].rack = rack_of(&[2, 0, 19, 4, 4, 4, 4], 0);
    assert_eq!(before, 7);
    game.apply_place_move_at(0, cat_move(7, 7), cat_ok(), 2000).expect("CAT fits");
    assert_eq!(tiles_in_play(&game), 100);
    let seat = game.current_seat;
    game.apply_pass_at(seat, 2001).expect("on turn");
    assert_eq!(tiles_in_play(&game), 100);
    let seat = game.current_seat;
    let tile = (0..26u8).find(|&l| game.participants[seat as usize].rack.counts[l as usize] > 0).map(Tile::Letter)
        .unwrap_or(Tile::Blank { acting_as: None });
    game.apply_exchange_at(seat, vec![tile], 2002).expect("has the tile");
    assert_eq!(tiles_in_play(&game), 100);
    let seat = game.current_seat;
    game.apply_resign_at(seat, 2003).expect("on turn");
    assert_eq!(tiles_in_play(&game), 100);
}

#[test]
fn shuffling_with_draws_exchanges_each_position_from_the_last_down() {
    let mut bag = vec![Tile::Letter(0), Tile::Letter(1), Tile::Letter(2)];
    shuffle_bag_with_draws(&mut bag, &vec![1, 0]);
    assert_eq!(bag, vec![Tile::Letter(2), Tile::Letter(0), Tile::Letter(1)]);

    let mut same = vec![Tile::Letter(0), Tile::Letter(1), Tile::Letter(2)];
    shuffle_bag_with_draws(&mut same, &vec![2, 1]);
    assert_eq!(same, vec![Tile::Letter(0), Tile::Letter(1), Tile::Letter(2)]);
}

#[test]
fn shuffling_a_bag_from_a_seed_keeps_its_tiles() {
    let mut bag = vec![Tile::Letter(0), Tile::Letter(1), Tile::Letter(1), Tile::Blank { acting_as: None }];
    shuffle_bag(&mut bag, 7);
    let mut letters: Vec<u8> = bag.iter().filter_map(|t| match t { Tile::Letter(l) => Some(*l), _ => None }).collect();
    letters.sort();
    assert_eq!(letters, vec![0, 1, 1]);
    assert_eq!(bag.len(), 4);
}
