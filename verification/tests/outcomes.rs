use server_game::dto::{GameStatus, PositionDto, SeatKind};
use server_game::game_state::{GameSession, MoveRecord, ParticipantState};
use server_game::rules::{Rack, VariantRules};
use server_game::stats::{
    compute_participant_outcomes, is_rated_ending, pair_points, rated_seats, rating_due, rating_row_matches, seats_to_rate,
    tally_outcomes, terminal_move_type, Outcome, RatedSeat,
};

fn seat(n: u8, player: Option<&str>, engine: Option<&str>) -> ParticipantState {
    ParticipantState {
        seat_number: n,
        kind: if engine.is_some() { SeatKind::Engine } else { SeatKind::Human },
        display_name: format!("Seat {n}"),
        player_id: player.map(str::to_string),
        engine_id: engine.map(str::to_string),
        score: 0,
        rack: Rack::default(),
        resigned: false,
        removed_by_player: false,
        invited_email: None,
        reminder_sent_turn: None,
    }
}

fn game_with(seats: Vec<ParticipantState>) -> GameSession {
    let mut game = GameSession::new("g".to_string(), seats, None, 3, VariantRules::official(), 600);
    game.start_at(10);
    game
}

fn record(seat: u8, move_type: &str, tiles: u8) -> MoveRecord {
    MoveRecord {
        move_number: 1,
        seat_number: seat,
        move_type: move_type.to_string(),
        main_word: None,
        score_delta: 0,
        description: String::new(),
        positions: (0..tiles).map(|x| PositionDto { x, y: 0 }).collect(),
    }
}

#[test]
fn outcome_names_as_stored() {
    assert_eq!(Outcome::Win.as_db_str(), "win");
    assert_eq!(Outcome::Loss.as_db_str(), "loss");
    assert_eq!(Outcome::Tie.as_db_str(), "tie");
    assert_eq!(Outcome::Timeout.as_db_str(), "timeout");
    assert_eq!(Outcome::Resigned.as_db_str(), "resigned");
}

#[test]
fn an_unfinished_game_has_no_outcomes_but_counts_bingos() {
    let mut game = game_with(vec![seat(0, Some("a"), None), seat(1, Some("b"), None)]);
    game.moves.push(record(0, "place", 7));
    game.moves.push(record(1, "place", 6));
    game.moves.push(record(0, "place", 7));
    game.moves.push(record(1, "exchange", 7));
    let outcomes = compute_participant_outcomes(&game);
    assert_eq!(outcomes.len(), 2);
    assert!(outcomes.iter().all(|o| o.outcome.is_none()));
    assert_eq!(outcomes[0].bingo_count, 2);
    assert_eq!(outcomes[1].bingo_count, 0);
}

#[test]
fn the_best_score_wins_and_a_shared_best_ties() {
    let mut game = game_with(vec![seat(0, Some("a"), None), seat(1, Some("b"), None), seat(2, Some("c"), None)]);
    game.participants[0].score = 50;
    game.participants[1].score = 70;
    game.participants[2].score = 20;
    game.admin_force_finish();
    let outcomes = compute_participant_outcomes(&game);
    assert_eq!(outcomes[0].outcome, Some(Outcome::Loss));
    assert_eq!(outcomes[1].outcome, Some(Outcome::Win));
    assert_eq!(outcomes[2].outcome, Some(Outcome::Loss));
    game.participants[0].score = 70;
    let outcomes = compute_participant_outcomes(&game);
    assert_eq!(outcomes[0].outcome, Some(Outcome::Tie));
    assert_eq!(outcomes[1].outcome, Some(Outcome::Tie));
    assert_eq!(outcomes[2].outcome, Some(Outcome::Loss));
}

#[test]
fn a_forfeiting_seat_loses_by_its_forfeit_even_when_ahead() {
    let mut game = game_with(vec![seat(0, Some("a"), None), seat(1, Some("b"), None)]);
    game.participants[0].score = 100;
    game.apply_resign_at(0, 20).expect("on turn");
    let outcomes = compute_participant_outcomes(&game);
    assert_eq!(outcomes[0].outcome, Some(Outcome::Resigned));
    assert_eq!(outcomes[1].outcome, Some(Outcome::Win));

    let mut game = game_with(vec![seat(0, Some("a"), None), seat(1, Some("b"), None)]);
    assert!(game.apply_move_timeout_at(10 + 600));
    let outcomes = compute_participant_outcomes(&game);
    assert_eq!(outcomes[0].outcome, Some(Outcome::Timeout));
    assert_eq!(outcomes[1].outcome, Some(Outcome::Win));
}

#[test]
fn only_administrative_endings_are_never_rated() {
    let mut game = game_with(vec![seat(0, Some("a"), None), seat(1, Some("b"), None)]);
    assert_eq!(terminal_move_type(&game), None);
    assert!(!is_rated_ending(&game));
    game.apply_resign_at(0, 20).expect("on turn");
    assert_eq!(terminal_move_type(&game), Some("resign"));
    assert!(is_rated_ending(&game));
    assert_eq!(rated_seats(&game).len(), 2);
    let mut game = game_with(vec![seat(0, Some("a"), None), seat(1, Some("b"), None)]);
    game.admin_force_finish();
    assert!(!is_rated_ending(&game));
}

#[test]
fn a_forced_resignation_or_a_timeout_leaves_too_few_seats_to_rate() {
    let mut game = game_with(vec![seat(0, Some("a"), None), seat(1, Some("b"), None)]);
    game.force_resign_at(1, 20).expect("active");
    assert!(is_rated_ending(&game));
    let seats = rated_seats(&game);
    assert_eq!(seats.len(), 1);
    assert_eq!(seats[0].subject_id, "a");

    let mut game = game_with(vec![seat(0, Some("a"), None), seat(1, Some("b"), None)]);
    assert!(game.apply_move_timeout_at(10 + 600));
    assert!(is_rated_ending(&game));
    let seats = rated_seats(&game);
    assert_eq!(seats.len(), 1);
    assert_eq!(seats[0].subject_id, "b");
}

#[test]
fn rated_seats_are_those_with_exactly_one_subject() {
    let mut game = game_with(vec![
        seat(0, Some("alice"), None),
        seat(1, None, Some("greedy")),
        seat(2, None, None),
        seat(3, Some("x"), Some("y")),
    ]);
    game.participants[1].score = 42;
    game.apply_resign_at(0, 20).expect("on turn");
    let seats = rated_seats(&game);
    assert_eq!(seats.len(), 2);
    assert!(seats[0].subject_is_player);
    assert_eq!(seats[0].subject_id, "alice");
    assert!(seats[0].forfeited);
    assert!(!seats[1].subject_is_player);
    assert_eq!(seats[1].subject_id, "greedy");
    assert!(!seats[1].forfeited);
    assert_eq!(seats[1].score, 42);
}

fn rated(id: &str, forfeited: bool, exit_order: usize, score: i32) -> RatedSeat {
    RatedSeat { subject_is_player: true, subject_id: id.to_string(), forfeited, exit_order, score }
}

#[test]
fn pairings_rank_by_forfeit_then_score_and_share_one_point() {
    let a = rated("a", true, 1, 300);
    let b = rated("b", false, 0, 10);
    let c = rated("c", false, 0, 10);
    assert_eq!(pair_points(&a, &b), 0);
    assert_eq!(pair_points(&b, &a), 2);
    assert_eq!(pair_points(&b, &c), 1);
    assert_eq!(pair_points(&c, &b), 1);
}

#[test]
fn six_seats_rank_finishers_by_score_then_resigners_by_recency_without_forced_exits() {
    let mut game = game_with(vec![
        seat(0, Some("a6"), None),
        seat(1, Some("b6"), None),
        seat(2, Some("c6"), None),
        seat(3, Some("d6"), None),
        seat(4, Some("e6"), None),
        seat(5, Some("f6"), None),
    ]);
    for (s, move_type) in [(0u8, "resign"), (1, "resign"), (2, "force_resign"), (3, "timeout")] {
        game.participants[s as usize].resigned = true;
        game.moves.push(record(s, move_type, 0));
    }
    game.participants[4].score = 100;
    game.participants[5].score = 200;
    game.status = GameStatus::Finished;
    game.winner_seat = Some(5);

    assert!(is_rated_ending(&game));
    let seats = rated_seats(&game);
    let ids: Vec<&str> = seats.iter().map(|s| s.subject_id.as_str()).collect();
    assert_eq!(ids, vec!["a6", "b6", "e6", "f6"]);
    let (a, b, e, f) = (&seats[0], &seats[1], &seats[2], &seats[3]);
    assert_eq!(pair_points(f, e), 2);
    assert_eq!(pair_points(e, b), 2);
    assert_eq!(pair_points(b, a), 2);
    assert_eq!(pair_points(a, f), 0);
}

#[test]
fn a_game_is_rated_by_the_save_that_finishes_it_only() {
    assert!(rating_due(GameStatus::Finished, &None));
    assert!(rating_due(GameStatus::Finished, &Some("active".to_string())));
    assert!(!rating_due(GameStatus::Finished, &Some("finished".to_string())));
    assert!(!rating_due(GameStatus::Active, &Some("active".to_string())));
    assert!(!rating_due(GameStatus::Waiting, &None));
}

#[test]
fn tallies_keep_the_last_count_per_outcome_and_ignore_unknown_rows() {
    let rows = vec![
        ("win".to_string(), 3i64),
        ("loss".to_string(), 2),
        ("mystery".to_string(), 9),
        ("win".to_string(), 4),
        ("resigned".to_string(), 1),
    ];
    let t = tally_outcomes(&rows);
    assert_eq!((t.wins, t.losses, t.ties, t.timeouts, t.resignations), (4, 2, 0, 0, 1));
}

#[test]
fn rating_rows_match_their_subjects_seat() {
    let player = Some("p1".to_string());
    let engine = Some("e1".to_string());
    assert!(rating_row_matches("player", "p1", &player, &None));
    assert!(!rating_row_matches("player", "e1", &None, &engine));
    assert!(rating_row_matches("engine", "e1", &None, &engine));
    assert!(!rating_row_matches("robot", "e1", &None, &engine));
}

#[test]
fn outcomes_computed_again_are_the_same() {
    let mut game = game_with(vec![seat(0, Some("a"), None), seat(1, Some("b"), None)]);
    game.moves.push(record(1, "place", 7));
    game.apply_resign_at(0, 20).expect("on turn");
    let first = compute_participant_outcomes(&game);
    let again = compute_participant_outcomes(&game);
    for (x, y) in first.iter().zip(again.iter()) {
        assert_eq!(x.seat_number, y.seat_number);
        assert_eq!(x.outcome, y.outcome);
        assert_eq!(x.bingo_count, y.bingo_count);
    }
    assert_eq!(first[1].bingo_count, 1);
}

#[test]
fn a_game_is_rated_only_with_an_organic_ending_and_two_seats_to_rate() {
    let mut game = game_with(vec![seat(0, Some("a"), None), seat(1, Some("b"), None)]);
    assert!(seats_to_rate(&game).is_none());
    game.force_resign_at(1, 20).expect("active");
    assert!(seats_to_rate(&game).is_none());

    let mut game = game_with(vec![seat(0, Some("a"), None), seat(1, Some("b"), None)]);
    game.admin_force_finish();
    assert!(seats_to_rate(&game).is_none());

    let mut game = game_with(vec![seat(0, Some("a"), None), seat(1, Some("b"), None)]);
    game.apply_resign_at(0, 20).expect("on turn");
    let seats = seats_to_rate(&game).expect("two seats to rate");
    assert_eq!(seats.len(), 2);
    assert_eq!(pair_points(&seats[1], &seats[0]), 2);
}
