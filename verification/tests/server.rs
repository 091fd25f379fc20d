use server_game::convert::{board_is_named, cells_are_named, tile_dto_named_check};
use server_game::dto::{
    BoardCellDto, GameEventDto, GameStateDto, GameStatus, InvitationStatus, PremiumDto, RackDto, SeatKind, TileDto,
};
use server_game::game_state::{GameSession, ParticipantState, ViewerAccess};
use server_game::persistence::InvitationRecord;
use server_game::rules::{Alphabet, BoardCell, Rack, VariantRules};
use server_game::server::{
    add_seat_request_check, admin_game_listed, bearer_token, caller_may_manage_game, engine_supports_variant,
    finished_game_cutoff, format_duration_days_hours, holds_seat_at, invitation_status_from_str,
    invite_seat_check, invite_target_check, latest_accepted_invitation, newest_first, parse_status_filter,
    redact_event, reject_check, unsupported_variant_message, EngineAction, Rejection, SeatClaimKind,
};

fn seat(n: u8, kind: SeatKind, player: Option<&str>) -> ParticipantState {
    ParticipantState {
        seat_number: n,
        kind,
        display_name: format!("Seat {n}"),
        player_id: player.map(str::to_string),
        engine_id: if kind == SeatKind::Engine { Some("greedy".to_string()) } else { None },
        score: 0,
        rack: Rack::default(),
        resigned: false,
        removed_by_player: false,
        invited_email: None,
        reminder_sent_turn: None,
    }
}

fn game(creator: Option<&str>, seats: Vec<ParticipantState>) -> GameSession {
    GameSession::new("g".to_string(), seats, creator.map(str::to_string), 5, VariantRules::official(), 259200)
}

fn message(kind: &Rejection) -> (u16, String) {
    match kind {
        Rejection::BadRequest(m) => (400, m.clone()),
        Rejection::Unauthorized(m) => (401, m.clone()),
        Rejection::NotFound(m) => (404, m.clone()),
    }
}

#[test]
fn only_the_creator_manages_a_game_that_has_one() {
    let g = game(Some("carol"), vec![seat(0, SeatKind::Human, Some("alice"))]);
    assert!(caller_may_manage_game(&g, Some("carol")));
    assert!(!caller_may_manage_game(&g, Some("alice")));
    assert!(!caller_may_manage_game(&g, None));
}

#[test]
fn without_a_creator_any_seated_player_manages_and_an_unclaimed_game_is_open() {
    let g = game(None, vec![seat(0, SeatKind::Human, Some("alice")), seat(1, SeatKind::Human, None)]);
    assert!(caller_may_manage_game(&g, Some("alice")));
    assert!(!caller_may_manage_game(&g, Some("mallory")));
    assert!(!caller_may_manage_game(&g, None));
    let bots = game(None, vec![seat(0, SeatKind::Engine, None), seat(1, SeatKind::Engine, None)]);
    assert!(caller_may_manage_game(&bots, Some("anyone")));
    assert!(caller_may_manage_game(&bots, None));
}

#[test]
fn durations_read_as_days_and_hours() {
    assert_eq!(format_duration_days_hours(0), "less than an hour");
    assert_eq!(format_duration_days_hours(3599), "less than an hour");
    assert_eq!(format_duration_days_hours(3600), "1 hour");
    assert_eq!(format_duration_days_hours(7200), "2 hours");
    assert_eq!(format_duration_days_hours(86400), "1 day");
    assert_eq!(format_duration_days_hours(90000), "1 day 1 hour");
    assert_eq!(format_duration_days_hours(2 * 86400 + 5 * 3600 + 59), "2 days 5 hours");
}

#[test]
fn invitation_words_read_as_statuses() {
    assert_eq!(invitation_status_from_str("accepted"), InvitationStatus::Accepted);
    assert_eq!(invitation_status_from_str("rejected"), InvitationStatus::Rejected);
    assert_eq!(invitation_status_from_str("cancelled"), InvitationStatus::Cancelled);
    assert_eq!(invitation_status_from_str("pending"), InvitationStatus::Pending);
    assert_eq!(invitation_status_from_str("whatever"), InvitationStatus::Pending);
}

#[test]
fn events_are_redacted_for_their_viewer() {
    let mut dto = game(Some("carol"), vec![seat(0, SeatKind::Human, Some("alice")), seat(1, SeatKind::Human, Some("bob"))]).to_dto();
    dto.racks[0] = RackDto { counts: vec![1, 2], blanks: 1 };
    dto.racks[1] = RackDto { counts: vec![3], blanks: 0 };
    let event = GameEventDto::GameStarted { game: dto };
    match redact_event(event, &ViewerAccess::Participant { seat_number: 1 }) {
        GameEventDto::GameStarted { game } => {
            assert!(game.racks[0].counts.is_empty());
            assert_eq!(game.racks[0].blanks, 0);
            assert_eq!(game.racks[1].counts, vec![3]);
        },
        other => panic!("kind changed: {other:?}"),
    }
}

#[test]
fn redacting_twice_changes_nothing_more() {
    let mut dto: GameStateDto = game(Some("carol"), vec![seat(0, SeatKind::Human, Some("alice")), seat(1, SeatKind::Human, Some("bob"))]).to_dto();
    dto.racks[1] = RackDto { counts: vec![3], blanks: 2 };
    let once = server_game::game_state::redact_game_state(dto, &ViewerAccess::Participant { seat_number: 1 });
    let once_racks: Vec<(Vec<u8>, u8)> = once.racks.iter().map(|r| (r.counts.clone(), r.blanks)).collect();
    let twice = server_game::game_state::redact_game_state(once, &ViewerAccess::Participant { seat_number: 1 });
    let twice_racks: Vec<(Vec<u8>, u8)> = twice.racks.iter().map(|r| (r.counts.clone(), r.blanks)).collect();
    assert_eq!(once_racks, twice_racks);
}

#[test]
fn a_reminder_is_owed_once_a_third_of_the_time_is_left() {
    let mut g = game(Some("alice"), vec![seat(0, SeatKind::Human, Some("alice")), seat(1, SeatKind::Human, Some("bob"))]);
    g.start_at(1000);
    assert!(g.claim_move_time_reminder_at(1000 + 86400).is_none());
    let reminder = g.claim_move_time_reminder_at(1000 + 259200 - 86400).expect("a third left");
    assert_eq!(reminder.seat, 0);
    assert_eq!(reminder.player_id, "alice");
    assert_eq!(reminder.display_name, "Seat 0");
    assert_eq!(reminder.remaining_seconds, 86400);
    assert_eq!(g.participants[0].reminder_sent_turn, Some(1));
    assert!(g.claim_move_time_reminder_at(1000 + 259200 - 3600).is_none());
}

#[test]
fn short_limits_and_engine_seats_get_no_reminder() {
    let mut g = GameSession::new("g".to_string(), vec![seat(0, SeatKind::Human, Some("a")), seat(1, SeatKind::Human, Some("b"))], None, 5, VariantRules::official(), 86400);
    g.start_at(0);
    assert!(g.claim_move_time_reminder_at(86000).is_none());
    let mut bots = game(None, vec![seat(0, SeatKind::Engine, None), seat(1, SeatKind::Engine, None)]);
    bots.start_at(0);
    assert!(bots.claim_move_time_reminder_at(259000).is_none());
}

#[test]
fn admin_status_filters() {
    assert_eq!(parse_status_filter(None), Ok(None));
    assert_eq!(parse_status_filter(Some("waiting")), Ok(Some(GameStatus::Waiting)));
    assert_eq!(parse_status_filter(Some("active")), Ok(Some(GameStatus::Active)));
    assert_eq!(parse_status_filter(Some("finished")), Ok(Some(GameStatus::Finished)));
    assert_eq!(
        parse_status_filter(Some("done")),
        Err("Unknown status 'done', expected waiting/active/finished".to_string())
    );
}

#[test]
fn inviting_checks_the_game_the_caller_and_the_seat() {
    let mut g = game(Some("alice"), vec![seat(0, SeatKind::Human, Some("alice")), seat(1, SeatKind::Human, None), seat(2, SeatKind::Engine, None)]);
    assert!(invite_seat_check(&g, "alice", 1).is_ok());
    assert_eq!(message(&invite_seat_check(&g, "bob", 1).unwrap_err()), (401, "Only the game's creator can invite players".to_string()));
    assert_eq!(message(&invite_seat_check(&g, "alice", 7).unwrap_err()), (400, "No such seat".to_string()));
    assert_eq!(message(&invite_seat_check(&g, "alice", 0).unwrap_err()), (400, "That seat is not open to be invited to".to_string()));
    assert_eq!(message(&invite_seat_check(&g, "alice", 2).unwrap_err()), (400, "That seat is not open to be invited to".to_string()));
    g.status = GameStatus::Active;
    assert_eq!(message(&invite_seat_check(&g, "alice", 1).unwrap_err()), (400, "Game must be in waiting state to invite players".to_string()));
    assert_eq!(message(&invite_target_check(true, false, false).unwrap_err()), (400, "This seat already has a pending invitation".to_string()));
    assert_eq!(
        message(&invite_target_check(false, true, true).unwrap_err()),
        (400, "An invitation can target a display name or an email, not both".to_string())
    );
    assert!(invite_target_check(false, true, false).is_ok());
}

#[test]
fn seat_requests_and_rejections_are_checked() {
    assert!(add_seat_request_check(SeatKind::Human, Some(SeatClaimKind::Open)).is_ok());
    assert!(add_seat_request_check(SeatKind::Engine, None).is_ok());
    assert_eq!(message(&add_seat_request_check(SeatKind::Human, None).unwrap_err()).1, "A human seat needs a claim: named, open, or email");
    assert_eq!(message(&add_seat_request_check(SeatKind::Engine, Some(SeatClaimKind::Creator)).unwrap_err()).1, "Only the original creator seat may use the Creator claim");
    assert!(reject_check("pending").is_ok());
    assert_eq!(message(&reject_check("accepted").unwrap_err()).1, "This invitation has already been responded to");
}

#[test]
fn claiming_and_releasing_seats() {
    let mut g = game(Some("alice"), vec![seat(0, SeatKind::Human, Some("alice")), seat(1, SeatKind::Human, None)]);
    g.claim_seat(1, "bob", "Bob");
    assert_eq!(g.participants[1].player_id.as_deref(), Some("bob"));
    assert_eq!(g.participants[1].display_name, "Bob");
    assert!(holds_seat_at(&g, 1, "bob"));
    assert!(!holds_seat_at(&g, 0, "bob"));
    assert!(!holds_seat_at(&g, 9, "bob"));
    g.unclaim_player("bob");
    assert_eq!(g.participants[1].player_id, None);
    assert_eq!(g.participants[0].player_id.as_deref(), Some("alice"));
}

#[test]
fn the_latest_accepted_invitation_is_the_last_of_the_latest() {
    let inv = |id: &str, seat: u8, status: &str, at: &str| InvitationRecord {
        id: id.to_string(),
        game_id: "g".to_string(),
        invited_player_id: None,
        inviting_player_id: "alice".to_string(),
        seat_number: seat,
        status: status.to_string(),
        created_at: at.to_string(),
        responded_at: None,
        invited_email: None,
    };
    let invs = vec![
        inv("a", 1, "accepted", "200"),
        inv("b", 1, "accepted", "300"),
        inv("c", 1, "rejected", "900"),
        inv("d", 2, "accepted", "999"),
        inv("e", 1, "accepted", "300"),
        inv("f", 1, "accepted", "1000"),
    ];
    assert_eq!(latest_accepted_invitation(&invs, 1), Some(4));
    assert_eq!(latest_accepted_invitation(&invs, 2), Some(3));
    assert_eq!(latest_accepted_invitation(&invs, 3), None);
}

#[test]
fn bearer_tokens_and_cutoffs() {
    assert_eq!(bearer_token(Some("Bearer abc")), Some("abc".to_string()));
    assert_eq!(bearer_token(Some("Bearer ")), Some(String::new()));
    assert_eq!(bearer_token(Some("bearer abc")), None);
    assert_eq!(bearer_token(Some("Token abc")), None);
    assert_eq!(bearer_token(None), None);
    assert_eq!(finished_game_cutoff("1000000"), "395200");
    assert_eq!(finished_game_cutoff("5"), "0");
    assert_eq!(finished_game_cutoff("soon"), "0");
}

#[test]
fn engine_turns_run_only_for_active_engine_seats() {
    let mut g = game(None, vec![seat(0, SeatKind::Engine, None), seat(1, SeatKind::Human, Some("bob"))]);
    assert_eq!(g.engine_turn_seat(), Ok(None));
    g.start_at(0);
    assert_eq!(g.engine_turn_seat(), Ok(Some((0, "greedy".to_string()))));
    g.participants[0].engine_id = None;
    assert_eq!(g.engine_turn_seat(), Err("Engine seat missing engine id".to_string()));
    g.participants[0].engine_id = Some("greedy".to_string());
    g.apply_engine_action_at(EngineAction::Pass, 5).expect("engine on turn");
    assert_eq!(g.moves.last().unwrap().move_type, "pass");
    assert_eq!(g.engine_turn_seat(), Ok(None));
    assert!(engine_supports_variant(&vec!["official".to_string()], "official"));
    assert!(!engine_supports_variant(&vec!["wordfeud".to_string()], "official"));
    assert_eq!(unsupported_variant_message("greedy", "x"), "Engine 'greedy' does not support the 'x' variant");
}

#[test]
fn the_admin_list_filters_by_status_and_age() {
    assert!(admin_game_listed(None, GameStatus::Active, 1_000_000, None, None));
    assert!(admin_game_listed(Some(GameStatus::Active), GameStatus::Active, 1_000_000, None, None));
    assert!(!admin_game_listed(Some(GameStatus::Waiting), GameStatus::Active, 1_000_000, None, None));
    assert!(admin_game_listed(None, GameStatus::Finished, 1_000_000, Some(2), Some(1_000_000 - 2 * 86400)));
    assert!(!admin_game_listed(None, GameStatus::Finished, 1_000_000, Some(2), Some(1_000_000 - 2 * 86400 + 1)));
    assert!(!admin_game_listed(None, GameStatus::Finished, 1_000_000, Some(2), None));
}

#[test]
fn the_admin_list_is_newest_first_and_stable() {
    assert_eq!(newest_first(&vec![]), Vec::<usize>::new());
    assert_eq!(newest_first(&vec![5, 9, 5, 1, 9]), vec![1, 4, 0, 2, 3]);
    assert_eq!(newest_first(&vec![-3, 0, -7]), vec![1, 0, 2]);
}

#[test]
fn sessions_are_checked_before_play() {
    let mut g = game(Some("alice"), vec![seat(0, SeatKind::Human, Some("alice")), seat(1, SeatKind::Human, Some("bob"))]);
    assert!(g.is_playable());
    g.participants[1].score = 0x4000_0001;
    assert!(!g.is_playable());
    g.participants[1].score = 0;
    g.participants[0].rack.counts.pop();
    assert!(!g.is_playable());
    g.participants[0].rack.counts.push(0);
    g.consecutive_scoreless_turns = 255;
    assert!(!g.is_playable());
}

#[test]
fn letters_are_checked_against_the_alphabet() {
    let latin = Alphabet::latin26();
    assert!(tile_dto_named_check(&TileDto::Letter { letter: "Q".to_string() }, &latin));
    assert!(!tile_dto_named_check(&TileDto::Letter { letter: "Ä".to_string() }, &latin));
    assert!(tile_dto_named_check(&TileDto::Blank { acting_as: None }, &latin));
    assert!(!tile_dto_named_check(&TileDto::Blank { acting_as: Some("qq".to_string()) }, &latin));
    let cells = vec![
        BoardCellDto { premium: PremiumDto::Blank, letter: Some("A".to_string()), is_blank: false },
        BoardCellDto { premium: PremiumDto::DoubleWord, letter: None, is_blank: false },
    ];
    assert!(cells_are_named(&cells, &latin));
    let bad = vec![BoardCellDto { premium: PremiumDto::Blank, letter: Some("?".to_string()), is_blank: false }];
    assert!(!cells_are_named(&bad, &latin));
    let mut g = game(None, vec![]);
    assert!(board_is_named(&g.state.board, &latin));
    g.state.board.cells[5] = BoardCell::Filled { letter: 26, is_blank: false };
    assert!(!board_is_named(&g.state.board, &latin));
}
