use server_game::dto::{GameStatus, SeatKind};
use server_game::game_state::{
    redact_game_state, resolve_viewer_access, ChatMessageRecord, GameSession, ParticipantState,
    ViewerAccess, MAX_CHAT_MESSAGE_LEN,
};
use server_game::rules::{Rack, VariantRules};

fn participant(seat_number: u8, kind: SeatKind, player_id: Option<&str>) -> ParticipantState {
    ParticipantState {
        seat_number,
        kind,
        display_name: format!("Seat {seat_number}"),
        player_id: player_id.map(str::to_string),
        engine_id: None,
        score: 0,
        rack: Rack::default(),
        resigned: false,
        removed_by_player: false,
        invited_email: None,
        reminder_sent_turn: None,
    }
}

fn two_human_game(creator_player_id: Option<&str>) -> GameSession {
    GameSession::new(
        "game-1".to_string(),
        vec![
            participant(0, SeatKind::Human, Some("alice")),
            participant(1, SeatKind::Human, Some("bob")),
        ],
        creator_player_id.map(str::to_string),
        42,
        VariantRules::official(),
        3600,
    )
}

#[test]
fn resolve_viewer_access_prefers_participant_over_creator() {
    let game = two_human_game(Some("alice"));
    assert_eq!(
        resolve_viewer_access(&game, Some("alice")),
        ViewerAccess::Participant { seat_number: 0 }
    );
}

#[test]
fn resolve_viewer_access_recognizes_an_unseated_creator() {
    let game = two_human_game(Some("carol"));
    assert_eq!(resolve_viewer_access(&game, Some("carol")), ViewerAccess::Creator);
}

#[test]
fn resolve_viewer_access_recognizes_a_seated_non_creator() {
    let game = two_human_game(Some("carol"));
    assert_eq!(
        resolve_viewer_access(&game, Some("bob")),
        ViewerAccess::Participant { seat_number: 1 }
    );
}

#[test]
fn resolve_viewer_access_rejects_an_unrelated_logged_in_player() {
    let game = two_human_game(Some("carol"));
    assert_eq!(resolve_viewer_access(&game, Some("mallory")), ViewerAccess::Rejected);
}

#[test]
fn resolve_viewer_access_rejects_anyone_not_logged_in() {
    let game = two_human_game(Some("carol"));
    assert_eq!(resolve_viewer_access(&game, None), ViewerAccess::Rejected);
}

#[test]
fn redact_game_state_creator_tier_hides_every_rack_and_all_chat() {
    let mut game = two_human_game(Some("carol"));
    game.participants[0].rack.counts[0] = 3;
    game.messages.push(ChatMessageRecord {
        id: "m1".to_string(),
        player_id: "alice".to_string(),
        display_name: "Alice".to_string(),
        body: "hi".to_string(),
        created_at: "0".to_string(),
    });
    let dto = redact_game_state(game.to_dto(), &ViewerAccess::Creator);
    assert!(dto.racks.iter().all(|rack| rack.counts.is_empty()));
    assert!(dto.messages.is_empty());
}

#[test]
fn redact_game_state_participant_tier_keeps_only_their_own_rack() {
    let mut game = two_human_game(Some("carol"));
    game.participants[0].rack.counts[0] = 3;
    game.participants[1].rack.counts[1] = 5;
    game.messages.push(ChatMessageRecord {
        id: "m1".to_string(),
        player_id: "alice".to_string(),
        display_name: "Alice".to_string(),
        body: "hi".to_string(),
        created_at: "0".to_string(),
    });
    let dto = redact_game_state(game.to_dto(), &ViewerAccess::Participant { seat_number: 0 });
    assert_eq!(dto.racks[0].counts[0], 3);
    assert!(dto.racks[1].counts.is_empty());
    assert_eq!(dto.messages.len(), 1);
}

#[test]
fn post_chat_message_rejects_a_non_seated_player() {
    let mut game = two_human_game(Some("carol"));
    let result = game.post_chat_message("mallory", "Mallory", "hi".to_string());
    assert!(result.is_err());
    assert!(game.messages.is_empty());
}

#[test]
fn post_chat_message_rejects_an_unseated_creator() {
    let mut game = two_human_game(Some("carol"));
    let result = game.post_chat_message("carol", "Carol", "hi".to_string());
    assert!(result.is_err());
}

#[test]
fn post_chat_message_rejects_an_empty_body() {
    let mut game = two_human_game(Some("alice"));
    let result = game.post_chat_message("alice", "Alice", "   ".to_string());
    assert!(result.is_err());
}

#[test]
fn post_chat_message_rejects_an_over_length_body() {
    let mut game = two_human_game(Some("alice"));
    let body = "x".repeat(MAX_CHAT_MESSAGE_LEN + 1);
    let result = game.post_chat_message("alice", "Alice", body);
    assert!(result.is_err());
}

#[test]
fn post_chat_message_appends_for_a_seated_player() {
    let mut game = two_human_game(Some("alice"));
    game.post_chat_message("bob", "Bob", "  gg  ".to_string())
        .expect("bob is seated and should be able to chat");
    assert_eq!(game.messages.len(), 1);
    assert_eq!(game.messages[0].player_id, "bob");
    assert_eq!(game.messages[0].display_name, "Bob");
    assert_eq!(game.messages[0].body, "gg");
}

#[test]
fn remove_for_player_rejects_a_game_that_is_not_finished() {
    let mut game = two_human_game(Some("alice"));
    let result = game.remove_for_player("alice");
    assert!(result.is_err());
}

#[test]
fn remove_for_player_rejects_someone_not_seated_in_the_game() {
    let mut game = two_human_game(Some("alice"));
    game.start();
    game.apply_resign(0).expect("alice should be able to resign");
    let result = game.remove_for_player("carol");
    assert!(result.is_err());
}

#[test]
fn remove_for_player_only_marks_the_calling_seat() {
    let mut game = two_human_game(Some("alice"));
    game.start();
    game.apply_resign(0).expect("alice should be able to resign");
    game.remove_for_player("alice")
        .expect("alice is seated in this finished game");
    assert!(game.participants[0].removed_by_player);
    assert!(!game.participants[1].removed_by_player);
}

#[test]
fn remove_for_player_falls_back_to_the_game_level_flag_for_an_unseated_creator() {
    let mut game = GameSession::new(
        "game-2".to_string(),
        vec![
            participant(0, SeatKind::Engine, None),
            participant(1, SeatKind::Engine, None),
        ],
        Some("carol".to_string()),
        42,
        VariantRules::official(),
        3600,
    );
    game.status = GameStatus::Finished;
    game.remove_for_player("carol")
        .expect("carol created this game and should be able to remove it");
    assert!(game.removed_by_creator);
    assert!(game.participants.iter().all(|p| !p.removed_by_player));
}

#[test]
fn swap_seats_reorders_participants_and_updates_seat_numbers() {
    let mut game = two_human_game(Some("alice"));
    assert_eq!(game.participants[0].player_id.as_deref(), Some("alice"));
    assert_eq!(game.participants[1].player_id.as_deref(), Some("bob"));

    game.swap_seats(0, 1).expect("both seats are filled and the game hasn't started");

    assert_eq!(game.participants[0].player_id.as_deref(), Some("bob"));
    assert_eq!(game.participants[0].seat_number, 0);
    assert_eq!(game.participants[1].player_id.as_deref(), Some("alice"));
    assert_eq!(game.participants[1].seat_number, 1);
}

#[test]
fn swap_seats_rejects_an_unknown_seat() {
    let mut game = two_human_game(Some("alice"));
    let result = game.swap_seats(0, 5);
    assert!(result.is_err());
}

#[test]
fn swap_seats_rejects_once_the_game_has_started() {
    let mut game = two_human_game(Some("alice"));
    game.start();
    let result = game.swap_seats(0, 1);
    assert!(result.is_err());
}

#[test]
fn swap_seats_rejects_while_a_human_seat_is_still_unclaimed() {
    let mut game = GameSession::new(
        "game-3".to_string(),
        vec![
            participant(0, SeatKind::Human, Some("alice")),
            participant(1, SeatKind::Human, None),
        ],
        Some("alice".to_string()),
        42,
        VariantRules::official(),
        3600,
    );
    let result = game.swap_seats(0, 1);
    assert!(result.is_err());
}
