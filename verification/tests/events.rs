use server_game::dto::{GameEventDto, GameStateDto, GameStatus};
use server_game::server::event_belongs_to_game;

fn empty_live_game_for_test(id: &str) -> GameStateDto {
    GameStateDto {
        id: id.to_string(),
        status: GameStatus::Waiting,
        creator_player_id: None,
        variant: "official".to_string(),
        language: "sowpods".to_string(),
        board_layout: "official".to_string(),
        turn_number: 0,
        current_seat: 0,
        winner_seat: None,
        final_bonus_seat: None,
        final_bonus_points: None,
        bag_count: 100,
        move_time_limit_seconds: 0,
        turn_started_at: "0".to_string(),
        participants: Vec::new(),
        board: Vec::new(),
        racks: Vec::new(),
        moves: Vec::new(),
        messages: Vec::new(),
    }
}

#[test]
fn event_belongs_to_game_filters_by_id() {
    let event_for_a = GameEventDto::StateUpdated {
        game: empty_live_game_for_test("game-a"),
    };
    let event_for_b = GameEventDto::GameFinished {
        game: empty_live_game_for_test("game-b"),
    };

    assert!(event_belongs_to_game(&event_for_a, "game-a"));
    assert!(!event_belongs_to_game(&event_for_a, "game-b"));
    assert!(event_belongs_to_game(&event_for_b, "game-b"));
    assert!(!event_belongs_to_game(&event_for_b, "game-a"));
}
