use server_game::dto::{GameStatus, SeatKind};
use server_game::persistence::{
    claim_check, claim_outcome, default_move_time_limit_seconds, game_row_times, kind_name,
    move_row_id, now_iso, seat_row_id, status_name, ClaimInvitationError, InvitationRecord,
    PersistedVariantRules,
};
use server_game::rules::VariantRules;

fn invitation(status: &str, invited: Option<&str>) -> InvitationRecord {
    InvitationRecord {
        id: "inv-1".to_string(),
        game_id: "game-1".to_string(),
        invited_player_id: invited.map(str::to_string),
        inviting_player_id: "alice".to_string(),
        seat_number: 1,
        status: status.to_string(),
        created_at: "100".to_string(),
        responded_at: None,
        invited_email: None,
    }
}

#[test]
fn a_named_pending_invitation_belongs_to_its_invitee_only() {
    assert_eq!(claim_check(&invitation("pending", Some("bob")), "carol").unwrap_err(), ClaimInvitationError::NotYourInvitation);
    assert!(claim_check(&invitation("pending", Some("bob")), "bob").is_ok());
    assert!(claim_check(&invitation("pending", None), "carol").is_ok());
    assert!(claim_check(&invitation("accepted", Some("bob")), "carol").is_ok());
}

#[test]
fn claiming_records_the_claimant_or_reports_a_lost_race() {
    let claimed = claim_outcome(invitation("pending", None), "carol", "200".to_string(), 1).expect("one row");
    assert_eq!(claimed.invited_player_id.as_deref(), Some("carol"));
    assert_eq!(claimed.status, "accepted");
    assert_eq!(claimed.responded_at.as_deref(), Some("200"));
    assert_eq!(claimed.id, "inv-1");
    assert_eq!(claimed.seat_number, 1);
    assert_eq!(
        claim_outcome(invitation("pending", None), "carol", "200".to_string(), 0).unwrap_err(),
        ClaimInvitationError::NoLongerAvailable
    );
}

#[test]
fn stored_names_and_row_ids() {
    assert_eq!(status_name(&GameStatus::Waiting), "waiting");
    assert_eq!(status_name(&GameStatus::Active), "active");
    assert_eq!(status_name(&GameStatus::Finished), "finished");
    assert_eq!(kind_name(&SeatKind::Human), "human");
    assert_eq!(kind_name(&SeatKind::Engine), "engine");
    assert_eq!(seat_row_id("g1", 3), "g1-seat-3");
    assert_eq!(move_row_id("g1", 12), "g1-move-12");
    assert_eq!(move_row_id("g1", -4), "g1-move--4");
    assert_eq!(default_move_time_limit_seconds(), 259200);
}

#[test]
fn a_saved_game_starts_once_active_and_ends_once_finished() {
    assert_eq!(game_row_times(GameStatus::Waiting, "5", &None, &None), (None, None));
    assert_eq!(game_row_times(GameStatus::Active, "5", &None, &None), (Some("5".to_string()), None));
    assert_eq!(
        game_row_times(GameStatus::Finished, "5", &None, &None),
        (Some("5".to_string()), Some("5".to_string()))
    );
}

#[test]
fn a_resaved_game_keeps_the_times_it_started_and_ended() {
    let started = Some("3".to_string());
    let ended = Some("4".to_string());
    assert_eq!(
        game_row_times(GameStatus::Active, "9", &started, &None),
        (Some("3".to_string()), None)
    );
    assert_eq!(
        game_row_times(GameStatus::Finished, "9", &started, &None),
        (Some("3".to_string()), Some("9".to_string()))
    );
    assert_eq!(
        game_row_times(GameStatus::Finished, "9", &started, &ended),
        (Some("3".to_string()), Some("4".to_string()))
    );
}

#[test]
fn the_store_clock_reads_as_decimal_seconds() {
    let now = now_iso();
    assert!(!now.is_empty());
    assert!(now.chars().all(|c| c.is_ascii_digit()));
}

#[test]
fn stored_rules_load_back_the_same() {
    let rules = VariantRules::official();
    let stored = PersistedVariantRules::from_rules(&rules);
    let loaded = stored.into_rules().expect("official rules are valid");
    assert_eq!(loaded.name, rules.name);
    assert_eq!(loaded.letter_values, rules.letter_values);
    assert_eq!(loaded.tile_distribution, rules.tile_distribution);
    assert_eq!(loaded.premiums, rules.premiums);
    assert_eq!(loaded.alphabet.graphemes, rules.alphabet.graphemes);
    assert_eq!(loaded.rack_size, 7);
    assert_eq!(loaded.bingo_bonus, 50);
}

#[test]
fn short_letter_tables_are_padded_and_bad_tables_refused() {
    let mut stored = PersistedVariantRules::from_rules(&VariantRules::official());
    stored.letter_values.truncate(26);
    let loaded = stored.into_rules().expect("short tables are padded");
    assert_eq!(loaded.letter_values.len(), 32);
    assert_eq!(loaded.letter_values[26..], [0u8; 6]);

    let mut stored = PersistedVariantRules::from_rules(&VariantRules::official());
    stored.premiums.pop();
    assert_eq!(stored.into_rules().unwrap_err(), "persisted premiums length did not match the board size");

    let mut stored = PersistedVariantRules::from_rules(&VariantRules::official());
    stored.tile_distribution.push(1);
    assert_eq!(stored.into_rules().unwrap_err(), "persisted letter table longer than MAX_ALPHABET_SIZE");
}
