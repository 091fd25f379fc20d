//! What the store keeps: player, session, reset-token and invitation
//! records, the stored form of a variant's rules, and the decisions the
//! store makes around them (claiming an invitation, row identifiers and
//! timestamps of a saved game).

use vstd::prelude::*;
use crate::clock::now_unix_seconds;
use crate::dto::{GameStatus, SeatKind};
use crate::game_state::DEFAULT_MOVE_TIME_LIMIT_SECONDS;
use crate::rules::{Alphabet, Premium, VariantRules, BOARD_CELLS, MAX_ALPHABET_SIZE};
use crate::text::{cat, decimal, opt_str_is, opt_view, owned, str_eq, u64_to_decimal};

verus! {

#[derive(Debug, Clone)]
pub struct PlayerRecord {
    pub id: String,
    pub display_name: String,
    pub email: String,
    pub password_hash: String,
    pub created_at: String,
    pub updated_at: String,
    pub last_seen_at: Option<String>,
}

#[derive(Debug, Clone)]
pub struct SessionRecord {
    pub id: String,
    pub player_id: String,
    pub token_hash: Option<String>,
    pub created_at: String,
    pub last_seen_at: String,
    pub expires_at: Option<String>,
}

#[derive(Debug, Clone)]
pub struct PasswordResetTokenRecord {
    pub id: String,
    pub player_id: String,
    pub token_hash: String,
    pub created_at: String,
    pub expires_at: String,
    pub consumed_at: Option<String>,
}

/// One invitation to a seat of a game.
#[derive(Debug, Clone)]
pub struct InvitationRecord {
    pub id: String,
    pub game_id: String,
    /// `None` for an open invitation, or an emailed one not yet accepted.
    pub invited_player_id: Option<String>,
    pub inviting_player_id: String,
    pub seat_number: u8,
    pub status: String,
    pub created_at: String,
    pub responded_at: Option<String>,
    /// The address an emailed invitation's link went to.
    pub invited_email: Option<String>,
}

/// Why accepting an invitation failed.
#[derive(Debug, Clone, Copy, PartialEq, Eq, Structural)]
pub enum ClaimInvitationError {
    NotFound,
    /// Already answered, or an open invitation someone else claimed first.
    NoLongerAvailable,
    /// A named invitation accepted by someone other than its invitee.
    NotYourInvitation,
}

/// The per-move time limit a stored game without one gets.
pub fn default_move_time_limit_seconds() -> (r: u64)
    ensures
        r == DEFAULT_MOVE_TIME_LIMIT_SECONDS,
{
    DEFAULT_MOVE_TIME_LIMIT_SECONDS
}

/// The current time as the store writes it: Unix seconds in decimal.
pub fn now_iso() -> (s: String)
    ensures
        exists|n: nat| #[trigger] decimal(n) == s@,
{
    let n = now_unix_seconds();
    let s = u64_to_decimal(n);
    assert(decimal(n as nat) == s@);
    s
}

/// The stored name of a game status.
pub open spec fn status_name_spec(status: GameStatus) -> Seq<char> {
    match status {
        GameStatus::Waiting => "waiting"@,
        GameStatus::Active => "active"@,
        GameStatus::Finished => "finished"@,
    }
}

pub fn status_name(status: &GameStatus) -> (r: &'static str)
    ensures
        r@ == status_name_spec(*status),
{
    match status {
        GameStatus::Waiting => "waiting",
        GameStatus::Active => "active",
        GameStatus::Finished => "finished",
    }
}

/// The stored name of a seat kind.
pub open spec fn kind_name_spec(kind: SeatKind) -> Seq<char> {
    match kind {
        SeatKind::Human => "human"@,
        SeatKind::Engine => "engine"@,
    }
}

pub fn kind_name(kind: &SeatKind) -> (r: &'static str)
    ensures
        r@ == kind_name_spec(*kind),
{
    match kind {
        SeatKind::Human => "human",
        SeatKind::Engine => "engine",
    }
}

/// The time a saved game's row records for a moment: the stored time when
/// the row already has one, else `now`.
pub open spec fn kept_or_now(stored: Option<Seq<char>>, now: Seq<char>) -> Seq<char> {
    match stored {
        Some(t) => t,
        None => now,
    }
}

/// When a saved game started and ended, given the time `now` of the save
/// and the times its row already holds: it has started unless still
/// waiting, and ended once finished. Each is set once, by the save that
/// first finds it due, and kept by every later save.
pub fn game_row_times(
    status: GameStatus,
    now: &str,
    stored_started: &Option<String>,
    stored_ended: &Option<String>,
) -> (r: (Option<String>, Option<String>))
    ensures
        status == GameStatus::Waiting ==> r.0 is None,
        status != GameStatus::Waiting ==> (r.0 matches Some(s) && s@ == kept_or_now(opt_view(*stored_started), now@)),
        status == GameStatus::Finished ==> (r.1 matches Some(s) && s@ == kept_or_now(opt_view(*stored_ended), now@)),
        status != GameStatus::Finished ==> r.1 is None,
{
    let started = if status == GameStatus::Waiting {
        None
    } else {
        match stored_started {
            Some(t) => Some(t.clone()),
            None => Some(owned(now)),
        }
    };
    let ended = if status == GameStatus::Finished {
        match stored_ended {
            Some(t) => Some(t.clone()),
            None => Some(owned(now)),
        }
    } else {
        None
    };
    (started, ended)
}

/// The row id of a game's seat: `GAME-seat-N`.
pub fn seat_row_id(game_id: &str, seat_number: u8) -> (r: String)
    ensures
        r@ == game_id@ + "-seat-"@ + decimal(seat_number as nat),
{
    cat(&cat(game_id, "-seat-"), &u64_to_decimal(seat_number as u64))
}

/// `n` in decimal, with a leading `-` when negative.
pub open spec fn signed_decimal(n: int) -> Seq<char> {
    if n < 0 {
        "-"@ + decimal((-n) as nat)
    } else {
        decimal(n as nat)
    }
}

/// The row id of a game's move: `GAME-move-N`.
pub fn move_row_id(game_id: &str, move_number: i64) -> (r: String)
    ensures
        r@ == game_id@ + "-move-"@ + signed_decimal(move_number as int),
{
    let digits = if move_number < 0 {
        let magnitude: u64 = if move_number == i64::MIN {
            9223372036854775808u64
        } else {
            (-move_number) as u64
        };
        cat("-", &u64_to_decimal(magnitude))
    } else {
        u64_to_decimal(move_number as u64)
    };
    cat(&cat(game_id, "-move-"), &digits)
}

// ----- claiming an invitation -----

/// Whether `claimant` may accept `existing`: a still-pending invitation
/// naming a player belongs to that player alone. Once answered, the
/// invitation is not checked here; the guarded update reports it.
pub fn claim_check(existing: &InvitationRecord, claimant_player_id: &str) -> (r: Result<(), ClaimInvitationError>)
    ensures
        r is Err <==> (existing.status@ == "pending"@ && existing.invited_player_id is Some
            && existing.invited_player_id->0@ != claimant_player_id@),
        r matches Err(e) ==> e == ClaimInvitationError::NotYourInvitation,
{
    if str_eq(existing.status.as_str(), "pending") {
        match &existing.invited_player_id {
            Some(named) => {
                if !str_eq(named.as_str(), claimant_player_id) {
                    return Err(ClaimInvitationError::NotYourInvitation);
                }
            },
            None => {},
        }
    }
    Ok(())
}

/// The outcome of the guarded update that accepts an invitation:
/// no row changed means someone answered first; otherwise the invitation
/// now belongs to `claimant`, accepted at `now`.
pub fn claim_outcome(
    existing: InvitationRecord,
    claimant_player_id: &str,
    now: String,
    rows_affected: u64,
) -> (r: Result<InvitationRecord, ClaimInvitationError>)
    ensures
        rows_affected == 0 ==> r == Err::<InvitationRecord, ClaimInvitationError>(ClaimInvitationError::NoLongerAvailable),
        rows_affected != 0 ==> (r matches Ok(inv) && {
            &&& inv.id == existing.id
            &&& inv.game_id == existing.game_id
            &&& inv.inviting_player_id == existing.inviting_player_id
            &&& inv.seat_number == existing.seat_number
            &&& inv.created_at == existing.created_at
            &&& inv.invited_email == existing.invited_email
            &&& inv.invited_player_id matches Some(p) && p@ == claimant_player_id@
            &&& inv.status@ == "accepted"@
            &&& inv.responded_at == Some(now)
        }),
{
    if rows_affected == 0 {
        return Err(ClaimInvitationError::NoLongerAvailable);
    }
    Ok(InvitationRecord {
        invited_player_id: Some(owned(claimant_player_id)),
        status: owned("accepted"),
        responded_at: Some(now),
        ..existing
    })
}

// ----- the stored form of a variant's rules -----

/// A variant's rules as the store keeps them: the letter tables may be
/// shorter than `MAX_ALPHABET_SIZE` (older games), and the premiums are a
/// plain list.
#[derive(Debug)]
pub struct PersistedVariantRules {
    pub name: String,
    pub language: String,
    pub letter_values: Vec<u8>,
    pub tile_distribution: Vec<u8>,
    pub alphabet: Alphabet,
    pub blank_tiles: u8,
    pub rack_size: u8,
    pub width: u8,
    pub height: u8,
    pub bingo_bonus: u32,
    pub premiums: Vec<Premium>,
}

/// `s` padded with zeros to `n` entries.
pub open spec fn zero_padded(s: Seq<u8>, n: nat) -> Seq<u8> {
    s + Seq::new((n - s.len()) as nat, |i: int| 0u8)
}

/// `t` holds `s` followed by zeros up to `MAX_ALPHABET_SIZE` entries.
fn pad_table(s: &Vec<u8>) -> (t: Vec<u8>)
    requires
        s@.len() <= MAX_ALPHABET_SIZE,
    ensures
        t@ == zero_padded(s@, MAX_ALPHABET_SIZE as nat),
{
    let mut t: Vec<u8> = Vec::new();
    let mut i: usize = 0;
    while i < MAX_ALPHABET_SIZE
        invariant
            i <= MAX_ALPHABET_SIZE,
            s@.len() <= MAX_ALPHABET_SIZE,
            t@.len() == i,
            forall|j: int| 0 <= j < i ==> #[trigger] t@[j] == if j < s@.len() { s@[j] } else { 0u8 },
        decreases MAX_ALPHABET_SIZE - i,
    {
        if i < s.len() {
            t.push(s[i]);
        } else {
            t.push(0);
        }
        i = i + 1;
    }
    assert(t@ =~= zero_padded(s@, MAX_ALPHABET_SIZE as nat));
    t
}

/// `p` stores `rules`, field for field.
pub open spec fn stores(p: PersistedVariantRules, rules: VariantRules) -> bool {
    &&& p.name@ == rules.name@
    &&& p.language@ == rules.language@
    &&& p.letter_values@ == rules.letter_values@
    &&& p.tile_distribution@ == rules.tile_distribution@
    &&& p.alphabet.graphemes@.map_values(|g: String| g@) == rules.alphabet.graphemes@.map_values(|g: String| g@)
    &&& p.blank_tiles == rules.blank_tiles
    &&& p.rack_size == rules.rack_size
    &&& p.width == rules.width
    &&& p.height == rules.height
    &&& p.bingo_bonus == rules.bingo_bonus
    &&& p.premiums@ == rules.premiums@
}

/// `rules` is what `p` loads as: the letter tables padded with zeros.
pub open spec fn loads_as(p: PersistedVariantRules, rules: VariantRules) -> bool {
    &&& rules.name@ == p.name@
    &&& rules.language@ == p.language@
    &&& rules.letter_values@ == zero_padded(p.letter_values@, MAX_ALPHABET_SIZE as nat)
    &&& rules.tile_distribution@ == zero_padded(p.tile_distribution@, MAX_ALPHABET_SIZE as nat)
    &&& rules.alphabet.graphemes@.map_values(|g: String| g@) == p.alphabet.graphemes@.map_values(|g: String| g@)
    &&& rules.blank_tiles == p.blank_tiles
    &&& rules.rack_size == p.rack_size
    &&& rules.width == p.width
    &&& rules.height == p.height
    &&& rules.bingo_bonus == p.bingo_bonus
    &&& rules.premiums@ == p.premiums@
}

fn copy_alphabet(a: &Alphabet) -> (r: Alphabet)
    ensures
        r.graphemes@.map_values(|g: String| g@) == a.graphemes@.map_values(|g: String| g@),
        r.graphemes@.len() == a.graphemes@.len(),
{
    let mut gs: Vec<String> = Vec::new();
    let mut i: usize = 0;
    while i < a.graphemes.len()
        invariant
            i <= a.graphemes@.len(),
            gs@.len() == i,
            forall|j: int| 0 <= j < i ==> (#[trigger] gs@[j])@ == a.graphemes@[j]@,
        decreases a.graphemes@.len() - i,
    {
        gs.push(a.graphemes[i].clone());
        i = i + 1;
    }
    let r = Alphabet { graphemes: gs };
    assert(r.graphemes@.map_values(|g: String| g@) =~= a.graphemes@.map_values(|g: String| g@));
    r
}

impl PersistedVariantRules {
    /// The stored form of `rules`.
    pub fn from_rules(rules: &VariantRules) -> (p: PersistedVariantRules)
        ensures
            stores(p, *rules),
    {
        let letter_values = rules.letter_values.clone();
        let tile_distribution = rules.tile_distribution.clone();
        let premiums = rules.premiums.clone();
        assert(letter_values@ =~= rules.letter_values@);
        assert(tile_distribution@ =~= rules.tile_distribution@);
        assert(premiums@ =~= rules.premiums@);
        PersistedVariantRules {
            name: rules.name.clone(),
            language: rules.language.clone(),
            letter_values,
            tile_distribution,
            alphabet: copy_alphabet(&rules.alphabet),
            blank_tiles: rules.blank_tiles,
            rack_size: rules.rack_size,
            width: rules.width,
            height: rules.height,
            bingo_bonus: rules.bingo_bonus,
            premiums,
        }
    }

    /// The rules `self` stores. Refused when the premiums do not cover the
    /// board, or a letter table is longer than `MAX_ALPHABET_SIZE`.
    pub fn into_rules(self) -> (r: Result<VariantRules, String>)
        ensures
            self.premiums@.len() != BOARD_CELLS ==> (r matches Err(e) && e@ == "persisted premiums length did not match the board size"@),
            self.premiums@.len() == BOARD_CELLS && (self.letter_values@.len() > MAX_ALPHABET_SIZE
                || self.tile_distribution@.len() > MAX_ALPHABET_SIZE) ==> (r matches Err(e)
                && e@ == "persisted letter table longer than MAX_ALPHABET_SIZE"@),
            self.premiums@.len() == BOARD_CELLS && self.letter_values@.len() <= MAX_ALPHABET_SIZE
                && self.tile_distribution@.len() <= MAX_ALPHABET_SIZE ==> (r matches Ok(rules) && loads_as(self, rules)),
    {
        if self.premiums.len() != BOARD_CELLS {
            return Err(owned("persisted premiums length did not match the board size"));
        }
        if self.letter_values.len() > MAX_ALPHABET_SIZE || self.tile_distribution.len() > MAX_ALPHABET_SIZE {
            return Err(owned("persisted letter table longer than MAX_ALPHABET_SIZE"));
        }
        let letter_values = pad_table(&self.letter_values);
        let tile_distribution = pad_table(&self.tile_distribution);
        Ok(VariantRules {
            name: self.name,
            language: self.language,
            letter_values,
            tile_distribution,
            alphabet: self.alphabet,
            blank_tiles: self.blank_tiles,
            rack_size: self.rack_size,
            width: self.width,
            height: self.height,
            bingo_bonus: self.bingo_bonus,
            premiums: self.premiums,
        })
    }
}

/// Storing well-formed rules and loading them back gives the same rules.
pub proof fn law_rules_roundtrip(rules: VariantRules, stored: PersistedVariantRules, loaded: VariantRules)
    requires
        rules.wf(),
        stores(stored, rules),
        loads_as(stored, loaded),
    ensures
        loaded.name@ == rules.name@,
        loaded.language@ == rules.language@,
        loaded.letter_values@ == rules.letter_values@,
        loaded.tile_distribution@ == rules.tile_distribution@,
        loaded.alphabet.graphemes@.map_values(|g: String| g@) == rules.alphabet.graphemes@.map_values(|g: String| g@),
        loaded.blank_tiles == rules.blank_tiles,
        loaded.rack_size == rules.rack_size,
        loaded.width == rules.width,
        loaded.height == rules.height,
        loaded.bingo_bonus == rules.bingo_bonus,
        loaded.premiums@ == rules.premiums@,
{
    assert(zero_padded(rules.letter_values@, MAX_ALPHABET_SIZE as nat) =~= rules.letter_values@);
    assert(zero_padded(rules.tile_distribution@, MAX_ALPHABET_SIZE as nat) =~= rules.tile_distribution@);
}

} // verus!
