//! A game session: who sits where, whose turn it is, how moves, passes,
//! exchanges and resignations change it, and how it ends.

use vstd::prelude::*;
use crate::clock::{new_uuid_string, now_unix_seconds};
use crate::dto::{GameStateDto, GameStatus, PositionDto, RackDto, SeatInvitationStatus, SeatKind};
use crate::persistence::InvitationRecord;
pub use crate::convert::{
    board_from_dto, move_candidate_from_dto, move_candidate_to_dto, tile_from_dto, tile_to_dto,
};
use crate::rules::{
    bag_wf, build_bag, fresh_bag, sum_u8, kind_count, lemma_rack_value_bound, lemma_sum_update, tile_kind, rack_value, rack_value_spec,
    refill_rack, reset_blank_spec, reset_blank_tile, shuffle_bag, fisher_yates, seeded_draws, tile_fresh, tile_wf, BoardCell, GameState, Rack,
    Direction, MoveCandidate, MoveValidation, Position, Tile, TilePlacement, VariantRules, BOARD_CELLS,
    BOARD_HEIGHT, BOARD_WIDTH, MAX_ALPHABET_SIZE,
};
use crate::text::{
    cat, chars_of, decimal, lemma_seq_lt_transitive, lemma_seq_lt_trichotomy, seq_lt, str_eq, str_less, opt_str_eq, opt_str_is, opt_view, owned, parse_u64, parse_u64_spec,
    trim, trim_spec, u64_to_decimal,
};

verus! {

/// One entry of a game's move history.
#[derive(Debug)]
pub struct MoveRecord {
    pub move_number: i64,
    pub seat_number: u8,
    pub move_type: String,
    pub main_word: Option<String>,
    pub score_delta: i32,
    pub description: String,
    /// Board squares this move placed a tile on; empty for anything but a
    /// placement.
    pub positions: Vec<PositionDto>,
}

/// A single chat message posted to a game, with the sender's name as it
/// was when the message was sent.
#[derive(Debug)]
pub struct ChatMessageRecord {
    pub id: String,
    pub player_id: String,
    pub display_name: String,
    pub body: String,
    pub created_at: String,
}

/// Cap on a single chat message's length, in characters.
pub const MAX_CHAT_MESSAGE_LEN: usize = 1000;

/// What a caller may see of a game's full state.
#[derive(Clone, Copy, Debug, PartialEq, Eq, Structural)]
pub enum ViewerAccess {
    /// Neither seated nor the creator (or not signed in).
    Rejected,
    /// Created the game but holds no seat: sees the board, never a rack,
    /// never chat.
    Creator,
    /// Holds a seat: sees what the creator sees, plus chat and their own
    /// rack.
    Participant { seat_number: u8 },
}

#[derive(Debug)]
pub struct ParticipantState {
    pub seat_number: u8,
    pub kind: SeatKind,
    pub display_name: String,
    pub player_id: Option<String>,
    pub engine_id: Option<String>,
    pub score: i32,
    pub rack: Rack,
    pub resigned: bool,
    /// This seat's player has hidden the finished game from their own list.
    pub removed_by_player: bool,
    /// The address an emailed invitation for this seat went to, until the
    /// seat is claimed.
    pub invited_email: Option<String>,
    /// The turn a running-low-on-time reminder was last sent for.
    pub reminder_sent_turn: Option<i64>,
}

/// Consecutive scoreless plays (passes or exchanges), summed across all
/// seats, that end the game with no one going out.
pub const SCORELESS_TURN_LIMIT: u8 = 6;

/// Default per-move time limit: 72 hours.
pub const DEFAULT_MOVE_TIME_LIMIT_SECONDS: u64 = 259200;

#[derive(Debug)]
pub struct GameSession {
    pub id: String,
    pub status: GameStatus,
    pub variant: String,
    pub language: String,
    pub board_layout: String,
    pub turn_number: i64,
    pub current_seat: u8,
    pub winner_seat: Option<u8>,
    /// Set only when someone went out: the seat that did and the points
    /// the other racks handed it.
    pub final_bonus_seat: Option<u8>,
    pub final_bonus_points: Option<i32>,
    /// Who created the game; not necessarily seated in it.
    pub creator_player_id: Option<String>,
    /// The unseated creator has hidden the finished game from their list.
    pub removed_by_creator: bool,
    pub random_seed: u64,
    pub rules: VariantRules,
    pub state: GameState,
    pub bag: Vec<Tile>,
    pub participants: Vec<ParticipantState>,
    pub moves: Vec<MoveRecord>,
    pub messages: Vec<ChatMessageRecord>,
    pub consecutive_scoreless_turns: u8,
    pub move_time_limit_seconds: u64,
    /// Unix seconds, in decimal, when the current turn began.
    pub turn_started_at: String,
}

// ----- seat predicates -----

/// Whether `p` is claimed by player `pid`.
pub open spec fn holds_seat(p: ParticipantState, pid: Seq<char>) -> bool {
    p.player_id is Some && p.player_id->0@ == pid
}

/// `i` is the first seat that player `pid` holds.
pub open spec fn is_first_seat_of(ps: Seq<ParticipantState>, pid: Seq<char>, i: int) -> bool {
    &&& 0 <= i < ps.len()
    &&& holds_seat(ps[i], pid)
    &&& forall|j: int| 0 <= j < i ==> !holds_seat(#[trigger] ps[j], pid)
}

/// Player `pid` holds some seat.
pub open spec fn is_seated(ps: Seq<ParticipantState>, pid: Seq<char>) -> bool {
    exists|i: int| 0 <= i < ps.len() && holds_seat(#[trigger] ps[i], pid)
}

/// The first seat player `pid` holds (meaningful when seated).
pub open spec fn first_seat_of(ps: Seq<ParticipantState>, pid: Seq<char>) -> int {
    choose|i: int| is_first_seat_of(ps, pid, i)
}

pub proof fn lemma_first_seat_exists(ps: Seq<ParticipantState>, pid: Seq<char>, k: int)
    requires
        0 <= k < ps.len(),
        holds_seat(ps[k], pid),
    ensures
        is_first_seat_of(ps, pid, first_seat_of(ps, pid)),
    decreases k,
{
    if exists|j: int| 0 <= j < k && holds_seat(#[trigger] ps[j], pid) {
        let j = choose|j: int| 0 <= j < k && holds_seat(#[trigger] ps[j], pid);
        lemma_first_seat_exists(ps, pid, j);
    } else {
        assert(is_first_seat_of(ps, pid, k));
    }
}

pub proof fn lemma_first_seat_unique(ps: Seq<ParticipantState>, pid: Seq<char>, i: int)
    requires
        is_first_seat_of(ps, pid, i),
    ensures
        first_seat_of(ps, pid) == i,
{
    let f = first_seat_of(ps, pid);
    assert(is_first_seat_of(ps, pid, f));
    if f < i {
        assert(!holds_seat(ps[f], pid));
    }
    if i < f {
        assert(!holds_seat(ps[i], pid));
    }
}

/// What `pid` may see of a game with these seats and this creator.
pub open spec fn viewer_access_spec(
    ps: Seq<ParticipantState>,
    creator: Option<String>,
    pid: Option<Seq<char>>,
) -> ViewerAccess {
    match pid {
        None => ViewerAccess::Rejected,
        Some(p) => if is_seated(ps, p) {
            ViewerAccess::Participant { seat_number: ps[first_seat_of(ps, p)].seat_number }
        } else if creator is Some && creator->0@ == p {
            ViewerAccess::Creator
        } else {
            ViewerAccess::Rejected
        },
    }
}

/// The view of an optional borrowed string.
pub open spec fn opt_str_view(s: Option<&str>) -> Option<Seq<char>> {
    match s {
        Some(x) => Some(x@),
        None => None,
    }
}

/// The first seat player `pid` holds, if any.
pub fn find_seat_of(ps: &Vec<ParticipantState>, pid: &str) -> (r: Option<usize>)
    ensures
        r matches Some(i) ==> is_first_seat_of(ps@, pid@, i as int) && first_seat_of(ps@, pid@)
            == i,
        r is None ==> !is_seated(ps@, pid@),
{
    let mut i: usize = 0;
    while i < ps.len()
        invariant
            i <= ps@.len(),
            forall|j: int| 0 <= j < i ==> !holds_seat(#[trigger] ps@[j], pid@),
        decreases ps@.len() - i,
    {
        if opt_str_is(&ps[i].player_id, pid) {
            proof {
                lemma_first_seat_unique(ps@, pid@, i as int);
            }
            return Some(i);
        }
        i = i + 1;
    }
    None
}

/// The single shared authorization check for a game's full state: a
/// seated player is a `Participant` (even if also the creator), an unseated
/// creator is `Creator`, anyone else or no one is `Rejected`.
pub fn resolve_viewer_access(session: &GameSession, player_id: Option<&str>) -> (r: ViewerAccess)
    ensures
        r == viewer_access_spec(
            session.participants@,
            session.creator_player_id,
            opt_str_view(player_id),
        ),
{
    let player_id = match player_id {
        None => {
            return ViewerAccess::Rejected;
        },
        Some(p) => p,
    };
    match find_seat_of(&session.participants, player_id) {
        Some(i) => {
            return ViewerAccess::Participant { seat_number: session.participants[i].seat_number };
        },
        None => {},
    }
    if opt_str_is(&session.creator_player_id, player_id) {
        return ViewerAccess::Creator;
    }
    ViewerAccess::Rejected
}

/// A seated player is never demoted to `Creator` or `Rejected`: whoever
/// holds a seat resolves to the seat they hold first.
pub proof fn law_seated_player_resolves_to_participant(session: GameSession, pid: Seq<char>, k: int)
    requires
        0 <= k < session.participants@.len(),
        holds_seat(session.participants@[k], pid),
    ensures
        viewer_access_spec(session.participants@, session.creator_player_id, Some(pid)) matches ViewerAccess::Participant { seat_number }
            && exists|i: int|
            0 <= i <= k && is_first_seat_of(session.participants@, pid, i)
                && session.participants@[i].seat_number == seat_number,
{
    lemma_first_seat_exists(session.participants@, pid, k);
    let f = first_seat_of(session.participants@, pid);
    if f > k {
        assert(!holds_seat(session.participants@[k], pid));
    }
}

impl GameSession {
    /// The parts every method indexes by have the lengths it expects.
    pub open spec fn wf(&self) -> bool {
        &&& self.rules.wf()
        &&& bag_wf(self.bag@)
        &&& self.state.board.cells@.len() == BOARD_CELLS
        &&& forall|i: int| 0 <= i < self.participants@.len() ==> (#[trigger] self.participants@[i]).rack.wf()
    }
}

/// Seat `i` carries the number `i`, for every seat.
pub open spec fn numbered(ps: Seq<ParticipantState>) -> bool {
    forall|i: int| 0 <= i < ps.len() ==> (#[trigger] ps[i]).seat_number == i
}

/// Some human seat is still waiting for a player.
pub open spec fn has_unclaimed_human(ps: Seq<ParticipantState>) -> bool {
    exists|i: int| 0 <= i < ps.len() && (#[trigger] ps[i]).kind == SeatKind::Human && ps[i].player_id is None
}

/// Every field of the session but the seats is as it was.
pub open spec fn same_but_seats(a: GameSession, b: GameSession) -> bool {
    &&& a.id == b.id
    &&& a.status == b.status
    &&& a.variant == b.variant
    &&& a.language == b.language
    &&& a.board_layout == b.board_layout
    &&& a.turn_number == b.turn_number
    &&& a.current_seat == b.current_seat
    &&& a.winner_seat == b.winner_seat
    &&& a.final_bonus_seat == b.final_bonus_seat
    &&& a.final_bonus_points == b.final_bonus_points
    &&& a.creator_player_id == b.creator_player_id
    &&& a.removed_by_creator == b.removed_by_creator
    &&& a.random_seed == b.random_seed
    &&& a.rules == b.rules
    &&& a.state == b.state
    &&& a.bag == b.bag
    &&& a.moves == b.moves
    &&& a.messages == b.messages
    &&& a.consecutive_scoreless_turns == b.consecutive_scoreless_turns
    &&& a.move_time_limit_seconds == b.move_time_limit_seconds
    &&& a.turn_started_at == b.turn_started_at
}

/// `p` with its seat number replaced.
pub open spec fn renumbered(p: ParticipantState, n: u8) -> ParticipantState {
    ParticipantState { seat_number: n, ..p }
}

/// Whether some human seat is still waiting for a player.
pub fn any_unclaimed_human(ps: &Vec<ParticipantState>) -> (r: bool)
    ensures
        r == has_unclaimed_human(ps@),
{
    let mut i: usize = 0;
    while i < ps.len()
        invariant
            i <= ps@.len(),
            forall|j: int|
                0 <= j < i ==> !((#[trigger] ps@[j]).kind == SeatKind::Human && ps@[j].player_id is None),
        decreases ps@.len() - i,
    {
        if ps[i].kind == SeatKind::Human && ps[i].player_id.is_none() {
            return true;
        }
        i = i + 1;
    }
    false
}

/// Exchanges seats `a` and `b`, each taking the other's number.
fn swap_renumbered(ps: &mut Vec<ParticipantState>, a: usize, b: usize)
    requires
        a < old(ps)@.len(),
        b < old(ps)@.len(),
        a != b,
        a < 256,
        b < 256,
    ensures
        final(ps)@ == old(ps)@.update(a as int, renumbered(old(ps)@[b as int], a as u8)).update(
            b as int,
            renumbered(old(ps)@[a as int], b as u8),
        ),
{
    let ghost s = ps@;
    let lo = if a < b { a } else { b };
    let hi = if a < b { b } else { a };
    let mut p_hi = ps.remove(hi);
    let ghost s1 = ps@;
    assert(s1 =~= s.remove(hi as int));
    let mut p_lo = ps.remove(lo);
    let ghost s2 = ps@;
    assert(forall|k: int| 0 <= k < lo ==> s2[k] == s[k]);
    assert(forall|k: int| lo <= k < hi - 1 ==> s2[k] == s[k + 1]);
    assert(forall|k: int| hi - 1 <= k < s2.len() ==> s2[k] == s[k + 2]);
    p_hi.seat_number = lo as u8;
    p_lo.seat_number = hi as u8;
    ps.insert(lo, p_hi);
    let ghost s3 = ps@;
    assert(forall|k: int| lo < k < hi ==> s3[k] == s[k]);
    ps.insert(hi, p_lo);
    let ghost target = s.update(lo as int, renumbered(s[hi as int], lo as u8)).update(
        hi as int,
        renumbered(s[lo as int], hi as u8),
    );
    assert(ps@ =~= target);
    if a < b {
        assert(target =~= s.update(a as int, renumbered(s[b as int], a as u8)).update(
            b as int,
            renumbered(s[a as int], b as u8),
        ));
    } else {
        assert(target =~= s.update(a as int, renumbered(s[b as int], a as u8)).update(
            b as int,
            renumbered(s[a as int], b as u8),
        ));
    }
}

impl GameSession {
    /// Swaps two seats, and with them the turn order. Only before the game
    /// starts, and only once every human seat has a player.
    pub fn swap_seats(&mut self, seat_a: u8, seat_b: u8) -> (r: Result<(), String>)
        ensures
            same_but_seats(*old(self), *final(self)),
            old(self).status != GameStatus::Waiting ==> (r matches Err(e) && e@
                == "Seats can only be reordered before the game starts"@),
            old(self).status == GameStatus::Waiting && has_unclaimed_human(old(self).participants@)
                ==> (r matches Err(e) && e@
                == "Every seat must be filled before seats can be reordered"@),
            old(self).status == GameStatus::Waiting && !has_unclaimed_human(
                old(self).participants@,
            ) && (seat_a >= old(self).participants@.len() || seat_b >= old(self).participants@.len()) ==> (r matches Err(e) && e@ == "Unknown seat"@),
            old(self).status == GameStatus::Waiting && !has_unclaimed_human(old(self).participants@)
                && seat_a < old(self).participants@.len() && seat_b < old(self).participants@.len() ==> r is Ok,
            r is Err ==> final(self).participants@ == old(self).participants@,
            r is Ok ==> {
                &&& old(self).status == GameStatus::Waiting
                &&& !has_unclaimed_human(old(self).participants@)
                &&& seat_a < old(self).participants@.len()
                &&& seat_b < old(self).participants@.len()
                &&& final(self).participants@ == if seat_a == seat_b {
                    old(self).participants@
                } else {
                    old(self).participants@.update(
                        seat_a as int,
                        renumbered(old(self).participants@[seat_b as int], seat_a),
                    ).update(
                        seat_b as int,
                        renumbered(old(self).participants@[seat_a as int], seat_b),
                    )
                }
            },
    {
        if self.status != GameStatus::Waiting {
            return Err(owned("Seats can only be reordered before the game starts"));
        }
        if any_unclaimed_human(&self.participants) {
            return Err(owned("Every seat must be filled before seats can be reordered"));
        }
        let a = seat_a as usize;
        let b = seat_b as usize;
        if a >= self.participants.len() || b >= self.participants.len() {
            return Err(owned("Unknown seat"));
        }
        if a != b {
            swap_renumbered(&mut self.participants, a, b);
        }
        Ok(())
    }
}

/// Swapping the same two seats twice restores the seating it started from, when
/// seats are numbered by position.
pub proof fn law_swap_twice_restores(ps: Seq<ParticipantState>, a: int, b: int)
    requires
        numbered(ps),
        0 <= a < ps.len(),
        0 <= b < ps.len(),
        a != b,
    ensures
        ({
            let once = ps.update(a, renumbered(ps[b], a as u8)).update(
                b,
                renumbered(ps[a], b as u8),
            );
            let twice = once.update(a, renumbered(once[b], a as u8)).update(
                b,
                renumbered(once[a], b as u8),
            );
            twice == ps
        }),
{
    let once = ps.update(a, renumbered(ps[b], a as u8)).update(b, renumbered(ps[a], b as u8));
    let twice = once.update(a, renumbered(once[b], a as u8)).update(b, renumbered(once[a], b as u8));
    assert(twice =~= ps);
}

/// A swap keeps seats numbered by position.
pub proof fn law_swap_keeps_numbering(ps: Seq<ParticipantState>, a: int, b: int)
    requires
        numbered(ps),
        0 <= a < ps.len(),
        0 <= b < ps.len(),
        a < 256,
        b < 256,
    ensures
        numbered(ps.update(a, renumbered(ps[b], a as u8)).update(b, renumbered(ps[a], b as u8))),
{
}

/// The move record `m` carries exactly these values.
pub open spec fn record_is(
    m: MoveRecord,
    move_number: i64,
    seat_number: u8,
    move_type: Seq<char>,
    main_word: Option<Seq<char>>,
    score_delta: i32,
    description: Seq<char>,
) -> bool {
    &&& m.move_number == move_number
    &&& m.seat_number == seat_number
    &&& m.move_type@ == move_type
    &&& opt_view(m.main_word) == main_word
    &&& m.score_delta == score_delta
    &&& m.description@ == description
}

/// A move record for a play that placed no tiles.
fn tileless_record(
    move_number: i64,
    seat_number: u8,
    move_type: &str,
    description: String,
) -> (m: MoveRecord)
    ensures
        record_is(m, move_number, seat_number, move_type@, None, 0, description@),
        m.positions@.len() == 0,
{
    MoveRecord {
        move_number,
        seat_number,
        move_type: owned(move_type),
        main_word: None,
        score_delta: 0,
        description,
        positions: Vec::new(),
    }
}

/// How many tiles of kind `k` all the racks together hold.
pub open spec fn racks_kind(ps: Seq<ParticipantState>, k: int) -> int
    decreases ps.len(),
{
    if ps.len() == 0 {
        0
    } else {
        racks_kind(ps.drop_last(), k) + ps.last().rack.kind(k)
    }
}

/// Seats `i..` are identical in both lists except for their racks.
pub open spec fn same_but_rack(a: ParticipantState, b: ParticipantState) -> bool {
    &&& a.seat_number == b.seat_number
    &&& a.kind == b.kind
    &&& a.display_name == b.display_name
    &&& a.player_id == b.player_id
    &&& a.engine_id == b.engine_id
    &&& a.score == b.score
    &&& a.resigned == b.resigned
    &&& a.removed_by_player == b.removed_by_player
    &&& a.invited_email == b.invited_email
    &&& a.reminder_sent_turn == b.reminder_sent_turn
}

impl GameSession {
    /// Appends a seat at the end, numbered after the existing ones, before
    /// the game starts.
    pub fn add_seat(&mut self, seat: ParticipantState) -> (r: Result<(), String>)
        ensures
            same_but_seats(*old(self), *final(self)),
            old(self).status != GameStatus::Waiting ==> (r matches Err(e) && e@
                == "Seats can only be added before the game starts"@) && final(self).participants@
                == old(self).participants@,
            old(self).status == GameStatus::Waiting ==> r is Ok && final(self).participants@ == old(self).participants@.push(renumbered(seat, old(self).participants@.len() as u8)),
    {
        if self.status != GameStatus::Waiting {
            return Err(owned("Seats can only be added before the game starts"));
        }
        let mut seat = seat;
        seat.seat_number = self.participants.len() as u8;
        self.participants.push(seat);
        Ok(())
    }

    /// Removes a seat before the game starts (never the creator's own) and
    /// renumbers the seats after it.
    pub fn remove_seat(&mut self, seat_number: u8) -> (r: Result<(), String>)
        ensures
            same_but_seats(*old(self), *final(self)),
            old(self).status != GameStatus::Waiting ==> (r matches Err(e) && e@
                == "Seats can only be removed before the game starts"@),
            old(self).status == GameStatus::Waiting && seat_number >= old(self).participants@.len()
                ==> (r matches Err(e) && e@ == "Unknown seat"@),
            old(self).status == GameStatus::Waiting && seat_number < old(self).participants@.len()
                && old(self).participants@[seat_number as int].player_id is Some && opt_view(
                old(self).participants@[seat_number as int].player_id,
            ) == opt_view(old(self).creator_player_id) ==> (r matches Err(e) && e@
                == "The creator's own seat can't be removed"@),
            old(self).status == GameStatus::Waiting && seat_number < old(self).participants@.len()
                && !(old(self).participants@[seat_number as int].player_id is Some && opt_view(
                old(self).participants@[seat_number as int].player_id,
            ) == opt_view(old(self).creator_player_id)) ==> r is Ok,
            r is Err ==> final(self).participants@ == old(self).participants@,
            r is Ok ==> {
                &&& old(self).status == GameStatus::Waiting
                &&& seat_number < old(self).participants@.len()
                &&& !(old(self).participants@[seat_number as int].player_id is Some && opt_view(
                    old(self).participants@[seat_number as int].player_id,
                ) == opt_view(old(self).creator_player_id))
                &&& final(self).participants@.len() == old(self).participants@.len() - 1
                &&& forall|i: int|
                    0 <= i < final(self).participants@.len() ==> #[trigger] final(self).participants@[i] == renumbered(
                        old(self).participants@.remove(seat_number as int)[i],
                        i as u8,
                    )
            },
    {
        if self.status != GameStatus::Waiting {
            return Err(owned("Seats can only be removed before the game starts"));
        }
        let index = seat_number as usize;
        if index >= self.participants.len() {
            return Err(owned("Unknown seat"));
        }
        if self.participants[index].player_id.is_some() && opt_str_eq(
            &self.participants[index].player_id,
            &self.creator_player_id,
        ) {
            return Err(owned("The creator's own seat can't be removed"));
        }
        let ghost before = self.participants@;
        self.participants.remove(index);
        let ghost removed = self.participants@;
        let mut new_index: usize = 0;
        while new_index < self.participants.len()
            invariant
                same_but_seats(*old(self), *self),
                removed == before.remove(index as int),
                self.participants@.len() == removed.len(),
                new_index <= removed.len(),
                forall|i: int|
                    0 <= i < new_index ==> #[trigger] self.participants@[i] == renumbered(
                        removed[i],
                        i as u8,
                    ),
                forall|i: int|
                    new_index <= i < removed.len() ==> #[trigger] self.participants@[i]
                        == removed[i],
            decreases removed.len() - new_index,
        {
            self.participants[new_index].seat_number = new_index as u8;
            new_index = new_index + 1;
        }
        Ok(())
    }

    /// Gives a claimed, non-creator seat back up before the game starts:
    /// the seat stays, unclaimed.
    pub fn withdraw_seat(&mut self, seat_number: u8) -> (r: Result<(), String>)
        ensures
            same_but_seats(*old(self), *final(self)),
            old(self).status != GameStatus::Waiting ==> (r matches Err(e) && e@
                == "A seat can only be withdrawn before the game starts"@),
            old(self).status == GameStatus::Waiting && seat_number >= old(self).participants@.len()
                ==> (r matches Err(e) && e@ == "Unknown seat"@),
            old(self).status == GameStatus::Waiting && seat_number < old(self).participants@.len()
                && old(self).participants@[seat_number as int].player_id is None ==> (r matches Err(
                e,
            ) && e@ == "That seat isn't claimed"@),
            old(self).status == GameStatus::Waiting && seat_number < old(self).participants@.len()
                && old(self).participants@[seat_number as int].player_id is Some && opt_view(
                old(self).participants@[seat_number as int].player_id,
            ) == opt_view(old(self).creator_player_id) ==> (r matches Err(e) && e@
                == "The creator's own seat can't be withdrawn"@),
            old(self).status == GameStatus::Waiting && seat_number < old(self).participants@.len()
                && old(self).participants@[seat_number as int].player_id is Some && opt_view(
                old(self).participants@[seat_number as int].player_id,
            ) != opt_view(old(self).creator_player_id) ==> r is Ok,
            r is Err ==> final(self).participants@ == old(self).participants@,
            r is Ok ==> {
                &&& old(self).status == GameStatus::Waiting
                &&& seat_number < old(self).participants@.len()
                &&& old(self).participants@[seat_number as int].player_id is Some
                &&& opt_view(old(self).participants@[seat_number as int].player_id) != opt_view(
                    old(self).creator_player_id,
                )
                &&& final(self).participants@ == old(self).participants@.update(
                    seat_number as int,
                    ParticipantState { player_id: None, ..old(self).participants@[seat_number as int] },
                )
            },
    {
        if self.status != GameStatus::Waiting {
            return Err(owned("A seat can only be withdrawn before the game starts"));
        }
        let index = seat_number as usize;
        if index >= self.participants.len() {
            return Err(owned("Unknown seat"));
        }
        if self.participants[index].player_id.is_none() {
            return Err(owned("That seat isn't claimed"));
        }
        if opt_str_eq(&self.participants[index].player_id, &self.creator_player_id) {
            return Err(owned("The creator's own seat can't be withdrawn"));
        }
        let ghost before = self.participants@;
        self.participants[index].player_id = None;
        assert(self.participants@ =~= before.update(
            index as int,
            ParticipantState { player_id: None, ..before[index as int] },
        ));
        Ok(())
    }

    /// Hides a finished game from one player: their own seat if they hold
    /// one, else the game-level flag if they are the unseated creator.
    pub fn remove_for_player(&mut self, player_id: &str) -> (r: Result<(), String>)
        ensures
            *final(self) == (GameSession {
                participants: final(self).participants,
                removed_by_creator: final(self).removed_by_creator,
                ..*old(self)
            }),
            r is Err ==> *final(self) == *old(self),
            final(self).participants@.len() == old(self).participants@.len(),
            old(self).status != GameStatus::Finished ==> (r matches Err(e) && e@
                == "Only finished games can be removed"@),
            old(self).status == GameStatus::Finished && is_seated(old(self).participants@, player_id@)
                ==> r is Ok && final(self).participants@ == old(self).participants@.update(
                first_seat_of(old(self).participants@, player_id@),
                ParticipantState {
                    removed_by_player: true,
                    ..old(self).participants@[first_seat_of(old(self).participants@, player_id@)]
                },
            ) && final(self).removed_by_creator == old(self).removed_by_creator,
            old(self).status == GameStatus::Finished && !is_seated(
                old(self).participants@,
                player_id@,
            ) && opt_view(old(self).creator_player_id) == Some(player_id@) ==> r is Ok && final(self).removed_by_creator && final(self).participants@ == old(self).participants@,
            old(self).status == GameStatus::Finished && !is_seated(
                old(self).participants@,
                player_id@,
            ) && opt_view(old(self).creator_player_id) != Some(player_id@) ==> (r matches Err(e)
                && e@ == "You are not a participant in this game"@),
            r is Err ==> final(self).participants@ == old(self).participants@
                && final(self).removed_by_creator == old(self).removed_by_creator,
    {
        if self.status != GameStatus::Finished {
            return Err(owned("Only finished games can be removed"));
        }
        match find_seat_of(&self.participants, player_id) {
            Some(i) => {
                let ghost before = self.participants@;
                self.participants[i].removed_by_player = true;
                assert(self.participants@ =~= before.update(
                    i as int,
                    ParticipantState { removed_by_player: true, ..before[i as int] },
                ));
                return Ok(());
            },
            None => {},
        }
        if opt_str_is(&self.creator_player_id, player_id) {
            self.removed_by_creator = true;
            return Ok(());
        }
        Err(owned("You are not a participant in this game"))
    }

    /// The operator's override: records an `admin_force_end` move and marks
    /// the game finished, leaving scores, seats and the winner alone.
    pub fn admin_force_finish(&mut self)
        ensures
            final(self).status == GameStatus::Finished,
            final(self).moves@.len() == old(self).moves@.len() + 1,
            final(self).moves@.drop_last() == old(self).moves@,
            record_is(
                final(self).moves@.last(),
                old(self).turn_number,
                old(self).current_seat,
                "admin_force_end"@,
                None,
                0,
                "Game force-ended by admin"@,
            ),
            final(self).moves@.last().positions@.len() == 0,
            *final(self) == (GameSession { status: GameStatus::Finished, moves: final(self).moves, ..*old(self) }),
    {
        let record = tileless_record(
            self.turn_number,
            self.current_seat,
            "admin_force_end",
            owned("Game force-ended by admin"),
        );
        self.moves.push(record);
        assert(self.moves@.drop_last() =~= old(self).moves@);
        self.status = GameStatus::Finished;
    }
}

/// Removing a seat keeps the remaining seats numbered by position.
pub proof fn law_remove_keeps_numbering(before: Seq<ParticipantState>, after: Seq<ParticipantState>, index: int)
    requires
        0 <= index < before.len(),
        after.len() == before.len() - 1,
        before.len() <= 256,
        forall|i: int|
            0 <= i < after.len() ==> #[trigger] after[i] == renumbered(before.remove(index)[i], i as u8),
    ensures
        numbered(after),
{
}

/// Appending a seat keeps seats numbered by position while fewer than 256.
pub proof fn law_add_keeps_numbering(before: Seq<ParticipantState>, seat: ParticipantState)
    requires
        numbered(before),
        before.len() < 256,
    ensures
        numbered(before.push(renumbered(seat, before.len() as u8))),
{
}

// ----- turn order and endings -----

/// How many seats have not resigned.
pub open spec fn active_count(ps: Seq<ParticipantState>) -> nat
    decreases ps.len(),
{
    if ps.len() == 0 {
        0
    } else {
        active_count(ps.drop_last()) + if !ps.last().resigned { 1nat } else { 0nat }
    }
}

/// `i` is the first seat that has not resigned.
pub open spec fn is_first_active(ps: Seq<ParticipantState>, i: int) -> bool {
    &&& 0 <= i < ps.len()
    &&& !ps[i].resigned
    &&& forall|j: int| 0 <= j < i ==> (#[trigger] ps[j]).resigned
}

/// The number of the first seat that has not resigned, if any.
pub open spec fn first_active_seat(ps: Seq<ParticipantState>) -> Option<u8> {
    if exists|i: int| is_first_active(ps, i) {
        Some(ps[choose|i: int| is_first_active(ps, i)].seat_number)
    } else {
        None
    }
}

/// `n` is the seat play passes to from `cur`: the first seat after `cur`,
/// going round the table, that has not resigned.
pub open spec fn is_next_active(ps: Seq<ParticipantState>, cur: int, n: int) -> bool {
    exists|d: int| #[trigger] passes_to(ps, cur, d, n)
}

/// Going `d` seats round the table from `cur` lands on `n`, which still
/// plays, and every seat passed on the way has resigned.
pub open spec fn passes_to(ps: Seq<ParticipantState>, cur: int, d: int, n: int) -> bool {
    &&& 1 <= d <= ps.len()
    &&& n == (cur + d) % (ps.len() as int)
    &&& !ps[n].resigned
    &&& forall|e: int| 1 <= e < d ==> (#[trigger] ps[(cur + e) % (ps.len() as int)]).resigned
}

/// Seat `i` has not resigned and no seat that has not resigned scored more.
pub open spec fn is_top(ps: Seq<ParticipantState>, i: int) -> bool {
    &&& 0 <= i < ps.len()
    &&& !ps[i].resigned
    &&& forall|j: int| 0 <= j < ps.len() && !(#[trigger] ps[j]).resigned ==> ps[j].score <= ps[i].score
}

/// The winner among seats still playing: the one seat with the top score,
/// or no one if nobody is still playing or the top score is shared.
pub open spec fn winner_spec(ps: Seq<ParticipantState>) -> Option<u8> {
    if (exists|i: int| is_top(ps, i)) && (forall|i: int, j: int|
        is_top(ps, i) && is_top(ps, j) ==> i == j) {
        Some(ps[choose|i: int| is_top(ps, i)].seat_number)
    } else {
        None
    }
}

/// Every field but status, winner, current seat, turn number and turn
/// start is as it was.
pub open spec fn same_but_turn(a: GameSession, b: GameSession) -> bool {
    &&& a.id == b.id
    &&& a.variant == b.variant
    &&& a.language == b.language
    &&& a.board_layout == b.board_layout
    &&& a.final_bonus_seat == b.final_bonus_seat
    &&& a.final_bonus_points == b.final_bonus_points
    &&& a.creator_player_id == b.creator_player_id
    &&& a.removed_by_creator == b.removed_by_creator
    &&& a.random_seed == b.random_seed
    &&& a.rules == b.rules
    &&& a.state == b.state
    &&& a.bag == b.bag
    &&& a.participants == b.participants
    &&& a.moves == b.moves
    &&& a.messages == b.messages
    &&& a.consecutive_scoreless_turns == b.consecutive_scoreless_turns
    &&& a.move_time_limit_seconds == b.move_time_limit_seconds
}

/// Status, winner, current seat, turn number and turn start are as they were.
pub open spec fn turn_unchanged(a: GameSession, b: GameSession) -> bool {
    &&& a.status == b.status
    &&& a.winner_seat == b.winner_seat
    &&& a.current_seat == b.current_seat
    &&& a.turn_number == b.turn_number
    &&& a.turn_started_at == b.turn_started_at
}

/// The game ended because at most one of the seats `ps` is still playing:
/// it is over, and that seat (if any) won.
pub open spec fn ended_by_attrition(ps: Seq<ParticipantState>, o: GameSession, n: GameSession) -> bool {
    &&& n.status == GameStatus::Finished
    &&& n.winner_seat == first_active_seat(ps)
    &&& n.current_seat == o.current_seat
    &&& n.turn_number == o.turn_number
    &&& n.turn_started_at == o.turn_started_at
}

/// The turn moved on, among the seats `ps`, to the next one still
/// playing, at time `now`.
pub open spec fn moved_on(ps: Seq<ParticipantState>, o: GameSession, n: GameSession, now: u64) -> bool {
    &&& n.status == o.status
    &&& n.winner_seat == o.winner_seat
    &&& is_next_active(ps, o.current_seat as int, n.current_seat as int)
    &&& n.turn_number == o.turn_number + 1
    &&& n.turn_started_at@ == decimal(now as nat)
}

/// What ending a turn does: nothing once the game is over; end the game
/// if at most one seat still plays; otherwise pass play on.
pub open spec fn advance_post(o: GameSession, n: GameSession, now: u64) -> bool {
    &&& same_but_turn(o, n)
    &&& advance_fields(o.participants@, o, n, now)
}

/// The turn fields after ending a turn with seats `ps` (see `advance_post`).
pub open spec fn advance_fields(ps: Seq<ParticipantState>, o: GameSession, n: GameSession, now: u64) -> bool {
    if o.status == GameStatus::Finished {
        turn_unchanged(o, n)
    } else if active_count(ps) <= 1 {
        ended_by_attrition(ps, o, n)
    } else {
        moved_on(ps, o, n, now)
    }
}

/// What a seat leaving does: end the game if at most one seat still
/// plays; otherwise pass play on only if it was that seat's turn.
pub open spec fn seat_exit_post(o: GameSession, n: GameSession, seat: u8, now: u64) -> bool {
    &&& same_but_turn(o, n)
    &&& seat_exit_fields(o.participants@, o, n, seat, now)
}

/// The turn fields after a seat leaves, with seats `ps` (see `seat_exit_post`).
pub open spec fn seat_exit_fields(ps: Seq<ParticipantState>, o: GameSession, n: GameSession, seat: u8, now: u64) -> bool {
    if active_count(ps) <= 1 {
        ended_by_attrition(ps, o, n)
    } else if seat == o.current_seat {
        if o.status == GameStatus::Finished {
            turn_unchanged(o, n)
        } else {
            moved_on(ps, o, n, now)
        }
    } else {
        turn_unchanged(o, n)
    }
}

pub proof fn lemma_active_count_prefix(ps: Seq<ParticipantState>, i: int)
    requires
        0 <= i < ps.len(),
    ensures
        active_count(ps.take(i + 1)) == active_count(ps.take(i)) + if !ps[i].resigned {
            1nat
        } else {
            0nat
        },
{
    assert(ps.take(i + 1).drop_last() =~= ps.take(i));
}

pub proof fn lemma_active_count_positive(ps: Seq<ParticipantState>)
    requires
        active_count(ps) > 0,
    ensures
        exists|i: int| is_first_active(ps, i),
    decreases ps.len(),
{
    if active_count(ps.drop_last()) > 0 {
        lemma_active_count_positive(ps.drop_last());
        let i = choose|i: int| is_first_active(ps.drop_last(), i);
        assert forall|j: int| 0 <= j < i implies (#[trigger] ps[j]).resigned by {
            assert(ps.drop_last()[j] == ps[j]);
        }
        assert(ps.drop_last()[i] == ps[i]);
        assert(is_first_active(ps, i));
    } else {
        lemma_active_count_zero(ps.drop_last());
        assert forall|j: int| 0 <= j < ps.len() - 1 implies (#[trigger] ps[j]).resigned by {
            assert(ps.drop_last()[j] == ps[j]);
        }
        assert(!ps.last().resigned);
        assert(is_first_active(ps, ps.len() - 1));
    }
}

pub proof fn lemma_active_count_zero(ps: Seq<ParticipantState>)
    requires
        active_count(ps) == 0,
    ensures
        forall|j: int| 0 <= j < ps.len() ==> (#[trigger] ps[j]).resigned,
    decreases ps.len(),
{
    if ps.len() > 0 {
        lemma_active_count_zero(ps.drop_last());
        assert forall|j: int| 0 <= j < ps.len() implies (#[trigger] ps[j]).resigned by {
            if j < ps.len() - 1 {
                assert(ps.drop_last()[j] == ps[j]);
            }
        }
    }
}

pub proof fn lemma_first_active_unique(ps: Seq<ParticipantState>, i: int)
    requires
        is_first_active(ps, i),
    ensures
        first_active_seat(ps) == Some(ps[i].seat_number),
{
    let c = choose|k: int| is_first_active(ps, k);
    assert(is_first_active(ps, c));
    if c < i {
        assert(ps[c].resigned);
    }
    if i < c {
        assert(ps[i].resigned);
    }
}

/// Number of seats still playing.
fn count_active(ps: &Vec<ParticipantState>) -> (n: usize)
    ensures
        n == active_count(ps@),
{
    let mut n: usize = 0;
    let mut i: usize = 0;
    while i < ps.len()
        invariant
            i <= ps@.len(),
            n == active_count(ps@.take(i as int)),
            n <= i,
        decreases ps@.len() - i,
    {
        proof {
            lemma_active_count_prefix(ps@, i as int);
        }
        if !ps[i].resigned {
            n = n + 1;
        }
        i = i + 1;
    }
    assert(ps@.take(ps@.len() as int) =~= ps@);
    n
}

/// The number of the first seat still playing.
fn find_first_active(ps: &Vec<ParticipantState>) -> (r: Option<u8>)
    ensures
        r == first_active_seat(ps@),
{
    let mut i: usize = 0;
    while i < ps.len()
        invariant
            i <= ps@.len(),
            forall|j: int| 0 <= j < i ==> (#[trigger] ps@[j]).resigned,
        decreases ps@.len() - i,
    {
        if !ps[i].resigned {
            proof {
                lemma_first_active_unique(ps@, i as int);
            }
            return Some(ps[i].seat_number);
        }
        i = i + 1;
    }
    proof {
        if exists|k: int| is_first_active(ps@, k) {
            let k = choose|k: int| is_first_active(ps@, k);
            assert(ps@[k].resigned);
        }
    }
    None
}

proof fn lemma_mod_cover(c: int, a: int, m: int) -> (e: int)
    requires
        m >= 1,
        0 <= a < m,
        c >= 0,
    ensures
        1 <= e <= m,
        (c + e) % m == a,
{
    broadcast use vstd::arithmetic::div_mod::group_div_basics;
    let e0 = (a - c) % m;
    vstd::arithmetic::div_mod::lemma_mod_bound(a - c, m);
    vstd::arithmetic::div_mod::lemma_add_mod_noop_right(c, a - c, m);
    vstd::arithmetic::div_mod::lemma_small_mod(a as nat, m as nat);
    assert((c + e0) % m == a);
    if e0 == 0 {
        vstd::arithmetic::div_mod::lemma_mod_add_multiples_vanish(c, m);
        assert((c + m) % m == a);
        m
    } else {
        assert((c + e0) % m == a);
        e0
    }
}

proof fn lemma_mod_step(x: int, m: int)
    requires
        m >= 2,
        x >= 0,
    ensures
        ((x % m) + 1) % m == (x + 1) % m,
{
    vstd::arithmetic::div_mod::lemma_add_mod_noop(x, 1, m);
    vstd::arithmetic::div_mod::lemma_small_mod(1, m as nat);
}

impl GameSession {
    /// Ends the game when at most one seat is still playing; says whether
    /// it did.
    fn finish_if_one_or_fewer_active(&mut self) -> (ended: bool)
        ensures
            ended == (active_count(old(self).participants@) <= 1),
            same_but_turn(*old(self), *final(self)),
            ended ==> ended_by_attrition(old(self).participants@, *old(self), *final(self)),
            !ended ==> turn_unchanged(*old(self), *final(self)),
    {
        if count_active(&self.participants) > 1 {
            return false;
        }
        self.status = GameStatus::Finished;
        self.winner_seat = find_first_active(&self.participants);
        true
    }

    /// Ends the turn at time `now` (see `advance_post`).
    fn advance_turn_at(&mut self, now: u64)
        requires
            old(self).turn_number < i64::MAX,
            old(self).participants@.len() <= 256,
        ensures
            advance_post(*old(self), *final(self), now),
    {
        if self.status == GameStatus::Finished {
            return;
        }
        if self.finish_if_one_or_fewer_active() {
            return;
        }
        let ghost ps = self.participants@;
        let seat_count = self.participants.len();
        let cur = self.current_seat as usize;
        assert(seat_count >= 2) by {
            if seat_count < 2 {
                assert(ps.take(seat_count as int) =~= ps);
                if seat_count == 1 {
                    lemma_active_count_prefix(ps, 0);
                    assert(ps.take(0) =~= Seq::<ParticipantState>::empty());
                }
            }
        }
        proof {
            lemma_active_count_positive(ps);
        }
        let ghost a = choose|i: int| is_first_active(ps, i);
        let ghost mut ea: int = 0;
        proof {
            ea = lemma_mod_cover(cur as int, a, seat_count as int);
        }
        let mut next_seat = (cur + 1) % seat_count;
        let ghost mut steps: int = 1;
        while self.participants[next_seat].resigned
            invariant
                self.participants@ == ps,
                seat_count == ps.len(),
                seat_count >= 2,
                next_seat < seat_count,
                1 <= steps <= seat_count,
                steps <= ea,
                next_seat == (cur + steps) % (seat_count as int),
                !ps[a].resigned,
                1 <= ea <= seat_count,
                (cur + ea) % (seat_count as int) == a,
                forall|e: int| 1 <= e < steps ==> (#[trigger] ps[(cur + e) % (seat_count as int)]).resigned,
            decreases seat_count - steps,
        {
            proof {
                lemma_mod_step(cur + steps, seat_count as int);
                if steps == ea {
                    assert(next_seat == a);
                }
            }
            next_seat = (next_seat + 1) % seat_count;
            proof {
                steps = steps + 1;
            }
        }
        assert(passes_to(ps, cur as int, steps, next_seat as int));
        self.current_seat = next_seat as u8;
        self.turn_number = self.turn_number + 1;
        self.turn_started_at = u64_to_decimal(now);
    }

    /// What a seat leaving means for the turn order at time `now` (see
    /// `seat_exit_post`).
    fn handle_seat_exit_at(&mut self, seat_number: u8, now: u64)
        requires
            old(self).turn_number < i64::MAX,
            old(self).participants@.len() <= 256,
        ensures
            seat_exit_post(*old(self), *final(self), seat_number, now),
    {
        if self.finish_if_one_or_fewer_active() {
            return;
        }
        if seat_number == self.current_seat {
            self.advance_turn_at(now);
        }
    }
}

// ----- scoring the end of a game -----

/// The face value of a seat's rack under the variant's letter values.
pub open spec fn rack_val(p: ParticipantState, vals: Seq<u8>) -> int {
    rack_value_spec(p.rack.counts@, vals)
}

/// The total rack value of every seat whose number is not `goer`.
pub open spec fn others_total(ps: Seq<ParticipantState>, vals: Seq<u8>, goer: Option<u8>) -> int
    decreases ps.len(),
{
    if ps.len() == 0 {
        0
    } else {
        others_total(ps.drop_last(), vals, goer) + if Some(ps.last().seat_number) != goer {
            rack_val(ps.last(), vals)
        } else {
            0
        }
    }
}

/// `i` is the first seat numbered `goer`.
pub open spec fn is_goer_index(ps: Seq<ParticipantState>, goer: Option<u8>, i: int) -> bool {
    &&& 0 <= i < ps.len()
    &&& Some(ps[i].seat_number) == goer
    &&& forall|j: int| 0 <= j < i ==> Some((#[trigger] ps[j]).seat_number) != goer
}

/// A seat's score after the end-of-game adjustment: its rack's value is
/// deducted, and the first seat numbered `goer` (the one that went out)
/// also gains every other seat's rack value.
pub open spec fn settled_score(ps: Seq<ParticipantState>, vals: Seq<u8>, goer: Option<u8>, i: int) -> int {
    ps[i].score - rack_val(ps[i], vals) + if is_goer_index(ps, goer, i) {
        others_total(ps, vals, goer)
    } else {
        0
    }
}

/// The seats after the end-of-game adjustment.
pub open spec fn settled(ps: Seq<ParticipantState>, vals: Seq<u8>, goer: Option<u8>) -> Seq<ParticipantState> {
    Seq::new(ps.len(), |i: int| ParticipantState { score: settled_score(ps, vals, goer, i) as i32, ..ps[i] })
}

/// Scores leave room for a move's points and the end-of-game adjustment.
pub open spec fn score_room(ps: Seq<ParticipantState>) -> bool {
    &&& ps.len() <= 256
    &&& forall|i: int| 0 <= i < ps.len() ==> -0x40000000 <= (#[trigger] ps[i]).score <= 0x40000000
}

/// Scores leave room for the end-of-game adjustment.
pub open spec fn finish_room(ps: Seq<ParticipantState>) -> bool {
    &&& ps.len() <= 256
    &&& forall|i: int| 0 <= i < ps.len() ==> -0x40000000 <= (#[trigger] ps[i]).score <= 0x60000000
}

/// The fields the end of a game sets.
pub open spec fn finish_fields(ps: Seq<ParticipantState>, o: GameSession, n: GameSession, goer: Option<u8>) -> bool {
    &&& n.participants@ == settled(ps, o.rules.letter_values@, goer)
    &&& n.status == GameStatus::Finished
    &&& n.winner_seat == winner_spec(n.participants@)
    &&& n.final_bonus_seat == if goer is Some { goer } else { o.final_bonus_seat }
    &&& n.final_bonus_points == if goer is Some {
        Some(others_total(ps, o.rules.letter_values@, goer) as i32)
    } else {
        o.final_bonus_points
    }
    &&& n.current_seat == o.current_seat
    &&& n.turn_number == o.turn_number
    &&& n.turn_started_at == o.turn_started_at
}

/// Every field the end of a game leaves alone is as it was.
pub open spec fn same_but_finish(a: GameSession, b: GameSession) -> bool {
    &&& a.id == b.id
    &&& a.variant == b.variant
    &&& a.language == b.language
    &&& a.board_layout == b.board_layout
    &&& a.creator_player_id == b.creator_player_id
    &&& a.removed_by_creator == b.removed_by_creator
    &&& a.random_seed == b.random_seed
    &&& a.rules == b.rules
    &&& a.state == b.state
    &&& a.bag == b.bag
    &&& a.moves == b.moves
    &&& a.messages == b.messages
    &&& a.consecutive_scoreless_turns == b.consecutive_scoreless_turns
    &&& a.move_time_limit_seconds == b.move_time_limit_seconds
}

pub proof fn lemma_others_total_bound(ps: Seq<ParticipantState>, vals: Seq<u8>, goer: Option<u8>)
    requires
        vals.len() == MAX_ALPHABET_SIZE,
        forall|i: int| 0 <= i < ps.len() ==> (#[trigger] ps[i]).rack.wf(),
    ensures
        0 <= others_total(ps, vals, goer) <= 2080800 * ps.len(),
    decreases ps.len(),
{
    if ps.len() > 0 {
        assert forall|i: int| 0 <= i < ps.drop_last().len() implies (#[trigger] ps.drop_last()[i]).rack.wf() by {
            assert(ps.drop_last()[i] == ps[i]);
        }
        lemma_others_total_bound(ps.drop_last(), vals, goer);
        assert(ps.last().rack.wf());
        lemma_rack_value_bound(ps.last().rack.counts@, vals);
    }
}

/// Two seats tied on top, or no seat still playing.
proof fn lemma_top_iff(ps: Seq<ParticipantState>, m: i32, i: int)
    requires
        0 <= i < ps.len(),
        forall|j: int| 0 <= j < ps.len() && !(#[trigger] ps[j]).resigned ==> ps[j].score <= m,
        exists|j: int| 0 <= j < ps.len() && !(#[trigger] ps[j]).resigned && ps[j].score == m,
    ensures
        is_top(ps, i) == (!ps[i].resigned && ps[i].score == m),
{
    if is_top(ps, i) {
        let j = choose|j: int| 0 <= j < ps.len() && !(#[trigger] ps[j]).resigned && ps[j].score == m;
        assert(ps[j].score <= ps[i].score);
    }
}

impl GameSession {
    /// The winner among the seats still playing (see `winner_spec`).
    fn compute_winner_seat(&self) -> (r: Option<u8>)
        ensures
            r == winner_spec(self.participants@),
    {
        let ghost ps = self.participants@;
        let n = self.participants.len();
        let mut max: Option<i32> = None;
        let mut i: usize = 0;
        while i < n
            invariant
                n == ps.len(),
                ps == self.participants@,
                i <= n,
                max is None ==> forall|j: int| 0 <= j < i ==> (#[trigger] ps[j]).resigned,
                max matches Some(m) ==> (exists|j: int|
                    0 <= j < i && !(#[trigger] ps[j]).resigned && ps[j].score == m) && forall|j: int|
                    0 <= j < i && !(#[trigger] ps[j]).resigned ==> ps[j].score <= m,
            decreases n - i,
        {
            let p = &self.participants[i];
            if !p.resigned {
                match max {
                    None => {
                        max = Some(p.score);
                    },
                    Some(m) => {
                        if p.score > m {
                            max = Some(p.score);
                        }
                    },
                }
            }
            i = i + 1;
        }
        let m = match max {
            None => {
                assert forall|k: int| !is_top(ps, k) by {
                    if 0 <= k < ps.len() {
                        assert(ps[k].resigned);
                    }
                }
                return None;
            },
            Some(m) => m,
        };
        let mut first: Option<usize> = None;
        let mut k: usize = 0;
        while k < n
            invariant
                n == ps.len(),
                ps == self.participants@,
                k <= n,
                forall|j: int| 0 <= j < ps.len() && !(#[trigger] ps[j]).resigned ==> ps[j].score <= m,
                exists|j: int| 0 <= j < ps.len() && !(#[trigger] ps[j]).resigned && ps[j].score == m,
                first is None ==> forall|j: int|
                    0 <= j < k ==> !(!(#[trigger] ps[j]).resigned && ps[j].score == m),
                first matches Some(f) ==> f < k && !ps[f as int].resigned && ps[f as int].score == m
                    && forall|j: int|
                    0 <= j < k && j != f ==> !(!(#[trigger] ps[j]).resigned && ps[j].score == m),
            decreases n - k,
        {
            let p = &self.participants[k];
            if !p.resigned && p.score == m {
                match first {
                    None => {
                        first = Some(k);
                    },
                    Some(f) => {
                        proof {
                            lemma_top_iff(ps, m, f as int);
                            lemma_top_iff(ps, m, k as int);
                        }
                        return None;
                    },
                }
            }
            k = k + 1;
        }
        match first {
            None => {
                proof {
                    let j = choose|j: int| 0 <= j < ps.len() && !(#[trigger] ps[j]).resigned && ps[j].score == m;
                    assert(!(!ps[j].resigned && ps[j].score == m));
                }
                None
            },
            Some(f) => {
                proof {
                    lemma_top_iff(ps, m, f as int);
                    assert forall|a: int, b: int| is_top(ps, a) && is_top(ps, b) implies a == b by {
                        lemma_top_iff(ps, m, a);
                        lemma_top_iff(ps, m, b);
                    }
                    let c = choose|c: int| is_top(ps, c);
                    assert(is_top(ps, c));
                }
                Some(self.participants[f].seat_number)
            },
        }
    }

    /// Ends the game with the standard end-of-game adjustment (see
    /// `settled`), declaring the winner among seats still playing.
    #[verifier::loop_isolation(false)]
    fn finish_game(&mut self, goer_out: Option<u8>)
        requires
            old(self).wf(),
            finish_room(old(self).participants@),
        ensures
            final(self).wf(),
            same_but_finish(*old(self), *final(self)),
            finish_fields(old(self).participants@, *old(self), *final(self), goer_out),
    {
        let ghost ps = self.participants@;
        let ghost vals = self.rules.letter_values@;
        proof {
            lemma_others_total_bound(ps, vals, goer_out);
        }
        let mut parts: Vec<ParticipantState> = Vec::new();
        std::mem::swap(&mut parts, &mut self.participants);
        let n = parts.len();
        let mut opponents_total: i32 = 0;
        let mut i: usize = 0;
        while i < n
            invariant
                n == ps.len() == parts@.len(),
                i <= n,
                vals == self.rules.letter_values@,
                self.rules.wf(),
                finish_room(ps),
                forall|j: int| 0 <= j < ps.len() ==> (#[trigger] ps[j]).rack.wf(),
                opponents_total as int == others_total(ps.take(i as int), vals, goer_out),
                0 <= opponents_total <= 2080800 * i,
                forall|j: int|
                    0 <= j < i ==> #[trigger] parts@[j] == (ParticipantState {
                        score: (ps[j].score - rack_val(ps[j], vals)) as i32,
                        ..ps[j]
                    }),
                forall|j: int| i <= j < n ==> #[trigger] parts@[j] == ps[j],
            decreases n - i,
        {
            assert(parts@[i as int] == ps[i as int]);
            let value = rack_value(&parts[i].rack, &self.rules.letter_values);
            proof {
                assert(ps.take(i + 1).drop_last() =~= ps.take(i as int));
                assert(ps.take(i + 1).last() == ps[i as int]);
            }
            let seat = parts[i].seat_number;
            let is_goer = match goer_out {
                Some(g) => g == seat,
                None => false,
            };
            if !is_goer {
                opponents_total = opponents_total + value;
            }
            parts[i].score = parts[i].score - value;
            i = i + 1;
        }
        assert(ps.take(n as int) =~= ps);
        let ghost deducted = parts@;
        match goer_out {
            Some(seat) => {
                let mut idx: usize = 0;
                while idx < n && parts[idx].seat_number != seat
                    invariant
                        n == parts@.len(),
                        parts@ == deducted,
                        deducted.len() == ps.len(),
                        forall|j: int| 0 <= j < n ==> (#[trigger] deducted[j]).seat_number == ps[j].seat_number,
                        idx <= n,
                        forall|j: int| 0 <= j < idx ==> Some((#[trigger] ps[j]).seat_number) != goer_out,
                        goer_out == Some(seat),
                    decreases n - idx,
                {
                    idx = idx + 1;
                }
                if idx < n {
                    assert(deducted[idx as int].seat_number == ps[idx as int].seat_number);
                    assert(is_goer_index(ps, goer_out, idx as int));
                    proof {
                        assert(ps[idx as int].rack.wf());
                        lemma_rack_value_bound(ps[idx as int].rack.counts@, vals);
                        assert(deducted[idx as int].score == ps[idx as int].score - rack_val(ps[idx as int], vals));
                    }
                    parts[idx].score = parts[idx].score + opponents_total;
                    proof {
                        assert forall|j: int| 0 <= j < n implies #[trigger] parts@[j] == settled(ps, vals, goer_out)[j] by {
                            if j != idx {
                                assert(!is_goer_index(ps, goer_out, j)) by {
                                    if j > idx {
                                        assert(Some(ps[idx as int].seat_number) == goer_out);
                                    }
                                }
                            }
                        }
                    }
                } else {
                    proof {
                        assert forall|j: int| 0 <= j < n implies #[trigger] parts@[j] == settled(ps, vals, goer_out)[j] by {
                            assert(!is_goer_index(ps, goer_out, j));
                        }
                    }
                }
                self.final_bonus_seat = Some(seat);
                self.final_bonus_points = Some(opponents_total);
            },
            None => {
                proof {
                    assert forall|j: int| 0 <= j < n implies #[trigger] parts@[j] == settled(ps, vals, goer_out)[j] by {
                        assert(!is_goer_index(ps, goer_out, j));
                    }
                }
            },
        }
        assert(parts@ =~= settled(ps, vals, goer_out));
        self.participants = parts;
        self.status = GameStatus::Finished;
        self.winner_seat = self.compute_winner_seat();
        assert forall|j: int| 0 <= j < self.participants@.len() implies (#[trigger] self.participants@[j]).rack.wf() by {
            assert(self.participants@[j].rack == ps[j].rack);
        }
    }
}

// ----- actions on a turn -----

/// "It is not seat N's turn".
pub open spec fn not_your_turn_msg(seat: u8) -> Seq<char> {
    "It is not seat "@ + decimal(seat as nat) + "'s turn"@
}

/// "Unknown seat N".
pub open spec fn unknown_seat_msg(seat: u8) -> Seq<char> {
    "Unknown seat "@ + decimal(seat as nat)
}

/// It is `seat`'s turn in an active game.
pub open spec fn on_turn(g: GameSession, seat: u8) -> bool {
    g.status == GameStatus::Active && g.current_seat == seat
}

/// The error `ensure_active_turn` gives when it is not `seat`'s turn.
pub open spec fn turn_error(g: GameSession, seat: u8) -> Seq<char> {
    if g.status != GameStatus::Active {
        "Game is not active"@
    } else {
        not_your_turn_msg(seat)
    }
}

/// Fields no turn action touches are as they were.
pub open spec fn same_core(a: GameSession, b: GameSession) -> bool {
    &&& a.id == b.id
    &&& a.variant == b.variant
    &&& a.language == b.language
    &&& a.board_layout == b.board_layout
    &&& a.creator_player_id == b.creator_player_id
    &&& a.removed_by_creator == b.removed_by_creator
    &&& a.random_seed == b.random_seed
    &&& a.rules == b.rules
    &&& a.messages == b.messages
    &&& a.move_time_limit_seconds == b.move_time_limit_seconds
}

/// `ps` with seat `i` marked resigned.
pub open spec fn resigned_at(ps: Seq<ParticipantState>, i: int) -> Seq<ParticipantState> {
    ps.update(i, ParticipantState { resigned: true, ..ps[i] })
}

/// After a scoreless play, with the seats as `ps`: the game ends (no one went out)
/// when the streak reached the limit, else play passes on at `now`.
pub open spec fn scoreless_end(ps: Seq<ParticipantState>, o: GameSession, n: GameSession, now: u64) -> bool {
    if (o.consecutive_scoreless_turns + 1) as u8 >= SCORELESS_TURN_LIMIT {
        finish_fields(ps, o, n, None)
    } else {
        &&& advance_fields(ps, o, n, now)
        &&& n.participants@ == ps
        &&& n.final_bonus_seat == o.final_bonus_seat
        &&& n.final_bonus_points == o.final_bonus_points
    }
}

/// Whether it is `seat`'s turn in an active game, with the reason if not.
pub fn ensure_active_turn(session: &GameSession, seat_number: u8) -> (r: Result<(), String>)
    ensures
        r is Ok <==> on_turn(*session, seat_number),
        r matches Err(e) ==> e@ == turn_error(*session, seat_number),
{
    if session.status != GameStatus::Active {
        return Err(owned("Game is not active"));
    }
    if session.current_seat != seat_number {
        let msg = cat(&cat("It is not seat ", &u64_to_decimal(seat_number as u64)), "'s turn");
        return Err(msg);
    }
    Ok(())
}

/// "Unknown seat N" as a `String`.
fn unknown_seat(seat_number: u8) -> (e: String)
    ensures
        e@ == unknown_seat_msg(seat_number),
{
    cat("Unknown seat ", &u64_to_decimal(seat_number as u64))
}

impl GameSession {
    /// Passes `seat_number`'s turn at time `now`: records the pass, counts
    /// it toward the scoreless streak, and ends the game at the limit.
    pub fn apply_pass_at(&mut self, seat_number: u8, now: u64) -> (r: Result<(), String>)
        requires
            old(self).wf(),
            score_room(old(self).participants@),
            old(self).consecutive_scoreless_turns < 255,
            old(self).turn_number < i64::MAX,
        ensures
            final(self).wf(),
            pass_post(*old(self), *final(self), seat_number, r, now),
    {
        match ensure_active_turn(self, seat_number) {
            Ok(()) => {},
            Err(e) => {
                return Err(e);
            },
        }
        if seat_number as usize >= self.participants.len() {
            return Err(unknown_seat(seat_number));
        }
        let description = cat(&self.participants[seat_number as usize].display_name, " passed");
        let record = tileless_record(self.turn_number, seat_number, "pass", description);
        self.moves.push(record);
        assert(self.moves@.drop_last() =~= old(self).moves@);
        self.consecutive_scoreless_turns = self.consecutive_scoreless_turns + 1;
        if self.consecutive_scoreless_turns >= SCORELESS_TURN_LIMIT {
            self.finish_game(None);
        } else {
            self.advance_turn_at(now);
        }
        Ok(())
    }

    /// `apply_pass_at` at the current time.
    pub fn apply_pass(&mut self, seat_number: u8) -> (r: Result<(), String>)
        requires
            old(self).wf(),
            score_room(old(self).participants@),
            old(self).consecutive_scoreless_turns < 255,
            old(self).turn_number < i64::MAX,
        ensures
            final(self).wf(),
            exists|now: u64| #[trigger] pass_post(*old(self), *final(self), seat_number, r, now),
    {
        let now = now_unix_seconds();
        self.apply_pass_at(seat_number, now)
    }

    /// Marks `seat_number` resigned, records why, and applies what a seat
    /// leaving means for the turn order (see `seat_exit_fields`).
    fn finish_via_resignation_at(&mut self, seat_number: u8, move_type: &str, reason: &str, now: u64) -> (r: Result<(), String>)
        requires
            old(self).wf(),
            old(self).turn_number < i64::MAX,
            old(self).participants@.len() <= 256,
        ensures
            final(self).wf(),
            seat_number >= old(self).participants@.len() ==> (r matches Err(e) && e@ == unknown_seat_msg(seat_number)) && *final(self) == *old(self),
            seat_number < old(self).participants@.len() ==> resigned_post(*old(self), *final(self), seat_number, move_type@, reason@, now) && r is Ok,
    {
        if seat_number as usize >= self.participants.len() {
            return Err(unknown_seat(seat_number));
        }
        let ghost ps = self.participants@;
        self.participants[seat_number as usize].resigned = true;
        assert(self.participants@ =~= resigned_at(ps, seat_number as int));
        let description = cat(&cat(&self.participants[seat_number as usize].display_name, " "), reason);
        let record = tileless_record(self.turn_number, seat_number, move_type, description);
        self.moves.push(record);
        assert(self.moves@.drop_last() =~= old(self).moves@);
        self.handle_seat_exit_at(seat_number, now);
        Ok(())
    }

    /// Resigns `seat_number` on its own turn at time `now`; the game goes on
    /// for the others unless at most one seat still plays.
    pub fn apply_resign_at(&mut self, seat_number: u8, now: u64) -> (r: Result<(), String>)
        requires
            old(self).wf(),
            old(self).turn_number < i64::MAX,
            old(self).participants@.len() <= 256,
        ensures
            final(self).wf(),
            resign_post(*old(self), *final(self), seat_number, r, now),
    {
        match ensure_active_turn(self, seat_number) {
            Ok(()) => {},
            Err(e) => {
                return Err(e);
            },
        }
        self.finish_via_resignation_at(seat_number, "resign", "resigned", now)
    }

    /// `apply_resign_at` at the current time.
    pub fn apply_resign(&mut self, seat_number: u8) -> (r: Result<(), String>)
        requires
            old(self).wf(),
            old(self).turn_number < i64::MAX,
            old(self).participants@.len() <= 256,
        ensures
            final(self).wf(),
            exists|now: u64| #[trigger] resign_post(*old(self), *final(self), seat_number, r, now),
    {
        let now = now_unix_seconds();
        self.apply_resign_at(seat_number, now)
    }

    /// The creator's override at time `now`: resigns a seat whatever turn it
    /// is, but never the creator's own seat or one already resigned.
    pub fn force_resign_at(&mut self, seat_number: u8, now: u64) -> (r: Result<(), String>)
        requires
            old(self).wf(),
            old(self).turn_number < i64::MAX,
            old(self).participants@.len() <= 256,
        ensures
            final(self).wf(),
            force_resign_post(*old(self), *final(self), seat_number, r, now),
    {
        if self.status != GameStatus::Active {
            return Err(owned("The game must be active to force-resign a seat"));
        }
        if seat_number as usize >= self.participants.len() {
            return Err(unknown_seat(seat_number));
        }
        let i = seat_number as usize;
        if opt_str_eq(&self.participants[i].player_id, &self.creator_player_id) && self.participants[i].player_id.is_some() {
            return Err(owned("The creator's own seat can't be force-resigned"));
        }
        if self.participants[i].resigned {
            return Err(owned("That seat has already resigned"));
        }
        self.finish_via_resignation_at(seat_number, "force_resign", "resigned (by the game creator)", now)
    }

    /// `force_resign_at` at the current time.
    pub fn force_resign(&mut self, seat_number: u8) -> (r: Result<(), String>)
        requires
            old(self).wf(),
            old(self).turn_number < i64::MAX,
            old(self).participants@.len() <= 256,
        ensures
            final(self).wf(),
            exists|now: u64| #[trigger] force_resign_post(*old(self), *final(self), seat_number, r, now),
            r is Err <==> (old(self).status != GameStatus::Active || seat_number >= old(self).participants@.len() || (
                old(self).participants@[seat_number as int].player_id is Some && opt_view(
                old(self).participants@[seat_number as int].player_id,
            ) == opt_view(old(self).creator_player_id)) || old(self).participants@[seat_number as int].resigned),
            r is Err ==> *final(self) == *old(self),
            r is Ok && (seat_number != old(self).current_seat || active_count(
                resigned_at(old(self).participants@, seat_number as int),
            ) <= 1) ==> final(self).current_seat == old(self).current_seat,
    {
        let now = now_unix_seconds();
        let r = self.force_resign_at(seat_number, now);
        proof {
            law_force_resign_moves_only_the_forced_seats_turn(*old(self), *self, seat_number, r, now);
        }
        r
    }

    /// Retires the current seat as if it resigned, once its turn has run
    /// past the move time limit at time `now`; says whether it did.
    pub fn apply_move_timeout_at(&mut self, now: u64) -> (changed: bool)
        requires
            old(self).wf(),
            old(self).turn_number < i64::MAX,
            old(self).participants@.len() <= 256,
        ensures
            final(self).wf(),
            timeout_post(*old(self), *final(self), changed, now),
    {
        if self.status != GameStatus::Active {
            return false;
        }
        let started = match parse_u64(self.turn_started_at.as_str()) {
            Some(t) => t,
            None => {
                return false;
            },
        };
        let spent = if now >= started { now - started } else { 0 };
        if spent < self.move_time_limit_seconds {
            return false;
        }
        let seat = self.current_seat;
        if seat as usize >= self.participants.len() {
            return false;
        }
        let _ = self.finish_via_resignation_at(seat, "timeout", "was retired for exceeding the move time limit", now);
        true
    }

    /// `apply_move_timeout_at` at the current time.
    pub fn apply_move_timeout(&mut self) -> (changed: bool)
        requires
            old(self).wf(),
            old(self).turn_number < i64::MAX,
            old(self).participants@.len() <= 256,
        ensures
            final(self).wf(),
            exists|now: u64| #[trigger] timeout_post(*old(self), *final(self), changed, now),
    {
        let now = now_unix_seconds();
        self.apply_move_timeout_at(now)
    }

    /// Seconds left at time `now` before the current turn times out, or
    /// `None` if the game is not active or its turn start cannot be read.
    pub fn seconds_remaining_on_turn_at(&self, now: u64) -> (r: Option<u64>)
        ensures
            r == time_left(*self, now),
    {
        if self.status != GameStatus::Active {
            return None;
        }
        let started = match parse_u64(self.turn_started_at.as_str()) {
            Some(t) => t,
            None => {
                return None;
            },
        };
        let spent = if now >= started { now - started } else { 0 };
        Some(if self.move_time_limit_seconds >= spent { self.move_time_limit_seconds - spent } else { 0 })
    }

    /// `seconds_remaining_on_turn_at` at the current time.
    pub fn seconds_remaining_on_turn(&self) -> (r: Option<u64>)
        ensures
            exists|now: u64| r == #[trigger] time_left(*self, now),
    {
        let now = now_unix_seconds();
        self.seconds_remaining_on_turn_at(now)
    }
}

/// Seconds from `started` to `now`, or 0 if `now` is earlier.
pub open spec fn elapsed(now: u64, started: u64) -> u64 {
    if now >= started { (now - started) as u64 } else { 0 }
}

/// Seconds left on the current turn at time `now`: none unless the game
/// is active and its turn start reads as a number.
pub open spec fn time_left(g: GameSession, now: u64) -> Option<u64> {
    if g.status == GameStatus::Active && parse_u64_spec(g.turn_started_at@) is Some {
        Some(remaining(g.move_time_limit_seconds, elapsed(now, parse_u64_spec(g.turn_started_at@)->0)))
    } else {
        None
    }
}

/// What is left of `limit` after `spent`, never below zero.
pub open spec fn remaining(limit: u64, spent: u64) -> u64 {
    if limit >= spent { (limit - spent) as u64 } else { 0 }
}

/// The state after seat `seat` left (resigned, was forced out or timed
/// out) at `now`, recorded as a `move_type` move described as its name
/// followed by `reason`.
pub open spec fn resigned_post(o: GameSession, n: GameSession, seat: u8, move_type: Seq<char>, reason: Seq<char>, now: u64) -> bool {
    &&& same_core(o, n)
    &&& n.state == o.state
    &&& n.bag == o.bag
    &&& n.consecutive_scoreless_turns == o.consecutive_scoreless_turns
    &&& n.final_bonus_seat == o.final_bonus_seat
    &&& n.final_bonus_points == o.final_bonus_points
    &&& n.participants@ == resigned_at(o.participants@, seat as int)
    &&& n.moves@.len() == o.moves@.len() + 1
    &&& n.moves@.drop_last() == o.moves@
    &&& record_is(n.moves@.last(), o.turn_number, seat, move_type, None, 0,
        o.participants@[seat as int].display_name@ + " "@ + reason)
    &&& n.moves@.last().positions@.len() == 0
    &&& seat_exit_fields(resigned_at(o.participants@, seat as int), o, n, seat, now)
}

// ----- dealing -----

/// How many tiles a rack holding `total` draws toward `size` when `avail`
/// tiles are left in the bag.
pub open spec fn draw_count(total: int, avail: int, size: int) -> int {
    if total >= size {
        0
    } else if total + avail <= size {
        avail
    } else {
        size - total
    }
}

/// Tiles left in the bag once seats `0..i` have been dealt to, in order.
pub open spec fn avail_after(ps: Seq<ParticipantState>, bag_len: int, size: int, i: int) -> int
    decreases i,
{
    if i <= 0 {
        bag_len
    } else {
        avail_after(ps, bag_len, size, i - 1) - draw_count(
            ps[i - 1].rack.total(),
            avail_after(ps, bag_len, size, i - 1),
            size,
        )
    }
}

/// The racks `n` are the racks `o` dealt to in seat order from a bag of
/// `bag_len` tiles, `size` tiles a rack; nothing else about the seats changed.
pub open spec fn dealt(o: Seq<ParticipantState>, n: Seq<ParticipantState>, bag_len: int, size: int) -> bool {
    &&& n.len() == o.len()
    &&& forall|i: int| 0 <= i < o.len() ==> same_but_rack(#[trigger] n[i], o[i]) && n[i].rack.wf()
        && n[i].rack.total() == o[i].rack.total() + draw_count(o[i].rack.total(), avail_after(o, bag_len, size, i), size)
}

pub proof fn lemma_racks_kind_update(ps: Seq<ParticipantState>, i: int, p: ParticipantState, k: int)
    requires
        0 <= i < ps.len(),
    ensures
        racks_kind(ps.update(i, p), k) == racks_kind(ps, k) - ps[i].rack.kind(k) + p.rack.kind(k),
    decreases ps.len(),
{
    if i < ps.len() - 1 {
        assert(ps.update(i, p).drop_last() =~= ps.drop_last().update(i, p));
        lemma_racks_kind_update(ps.drop_last(), i, p, k);
    } else {
        assert(ps.update(i, p).drop_last() =~= ps.drop_last());
    }
}

/// Deals from `bag` to every seat in order, as `refill_rack` does.
fn deal_racks(parts: &mut Vec<ParticipantState>, bag: &mut Vec<Tile>, rack_size: u8)
    requires
        forall|i: int| 0 <= i < old(parts)@.len() ==> (#[trigger] old(parts)@[i]).rack.wf(),
        bag_wf(old(bag)@),
    ensures
        bag_wf(final(bag)@),
        final(bag)@ == old(bag)@.take(final(bag)@.len() as int),
        final(bag)@.len() == avail_after(old(parts)@, old(bag)@.len() as int, rack_size as int, old(parts)@.len() as int),
        dealt(old(parts)@, final(parts)@, old(bag)@.len() as int, rack_size as int),
        forall|k: int| 0 <= k <= MAX_ALPHABET_SIZE ==> #[trigger] racks_kind(final(parts)@, k) + kind_count(final(bag)@, k)
            == racks_kind(old(parts)@, k) + kind_count(old(bag)@, k),
{
    let ghost ps = parts@;
    let ghost b0 = bag@;
    let n = parts.len();
    let mut i: usize = 0;
    while i < n
        invariant
            n == ps.len() == parts@.len(),
            i <= n,
            bag_wf(bag@),
            bag@ == b0.take(bag@.len() as int),
            bag@.len() <= b0.len(),
            bag@.len() == avail_after(ps, b0.len() as int, rack_size as int, i as int),
            forall|j: int| 0 <= j < n ==> (#[trigger] ps[j]).rack.wf(),
            forall|j: int| 0 <= j < i ==> same_but_rack(#[trigger] parts@[j], ps[j]) && parts@[j].rack.wf()
                && parts@[j].rack.total() == ps[j].rack.total() + draw_count(ps[j].rack.total(), avail_after(ps, b0.len() as int, rack_size as int, j), rack_size as int),
            forall|j: int| i <= j < n ==> #[trigger] parts@[j] == ps[j],
            forall|k: int| 0 <= k <= MAX_ALPHABET_SIZE ==> #[trigger] racks_kind(parts@, k) + kind_count(bag@, k)
                == racks_kind(ps, k) + kind_count(b0, k),
        decreases n - i,
    {
        let ghost before = parts@;
        let ghost bag_before = bag@;
        assert(parts@[i as int] == ps[i as int]);
        refill_rack(&mut parts[i].rack, bag, rack_size);
        proof {
            assert(parts@ == before.update(i as int, parts@[i as int]));
            assert forall|k: int| 0 <= k <= MAX_ALPHABET_SIZE implies #[trigger] racks_kind(parts@, k) + kind_count(bag@, k)
                == racks_kind(ps, k) + kind_count(b0, k) by {
                lemma_racks_kind_update(before, i as int, parts@[i as int], k);
                assert(parts@[i as int].rack.kind(k) + kind_count(bag@, k) == before[i as int].rack.kind(k) + kind_count(bag_before, k));
            }
            assert(bag@ =~= b0.take(bag@.len() as int));
        }
        i = i + 1;
    }
}

impl GameSession {
    /// Starts a waiting game at time `now`: deals every rack in seat order,
    /// then seat 0 has the first turn. Does nothing to a game already
    /// under way or over.
    pub fn start_at(&mut self, now: u64)
        requires
            old(self).wf(),
        ensures
            final(self).wf(),
            start_post(*old(self), *final(self), now),
    {
        if self.status != GameStatus::Waiting {
            return;
        }
        let mut parts: Vec<ParticipantState> = Vec::new();
        std::mem::swap(&mut parts, &mut self.participants);
        let mut bag: Vec<Tile> = Vec::new();
        std::mem::swap(&mut bag, &mut self.bag);
        deal_racks(&mut parts, &mut bag, self.rules.rack_size);
        self.participants = parts;
        self.bag = bag;
        self.status = GameStatus::Active;
        self.turn_number = 1;
        self.current_seat = 0;
        self.turn_started_at = u64_to_decimal(now);
    }

    /// `start_at` at the current time.
    pub fn start(&mut self)
        requires
            old(self).wf(),
        ensures
            final(self).wf(),
            exists|now: u64| #[trigger] start_post(*old(self), *final(self), now),
    {
        let now = now_unix_seconds();
        self.start_at(now);
    }

    /// A new waiting game at time `now`: a fresh bag for the variant,
    /// shuffled from `random_seed`, an empty board and no moves.
    pub fn new_at(
        id: String,
        participants: Vec<ParticipantState>,
        creator_player_id: Option<String>,
        random_seed: u64,
        rules: VariantRules,
        move_time_limit_seconds: u64,
        now: u64,
    ) -> (g: GameSession)
        requires
            rules.wf(),
            forall|i: int| 0 <= i < participants@.len() ==> (#[trigger] participants@[i]).rack.wf(),
        ensures
            new_post(g, id, participants, creator_player_id, random_seed, rules, move_time_limit_seconds, now),
    {
        let state = GameState::new(&rules);
        let mut bag = build_bag(&rules);
        let ghost fresh = bag@;
        shuffle_bag(&mut bag, random_seed);
        proof {
            lemma_same_multiset_bag_wf(fresh, bag@);
        }
        let variant = rules.name.clone();
        let language = rules.language.clone();
        let board_layout = rules.name.clone();
        GameSession {
            id,
            status: GameStatus::Waiting,
            variant,
            language,
            board_layout,
            turn_number: 0,
            current_seat: 0,
            winner_seat: None,
            final_bonus_seat: None,
            final_bonus_points: None,
            creator_player_id,
            removed_by_creator: false,
            random_seed,
            rules,
            state,
            bag,
            participants,
            moves: Vec::new(),
            messages: Vec::new(),
            consecutive_scoreless_turns: 0,
            move_time_limit_seconds,
            turn_started_at: u64_to_decimal(now),
        }
    }

    /// `new_at` at the current time.
    pub fn new(
        id: String,
        participants: Vec<ParticipantState>,
        creator_player_id: Option<String>,
        random_seed: u64,
        rules: VariantRules,
        move_time_limit_seconds: u64,
    ) -> (g: GameSession)
        requires
            rules.wf(),
            forall|i: int| 0 <= i < participants@.len() ==> (#[trigger] participants@[i]).rack.wf(),
        ensures
            exists|now: u64| #[trigger] new_post(g, id, participants, creator_player_id, random_seed, rules, move_time_limit_seconds, now),
    {
        let now = now_unix_seconds();
        Self::new_at(id, participants, creator_player_id, random_seed, rules, move_time_limit_seconds, now)
    }
}

/// A sequence with the same tiles as a well-formed bag is a well-formed bag.
pub proof fn lemma_same_multiset_bag_wf(a: Seq<Tile>, b: Seq<Tile>)
    requires
        bag_wf(a),
        a.to_multiset() == b.to_multiset(),
    ensures
        bag_wf(b),
{
    broadcast use vstd::seq_lib::group_to_multiset_ensures;
    assert forall|i: int| 0 <= i < b.len() implies tile_wf(#[trigger] b[i]) && tile_fresh(b[i]) by {
        assert(b.contains(b[i]));
        assert(b.to_multiset().count(b[i]) > 0);
        assert(a.contains(b[i]));
        let j = choose|j: int| 0 <= j < a.len() && a[j] == b[i];
        assert(tile_wf(a[j]));
    }
}

// ----- exchanging tiles -----

/// Taking tile `t` off a rack holding `counts` and `blanks`, if it is there.
pub open spec fn take_one(counts: Seq<u8>, blanks: u8, t: Tile) -> Option<(Seq<u8>, u8)> {
    match t {
        Tile::Letter(l) => if counts[l as int] > 0 {
            Some((counts.update(l as int, (counts[l as int] - 1) as u8), blanks))
        } else {
            None
        },
        Tile::Blank { .. } => if blanks > 0 {
            Some((counts, (blanks - 1) as u8))
        } else {
            None
        },
    }
}

/// Taking `tiles` off a rack one by one, stopping at the first that is not
/// there: the rack left, and whether every tile was found.
pub open spec fn take_all(counts: Seq<u8>, blanks: u8, tiles: Seq<Tile>) -> (Seq<u8>, u8, bool)
    decreases tiles.len(),
{
    if tiles.len() == 0 {
        (counts, blanks, true)
    } else {
        match take_one(counts, blanks, tiles[0]) {
            None => (counts, blanks, false),
            Some(next) => take_all(next.0, next.1, tiles.drop_first()),
        }
    }
}

/// For a bag of fresh tiles, how many of a kind it holds is how many of
/// that tile its multiset holds.
pub proof fn lemma_kind_count_multiset(s: Seq<Tile>, k: int)
    requires
        bag_wf(s),
        0 <= k <= MAX_ALPHABET_SIZE,
    ensures
        kind_count(s, k) == if k < MAX_ALPHABET_SIZE {
            s.to_multiset().count(Tile::Letter(k as u8))
        } else {
            s.to_multiset().count(Tile::Blank { acting_as: None })
        },
    decreases s.len(),
{
    broadcast use vstd::seq_lib::group_to_multiset_ensures;
    if s.len() == 0 {
        assert(s.to_multiset() =~= vstd::multiset::Multiset::empty());
    } else {
        let d = s.drop_last();
        assert(bag_wf(d)) by {
            assert forall|i: int| 0 <= i < d.len() implies tile_wf(#[trigger] d[i]) && tile_fresh(d[i]) by {
                assert(d[i] == s[i]);
            }
        }
        lemma_kind_count_multiset(d, k);
        assert(d.push(s.last()) =~= s);
        assert(s.to_multiset() =~= d.to_multiset().insert(s.last()));
        let t = s.last();
        assert(tile_wf(s[s.len() - 1]) && tile_fresh(s[s.len() - 1]));
        match t {
            Tile::Letter(l) => {
                if k < MAX_ALPHABET_SIZE && tile_kind(t) == k {
                    assert(t == Tile::Letter(k as u8));
                }
            },
            Tile::Blank { acting_as } => {},
        }
    }
}

/// Tiles of a kind are the same in two bags holding the same tiles.
pub proof fn lemma_kind_count_permutation(a: Seq<Tile>, b: Seq<Tile>, k: int)
    requires
        bag_wf(a),
        bag_wf(b),
        a.to_multiset() == b.to_multiset(),
        0 <= k <= MAX_ALPHABET_SIZE,
    ensures
        kind_count(a, k) == kind_count(b, k),
{
    lemma_kind_count_multiset(a, k);
    lemma_kind_count_multiset(b, k);
}

/// The seat that exchanged, after its exchange and before the turn ends:
/// the tiles it gave back went into the bag, the bag was shuffled, and the
/// rack was refilled from it.
/// The bag an exchange shuffles: the bag with the exchanged tiles put back
/// at its end (blanks cleared), shuffled from the game's seed mixed with
/// the turn number.
pub open spec fn exchange_shuffle(o: GameSession, tiles: Seq<Tile>) -> Seq<Tile> {
    let returned = o.bag@ + tiles.map_values(|t: Tile| reset_blank_spec(t));
    fisher_yates(returned, seeded_draws(o.random_seed ^ (o.turn_number as u64), returned.len()))
}

pub open spec fn exchanged_seat(o: GameSession, n_bag: Seq<Tile>, before: ParticipantState, after: ParticipantState, count: int) -> bool {
    let mid_total = before.rack.total() - count;
    let mid_bag = o.bag@.len() + count;
    &&& same_but_rack(after, before)
    &&& after.rack.wf()
    &&& after.rack.total() == mid_total + draw_count(mid_total, mid_bag, o.rules.rack_size as int)
    &&& n_bag.len() == mid_bag - draw_count(mid_total, mid_bag, o.rules.rack_size as int)
    &&& forall|k: int| 0 <= k <= MAX_ALPHABET_SIZE ==> #[trigger] after.rack.kind(k) + kind_count(n_bag, k)
        == before.rack.kind(k) + kind_count(o.bag@, k)
}

impl GameSession {
    /// Exchanges `tiles` from `seat_number`'s rack on its turn at time `now`:
    /// they go back into the bag, the bag is reshuffled, the rack refilled,
    /// and the play counts toward the scoreless streak. Tiles already taken
    /// off the rack stay off if a later one is missing.
    pub fn apply_exchange_at(&mut self, seat_number: u8, tiles: Vec<Tile>, now: u64) -> (r: Result<(), String>)
        requires
            old(self).wf(),
            score_room(old(self).participants@),
            old(self).consecutive_scoreless_turns < 255,
            old(self).turn_number < i64::MAX,
            forall|i: int| 0 <= i < tiles@.len() ==> tile_wf(#[trigger] tiles@[i]),
        ensures
            final(self).wf(),
            exchange_post(*old(self), *final(self), seat_number, tiles, r, now),
    {
        match ensure_active_turn(self, seat_number) {
            Ok(()) => {},
            Err(e) => {
                return Err(e);
            },
        }
        if self.bag.len() < tiles.len() {
            return Err(owned("Not enough tiles left in bag to exchange"));
        }
        let seat = seat_number as usize;
        if seat >= self.participants.len() {
            return Err(unknown_seat(seat_number));
        }
        let ghost p0 = self.participants@[seat as int];
        let ghost ps0 = self.participants@;
        let mut i: usize = 0;
        assert(tiles@.skip(0) =~= tiles@);
        assert(tiles@.take(0) =~= Seq::<Tile>::empty());
        while i < tiles.len()
            invariant
                on_turn(*old(self), seat_number),
                old(self).bag@.len() >= tiles@.len(),
                seat == seat_number,
                seat < self.participants@.len() == ps0.len(),
                self.wf(),
                same_core(*old(self), *self),
                self.bag == old(self).bag,
                self.moves == old(self).moves,
                self.state == old(self).state,
                turn_unchanged(*old(self), *self),
                self.consecutive_scoreless_turns == old(self).consecutive_scoreless_turns,
                self.final_bonus_seat == old(self).final_bonus_seat,
                self.final_bonus_points == old(self).final_bonus_points,
                ps0 == old(self).participants@,
                p0 == ps0[seat as int],
                i <= tiles@.len(),
                forall|q: int| 0 <= q < tiles@.len() ==> tile_wf(#[trigger] tiles@[q]),
                forall|q: int| 0 <= q < ps0.len() && q != seat ==> #[trigger] self.participants@[q] == ps0[q],
                same_but_rack(self.participants@[seat as int], p0),
                take_all(p0.rack.counts@, p0.rack.blanks, tiles@) == take_all(
                    self.participants@[seat as int].rack.counts@,
                    self.participants@[seat as int].rack.blanks,
                    tiles@.skip(i as int),
                ),
                self.participants@[seat as int].rack.total() == p0.rack.total() - i,
                self.participants@[seat as int].rack.wf(),
                forall|k: int| 0 <= k <= MAX_ALPHABET_SIZE ==> #[trigger] self.participants@[seat as int].rack.kind(k)
                    == p0.rack.kind(k) - kind_count(tiles@.take(i as int), k),
            decreases tiles@.len() - i,
        {
            let ghost rack_before = self.participants@[seat as int].rack;
            let tile = tiles[i];
            assert(tiles@.skip(i as int)[0] == tile);
            assert(tiles@.skip(i as int).drop_first() =~= tiles@.skip(i + 1));
            if !self.participants[seat].rack.consume_tile(tile) {
                return Err(owned("Rack does not contain exchange tiles"));
            }
            proof {
                match tile {
                    Tile::Letter(l) => {
                        lemma_sum_update(rack_before.counts@, l as int, (rack_before.counts@[l as int] - 1) as u8);
                    },
                    Tile::Blank { .. } => {},
                }
                assert(tiles@.take(i + 1).drop_last() =~= tiles@.take(i as int));
                assert(tiles@.take(i + 1).last() == tile);
                let now_rack = self.participants@[seat as int].rack;
                assert forall|k: int| 0 <= k <= MAX_ALPHABET_SIZE implies #[trigger] now_rack.kind(k)
                    == rack_before.kind(k) - if tile_kind(tile) == k { 1int } else { 0int } by {
                }
                assert forall|k: int| 0 <= k <= MAX_ALPHABET_SIZE implies #[trigger] kind_count(tiles@.take(i + 1), k)
                    == kind_count(tiles@.take(i as int), k) + if tile_kind(tile) == k { 1int } else { 0int } by {
                }
            }
            i = i + 1;
        }
        assert(tiles@.skip(tiles@.len() as int) =~= Seq::<Tile>::empty());
        let ghost mid_rack = self.participants@[seat as int].rack;
        let mut bag: Vec<Tile> = Vec::new();
        std::mem::swap(&mut bag, &mut self.bag);
        let ghost bag0 = bag@;
        let mut j: usize = 0;
        assert(tiles@.take(0) =~= Seq::<Tile>::empty());
        while j < tiles.len()
            invariant
                j <= tiles@.len(),
                forall|q: int| 0 <= q < tiles@.len() ==> tile_wf(#[trigger] tiles@[q]),
                bag_wf(bag@),
                bag@.len() == bag0.len() + j,
                bag@ == bag0 + tiles@.take(j as int).map_values(|t: Tile| reset_blank_spec(t)),
                forall|k: int| 0 <= k <= MAX_ALPHABET_SIZE ==> #[trigger] kind_count(bag@, k) == kind_count(bag0, k) + kind_count(tiles@.take(j as int), k),
            decreases tiles@.len() - j,
        {
            let t = reset_blank_tile(tiles[j]);
            let ghost before = bag@;
            bag.push(t);
            proof {
                assert(bag@.drop_last() =~= before);
                assert(bag@.last() == t);
                assert(tiles@.take(j + 1).drop_last() =~= tiles@.take(j as int));
                assert(tile_wf(tiles@[j as int]));
                assert(tiles@.take(j + 1).last() == tiles@[j as int]);
                assert(bag@ =~= bag0 + tiles@.take(j + 1).map_values(|t: Tile| reset_blank_spec(t)));
                assert(tile_kind(t) == tile_kind(tiles@[j as int]));
                assert forall|k: int| 0 <= k <= MAX_ALPHABET_SIZE implies #[trigger] kind_count(bag@, k) == kind_count(bag0, k) + kind_count(tiles@.take(j + 1), k) by {
                    assert(kind_count(bag@, k) == kind_count(before, k) + if tile_kind(t) == k { 1int } else { 0int });
                    assert(kind_count(tiles@.take(j + 1), k) == kind_count(tiles@.take(j as int), k) + if tile_kind(tiles@[j as int]) == k { 1int } else { 0int });
                }
                assert forall|q: int| 0 <= q < bag@.len() implies tile_wf(#[trigger] bag@[q]) && tile_fresh(bag@[q]) by {
                    if q < before.len() {
                        assert(bag@[q] == before[q]);
                    }
                }
            }
            j = j + 1;
        }
        let ghost unshuffled = bag@;
        shuffle_bag(&mut bag, self.random_seed ^ (#[verifier::truncate] (self.turn_number as u64)));
        proof {
            lemma_same_multiset_bag_wf(unshuffled, bag@);
            assert forall|k: int| 0 <= k <= MAX_ALPHABET_SIZE implies #[trigger] kind_count(bag@, k) == kind_count(unshuffled, k) by {
                lemma_kind_count_permutation(unshuffled, bag@, k);
            }
        }
        let ghost shuffled = bag@;
        proof {
            assert(tiles@.take(tiles@.len() as int) =~= tiles@);
            assert(shuffled == exchange_shuffle(*old(self), tiles@));
        }
        refill_rack(&mut self.participants[seat].rack, &mut bag, self.rules.rack_size);
        self.bag = bag;
        assert(self.bag@ == exchange_shuffle(*old(self), tiles@).take(self.bag@.len() as int));
        let ghost after = self.participants@[seat as int];
        proof {
            assert(tiles@.take(tiles@.len() as int) =~= tiles@);
            assert forall|k: int| 0 <= k <= MAX_ALPHABET_SIZE implies #[trigger] after.rack.kind(k) + kind_count(self.bag@, k)
                == p0.rack.kind(k) + kind_count(old(self).bag@, k) by {
                assert(kind_count(shuffled, k) == kind_count(unshuffled, k));
                assert(after.rack.kind(k) + kind_count(self.bag@, k) == mid_rack.kind(k) + kind_count(shuffled, k));
                assert(mid_rack.kind(k) == p0.rack.kind(k) - kind_count(tiles@, k));
            }
            assert(exchanged_seat(*old(self), self.bag@, p0, after, tiles@.len() as int));
            assert(self.participants@ =~= ps0.update(seat as int, after));
        }
        let description = cat(
            &cat(&cat(&self.participants[seat].display_name, " exchanged "), &u64_to_decimal(tiles.len() as u64)),
            " tiles",
        );
        let record = tileless_record(self.turn_number, seat_number, "exchange", description);
        self.moves.push(record);
        assert(self.moves@.drop_last() =~= old(self).moves@);
        self.consecutive_scoreless_turns = self.consecutive_scoreless_turns + 1;
        if self.consecutive_scoreless_turns >= SCORELESS_TURN_LIMIT {
            self.finish_game(None);
        } else {
            self.advance_turn_at(now);
        }
        Ok(())
    }
}

impl GameSession {
    /// `apply_exchange_at` at the current time.
    pub fn apply_exchange(&mut self, seat_number: u8, tiles: Vec<Tile>) -> (r: Result<(), String>)
        requires
            old(self).wf(),
            score_room(old(self).participants@),
            old(self).consecutive_scoreless_turns < 255,
            old(self).turn_number < i64::MAX,
            forall|i: int| 0 <= i < tiles@.len() ==> tile_wf(#[trigger] tiles@[i]),
        ensures
            final(self).wf(),
            exists|now: u64| #[trigger] exchange_post(*old(self), *final(self), seat_number, tiles, r, now),
    {
        let now = now_unix_seconds();
        self.apply_exchange_at(seat_number, tiles, now)
    }
}

// ----- placing a word -----

/// The column and row of the square `offset` squares along a move.
pub open spec fn placement_xy(start: Position, dir: Direction, offset: u8) -> (int, int) {
    match dir {
        Direction::Horizontal => (start.x + offset, start.y as int),
        Direction::Vertical => (start.x as int, start.y + offset),
    }
}

/// The square a tile fills: its letter, or a blank's chosen letter.
pub open spec fn filled_cell(t: Tile) -> Option<BoardCell> {
    match t {
        Tile::Letter(l) => Some(BoardCell::Filled { letter: l, is_blank: false }),
        Tile::Blank { acting_as } => match acting_as {
            Some(l) => Some(BoardCell::Filled { letter: l, is_blank: true }),
            None => None,
        },
    }
}

/// Row-major index of the square at column `x`, row `y`.
pub open spec fn cell_index(xy: (int, int)) -> int {
    xy.1 * BOARD_WIDTH as int + xy.0
}

/// One tile of a move lands on the board and names a letter.
pub open spec fn placement_fits(start: Position, dir: Direction, p: TilePlacement) -> bool {
    let xy = placement_xy(start, dir, p.offset);
    &&& xy.0 < BOARD_WIDTH
    &&& xy.1 < BOARD_HEIGHT
    &&& filled_cell(p.tile) is Some
}

/// Every tile of the move lands on the board and names a letter.
pub open spec fn fits_board(start: Position, dir: Direction, ts: Seq<TilePlacement>) -> bool {
    forall|i: int| 0 <= i < ts.len() ==> placement_fits(start, dir, #[trigger] ts[i])
}

/// The board after writing the move's tiles onto it, in order.
pub open spec fn place_tiles(cells: Seq<BoardCell>, start: Position, dir: Direction, ts: Seq<TilePlacement>) -> Seq<BoardCell>
    decreases ts.len(),
{
    if ts.len() == 0 {
        cells
    } else {
        place_tiles(cells, start, dir, ts.drop_last()).update(
            cell_index(placement_xy(start, dir, ts.last().offset)),
            filled_cell(ts.last().tile)->0,
        )
    }
}

/// The square a placement lands on, as a position.
pub open spec fn placement_pos(start: Position, dir: Direction, p: TilePlacement) -> PositionDto {
    let xy = placement_xy(start, dir, p.offset);
    PositionDto { x: xy.0 as u8, y: xy.1 as u8 }
}

/// The squares the move's tiles land on, in order.
pub open spec fn move_positions(start: Position, dir: Direction, ts: Seq<TilePlacement>) -> Seq<PositionDto> {
    ts.map_values(|p: TilePlacement| placement_pos(start, dir, p))
}

/// The tiles a move takes off the rack, in order.
pub open spec fn move_tiles(ts: Seq<TilePlacement>) -> Seq<Tile> {
    ts.map_values(|p: TilePlacement| p.tile)
}

/// Whether one placement lands on the board and names a letter.
fn placement_square(start: Position, dir: Direction, p: TilePlacement) -> (r: Option<(u8, u8)>)
    ensures
        r is Some <==> placement_fits(start, dir, p),
        r matches Some(xy) ==> xy.0 as int == placement_xy(start, dir, p.offset).0
            && xy.1 as int == placement_xy(start, dir, p.offset).1,
{
    let (x, y): (u16, u16) = match dir {
        Direction::Horizontal => (start.x as u16 + p.offset as u16, start.y as u16),
        Direction::Vertical => (start.x as u16, start.y as u16 + p.offset as u16),
    };
    if x >= BOARD_WIDTH as u16 || y >= BOARD_HEIGHT as u16 {
        return None;
    }
    match p.tile {
        Tile::Letter(_) => Some((x as u8, y as u8)),
        Tile::Blank { acting_as } => match acting_as {
            Some(_) => Some((x as u8, y as u8)),
            None => None,
        },
    }
}

/// Whether every tile of the move lands on the board and names a letter.
fn move_fits(start: Position, dir: Direction, tiles: &Vec<TilePlacement>) -> (r: bool)
    ensures
        r == fits_board(start, dir, tiles@),
{
    let mut i: usize = 0;
    while i < tiles.len()
        invariant
            i <= tiles@.len(),
            forall|j: int| 0 <= j < i ==> placement_fits(start, dir, #[trigger] tiles@[j]),
        decreases tiles@.len() - i,
    {
        if placement_square(start, dir, tiles[i]).is_none() {
            return false;
        }
        i = i + 1;
    }
    true
}

/// Writes the move's tiles onto the board, in order.
fn write_move(cells: &mut Vec<BoardCell>, start: Position, dir: Direction, tiles: &Vec<TilePlacement>)
    requires
        old(cells)@.len() == BOARD_CELLS,
        fits_board(start, dir, tiles@),
    ensures
        final(cells)@ == place_tiles(old(cells)@, start, dir, tiles@),
        final(cells)@.len() == BOARD_CELLS,
{
    let ghost cells0 = cells@;
    let mut i: usize = 0;
    assert(tiles@.take(0) =~= Seq::<TilePlacement>::empty());
    while i < tiles.len()
        invariant
            i <= tiles@.len(),
            fits_board(start, dir, tiles@),
            cells@.len() == BOARD_CELLS,
            cells@ == place_tiles(cells0, start, dir, tiles@.take(i as int)),
        decreases tiles@.len() - i,
    {
        let p = tiles[i];
        assert(placement_fits(start, dir, tiles@[i as int]));
        match placement_square(start, dir, p) {
            Some((x, y)) => {
                let cell = match p.tile {
                    Tile::Letter(l) => BoardCell::Filled { letter: l, is_blank: false },
                    Tile::Blank { acting_as } => match acting_as {
                        Some(l) => BoardCell::Filled { letter: l, is_blank: true },
                        None => BoardCell::Filled { letter: 0, is_blank: true },
                    },
                };
                let idx = y as usize * BOARD_WIDTH + x as usize;
                cells.set(idx, cell);
            },
            None => {},
        }
        proof {
            assert(tiles@.take(i + 1).drop_last() =~= tiles@.take(i as int));
            assert(tiles@.take(i + 1).last() == p);
        }
        i = i + 1;
    }
    assert(tiles@.take(tiles@.len() as int) =~= tiles@);
}

/// The squares a move that fits the board lands on, in order.
fn positions_of(start: Position, dir: Direction, tiles: &Vec<TilePlacement>) -> (r: Vec<PositionDto>)
    requires
        fits_board(start, dir, tiles@),
    ensures
        r@ == move_positions(start, dir, tiles@),
{
    let mut out: Vec<PositionDto> = Vec::new();
    let mut i: usize = 0;
    while i < tiles.len()
        invariant
            i <= tiles@.len(),
            fits_board(start, dir, tiles@),
            out@ == move_positions(start, dir, tiles@.take(i as int)),
        decreases tiles@.len() - i,
    {
        assert(placement_fits(start, dir, tiles@[i as int]));
        let p = tiles[i];
        match placement_square(start, dir, p) {
            Some((x, y)) => {
                out.push(PositionDto { x, y });
            },
            None => {},
        }
        assert(tiles@.take(i + 1) =~= tiles@.take(i as int).push(p));
        assert(move_positions(start, dir, tiles@.take(i + 1)) =~= move_positions(start, dir, tiles@.take(i as int)).push(placement_pos(start, dir, p)));
        i = i + 1;
    }
    assert(tiles@.take(tiles@.len() as int) =~= tiles@);
    out
}

/// The seat that placed a word, after the play and before the turn ends:
/// the move's `tiles` came off its rack, the rack was refilled from the
/// end of the bag, and `points` were added to its score.
pub open spec fn placed_seat(o: GameSession, n_bag: Seq<Tile>, before: ParticipantState, after: ParticipantState, tiles: Seq<Tile>, points: int) -> bool {
    let mid_total = before.rack.total() - tiles.len();
    let drawn = draw_count(mid_total, o.bag@.len() as int, o.rules.rack_size as int);
    &&& after.seat_number == before.seat_number
    &&& after.kind == before.kind
    &&& after.display_name == before.display_name
    &&& after.player_id == before.player_id
    &&& after.engine_id == before.engine_id
    &&& after.resigned == before.resigned
    &&& after.removed_by_player == before.removed_by_player
    &&& after.invited_email == before.invited_email
    &&& after.reminder_sent_turn == before.reminder_sent_turn
    &&& after.score == before.score + points
    &&& after.rack.wf()
    &&& after.rack.total() == mid_total + drawn
    &&& n_bag.len() == o.bag@.len() - drawn
    &&& n_bag == o.bag@.take(n_bag.len() as int)
    &&& forall|k: int| 0 <= k <= MAX_ALPHABET_SIZE ==> #[trigger] after.rack.kind(k) + kind_count(n_bag, k)
        == before.rack.kind(k) - kind_count(tiles, k) + kind_count(o.bag@, k)
}

/// How a placement ends the turn, with the seats as `ps`: the game ends
/// with the placing seat going out when its rack is empty, else play
/// passes on at `now`.
pub open spec fn placed_end(ps: Seq<ParticipantState>, seat: u8, o: GameSession, n: GameSession, now: u64) -> bool {
    if ps[seat as int].rack.total() == 0 {
        finish_fields(ps, o, n, Some(seat))
    } else {
        &&& advance_fields(ps, o, n, now)
        &&& n.participants@ == ps
        &&& n.final_bonus_seat == o.final_bonus_seat
        &&& n.final_bonus_points == o.final_bonus_points
    }
}

/// "NAME played WORD for N".
pub open spec fn played_msg(name: Seq<char>, word: Seq<char>, points: u32) -> Seq<char> {
    name + " played "@ + word + " for "@ + decimal(points as nat)
}

impl GameSession {
    /// Plays `candidate` for `seat_number` on its turn at time `now`.
    /// `validation` is the rules engine's verdict on the move against the
    /// board and the seat's rack; an error from it passes through as is.
    /// The move's tiles come off the rack in order (those already taken stay
    /// off if a later one is missing), are written onto the board, the score
    /// grows by the move's total, the rack is refilled from the bag, and the
    /// game ends with this seat going out if its rack is then empty.
    pub fn apply_place_move_at(
        &mut self,
        seat_number: u8,
        candidate: MoveCandidate,
        validation: Result<MoveValidation, String>,
        now: u64,
    ) -> (r: Result<(), String>)
        requires
            old(self).wf(),
            score_room(old(self).participants@),
            old(self).turn_number < i64::MAX,
            validation matches Ok(v) ==> v.score_total <= 0x20000000,
            forall|i: int| 0 <= i < candidate.tiles@.len() ==> tile_wf(#[trigger] candidate.tiles@[i].tile),
        ensures
            final(self).wf(),
            place_post(*old(self), *final(self), seat_number, candidate, validation, r, now),
    {
        match ensure_active_turn(self, seat_number) {
            Ok(()) => {},
            Err(e) => {
                return Err(e);
            },
        }
        let seat = seat_number as usize;
        if seat >= self.participants.len() {
            return Err(unknown_seat(seat_number));
        }
        let v = match validation {
            Ok(v) => v,
            Err(e) => {
                return Err(e);
            },
        };
        let ghost p0 = self.participants@[seat as int];
        let ghost ps0 = self.participants@;
        let ghost mt = move_tiles(candidate.tiles@);
        let mut i: usize = 0;
        assert(mt.skip(0) =~= mt);
        assert(mt.take(0) =~= Seq::<Tile>::empty());
        while i < candidate.tiles.len()
            invariant
                on_turn(*old(self), seat_number),
                validation is Ok,
                seat == seat_number,
                seat < self.participants@.len() == ps0.len(),
                self.wf(),
                same_core(*old(self), *self),
                self.bag == old(self).bag,
                self.moves == old(self).moves,
                self.state == old(self).state,
                turn_unchanged(*old(self), *self),
                self.consecutive_scoreless_turns == old(self).consecutive_scoreless_turns,
                self.final_bonus_seat == old(self).final_bonus_seat,
                self.final_bonus_points == old(self).final_bonus_points,
                ps0 == old(self).participants@,
                p0 == ps0[seat as int],
                mt == move_tiles(candidate.tiles@),
                mt.len() == candidate.tiles@.len(),
                i <= mt.len(),
                forall|q: int| 0 <= q < candidate.tiles@.len() ==> tile_wf(#[trigger] candidate.tiles@[q].tile),
                forall|q: int| 0 <= q < ps0.len() && q != seat ==> #[trigger] self.participants@[q] == ps0[q],
                same_but_rack(self.participants@[seat as int], p0),
                take_all(p0.rack.counts@, p0.rack.blanks, mt) == take_all(
                    self.participants@[seat as int].rack.counts@,
                    self.participants@[seat as int].rack.blanks,
                    mt.skip(i as int),
                ),
                self.participants@[seat as int].rack.total() == p0.rack.total() - i,
                self.participants@[seat as int].rack.wf(),
                forall|k: int| 0 <= k <= MAX_ALPHABET_SIZE ==> #[trigger] self.participants@[seat as int].rack.kind(k)
                    == p0.rack.kind(k) - kind_count(mt.take(i as int), k),
            decreases mt.len() - i,
        {
            let ghost rack_before = self.participants@[seat as int].rack;
            let tile = candidate.tiles[i].tile;
            assert(mt[i as int] == tile);
            assert(tile_wf(candidate.tiles@[i as int].tile));
            assert(mt.skip(i as int)[0] == tile);
            assert(mt.skip(i as int).drop_first() =~= mt.skip(i + 1));
            if !self.participants[seat].rack.consume_tile(tile) {
                return Err(owned("Rack no longer matches move"));
            }
            proof {
                match tile {
                    Tile::Letter(l) => {
                        lemma_sum_update(rack_before.counts@, l as int, (rack_before.counts@[l as int] - 1) as u8);
                    },
                    Tile::Blank { .. } => {},
                }
                assert(mt.take(i + 1).drop_last() =~= mt.take(i as int));
                assert(mt.take(i + 1).last() == tile);
                let now_rack = self.participants@[seat as int].rack;
                assert forall|k: int| 0 <= k <= MAX_ALPHABET_SIZE implies #[trigger] now_rack.kind(k)
                    == rack_before.kind(k) - if tile_kind(tile) == k { 1int } else { 0int } by {
                }
                assert forall|k: int| 0 <= k <= MAX_ALPHABET_SIZE implies #[trigger] kind_count(mt.take(i + 1), k)
                    == kind_count(mt.take(i as int), k) + if tile_kind(tile) == k { 1int } else { 0int } by {
                }
            }
            i = i + 1;
        }
        assert(mt.skip(mt.len() as int) =~= Seq::<Tile>::empty());
        assert(mt.take(mt.len() as int) =~= mt);
        if !move_fits(candidate.start, candidate.direction, &candidate.tiles) {
            return Err(owned("Move does not fit the board"));
        }
        write_move(&mut self.state.board.cells, candidate.start, candidate.direction, &candidate.tiles);
        let ghost mid_rack = self.participants@[seat as int].rack;
        let points = v.score_total as i32;
        let new_score = self.participants[seat].score + points;
        self.participants[seat].score = new_score;
        let rack_size = self.rules.rack_size;
        refill_rack(&mut self.participants[seat].rack, &mut self.bag, rack_size);
        let ghost after = self.participants@[seat as int];
        proof {
            assert forall|k: int| 0 <= k <= MAX_ALPHABET_SIZE implies #[trigger] after.rack.kind(k) + kind_count(self.bag@, k)
                == p0.rack.kind(k) - kind_count(mt, k) + kind_count(old(self).bag@, k) by {
                assert(mid_rack.kind(k) == p0.rack.kind(k) - kind_count(mt, k));
            }
            assert(placed_seat(*old(self), self.bag@, p0, after, mt, v.score_total as int));
            assert(self.participants@ =~= ps0.update(seat as int, after));
        }
        let went_out = self.participants[seat].rack.is_empty();
        let positions = positions_of(candidate.start, candidate.direction, &candidate.tiles);
        let description = cat(
            &cat(&cat(&cat(&self.participants[seat].display_name, " played "), &v.main_word), " for "),
            &u64_to_decimal(v.score_total as u64),
        );
        let record = MoveRecord {
            move_number: self.turn_number,
            seat_number,
            move_type: owned("place"),
            main_word: Some(v.main_word),
            score_delta: points,
            description,
            positions,
        };
        self.moves.push(record);
        assert(self.moves@.drop_last() =~= old(self).moves@);
        self.consecutive_scoreless_turns = 0;
        if went_out {
            self.finish_game(Some(seat_number));
        } else {
            self.advance_turn_at(now);
        }
        Ok(())
    }

    /// `apply_place_move_at` at the current time.
    pub fn apply_place_move(
        &mut self,
        seat_number: u8,
        candidate: MoveCandidate,
        validation: Result<MoveValidation, String>,
    ) -> (r: Result<(), String>)
        requires
            old(self).wf(),
            score_room(old(self).participants@),
            old(self).turn_number < i64::MAX,
            validation matches Ok(v) ==> v.score_total <= 0x20000000,
            forall|i: int| 0 <= i < candidate.tiles@.len() ==> tile_wf(#[trigger] candidate.tiles@[i].tile),
        ensures
            final(self).wf(),
            exists|now: u64| #[trigger] place_post(*old(self), *final(self), seat_number, candidate, validation, r, now),
            !on_turn(*old(self), seat_number) || validation is Err ==> r is Err && *final(self) == *old(self),
    {
        let now = now_unix_seconds();
        let ghost c = candidate;
        let ghost v = validation;
        let r = self.apply_place_move_at(seat_number, candidate, validation, now);
        proof {
            if !on_turn(*old(self), seat_number) || v is Err {
                law_rejected_placement_changes_nothing(*old(self), *self, seat_number, c, v, r, now);
            }
        }
        r
    }
}

// ----- chat -----

/// Every field of the session but the chat is as it was.
pub open spec fn same_but_messages(a: GameSession, b: GameSession) -> bool {
    &&& a.id == b.id
    &&& a.status == b.status
    &&& a.variant == b.variant
    &&& a.language == b.language
    &&& a.board_layout == b.board_layout
    &&& a.turn_number == b.turn_number
    &&& a.current_seat == b.current_seat
    &&& a.winner_seat == b.winner_seat
    &&& a.final_bonus_seat == b.final_bonus_seat
    &&& a.final_bonus_points == b.final_bonus_points
    &&& a.creator_player_id == b.creator_player_id
    &&& a.removed_by_creator == b.removed_by_creator
    &&& a.random_seed == b.random_seed
    &&& a.rules == b.rules
    &&& a.state == b.state
    &&& a.bag == b.bag
    &&& a.participants == b.participants
    &&& a.moves == b.moves
    &&& a.consecutive_scoreless_turns == b.consecutive_scoreless_turns
    &&& a.move_time_limit_seconds == b.move_time_limit_seconds
    &&& a.turn_started_at == b.turn_started_at
}

/// `player_id` holds a seat in the game.
pub open spec fn may_chat(g: GameSession, player_id: Seq<char>) -> bool {
    viewer_access_spec(g.participants@, g.creator_player_id, Some(player_id)) is Participant
}

impl GameSession {
    /// Posts `body`, trimmed, to the game's chat as message `id` at time
    /// `now`. Only a seated player may post; the trimmed body must be
    /// non-empty and at most `MAX_CHAT_MESSAGE_LEN` characters. The game's
    /// status does not matter.
    pub fn post_chat_message_at(
        &mut self,
        player_id: &str,
        display_name: &str,
        body: String,
        id: String,
        now: u64,
    ) -> (r: Result<(), String>)
        ensures
            chat_post(*old(self), *final(self), player_id, display_name, body, id, r, now),
    {
        match resolve_viewer_access(self, Some(player_id)) {
            ViewerAccess::Participant { .. } => {},
            _ => {
                return Err(owned("Only seated players can chat in this game"));
            },
        }
        let body = trim(body.as_str());
        let n = chars_of(body.as_str()).len();
        if n == 0 {
            return Err(owned("Chat message cannot be empty"));
        }
        if n > MAX_CHAT_MESSAGE_LEN {
            return Err(owned("Chat message cannot exceed 1000 characters"));
        }
        self.messages.push(ChatMessageRecord {
            id,
            player_id: owned(player_id),
            display_name: owned(display_name),
            body,
            created_at: u64_to_decimal(now),
        });
        assert(self.messages@.drop_last() =~= old(self).messages@);
        Ok(())
    }

    /// `post_chat_message_at` with a fresh message id, at the current time.
    pub fn post_chat_message(&mut self, player_id: &str, display_name: &str, body: String) -> (r: Result<(), String>)
        ensures
            exists|id: String, now: u64| #[trigger] chat_post(*old(self), *final(self), player_id, display_name, body, id, r, now),
    {
        let id = new_uuid_string();
        let now = now_unix_seconds();
        self.post_chat_message_at(player_id, display_name, body, id, now)
    }
}

// ----- redaction -----

/// A viewer with `access` sees the rack at position `i` of the rack list.
/// Positions are compared as seat numbers, modulo 256.
pub open spec fn keeps_rack(access: ViewerAccess, i: int) -> bool {
    access matches ViewerAccess::Participant { seat_number } && seat_number as int == i % 256
}

/// `r` is `d` as a viewer with `access` may see it: every rack but the
/// viewer's own emptied, and the chat kept only for a seated viewer.
pub open spec fn redacted(d: GameStateDto, access: ViewerAccess, r: GameStateDto) -> bool {
    &&& r.id == d.id
    &&& r.status == d.status
    &&& r.creator_player_id == d.creator_player_id
    &&& r.variant == d.variant
    &&& r.language == d.language
    &&& r.board_layout == d.board_layout
    &&& r.turn_number == d.turn_number
    &&& r.current_seat == d.current_seat
    &&& r.winner_seat == d.winner_seat
    &&& r.final_bonus_seat == d.final_bonus_seat
    &&& r.final_bonus_points == d.final_bonus_points
    &&& r.bag_count == d.bag_count
    &&& r.move_time_limit_seconds == d.move_time_limit_seconds
    &&& r.turn_started_at == d.turn_started_at
    &&& r.participants == d.participants
    &&& r.board == d.board
    &&& r.moves == d.moves
    &&& r.racks@.len() == d.racks@.len()
    &&& forall|i: int| 0 <= i < d.racks@.len() ==> if keeps_rack(access, i) {
        #[trigger] r.racks@[i] == d.racks@[i]
    } else {
        r.racks@[i].counts@.len() == 0 && r.racks@[i].blanks == 0
    }
    &&& if access is Participant {
        r.messages == d.messages
    } else {
        r.messages@.len() == 0
    }
}

/// Cuts a full game state down to what a viewer with `access` may see.
/// Callers turn a rejected viewer away before getting here.
pub fn redact_game_state(dto: GameStateDto, access: &ViewerAccess) -> (r: GameStateDto)
    ensures
        redacted(dto, *access, r),
{
    let visible_seat: Option<u8> = match access {
        ViewerAccess::Rejected => None,
        ViewerAccess::Creator => None,
        ViewerAccess::Participant { seat_number } => Some(*seat_number),
    };
    let mut dto = dto;
    let ghost d0 = dto;
    let mut i: usize = 0;
    while i < dto.racks.len()
        invariant
            i <= dto.racks@.len() == d0.racks@.len(),
            dto.participants == d0.participants,
            dto.messages == d0.messages,
            visible_seat == match *access {
                ViewerAccess::Participant { seat_number } => Some(seat_number),
                _ => None::<u8>,
            },
            forall|j: int| i <= j < d0.racks@.len() ==> #[trigger] dto.racks@[j] == d0.racks@[j],
            forall|j: int| 0 <= j < i ==> if keeps_rack(*access, j) {
                #[trigger] dto.racks@[j] == d0.racks@[j]
            } else {
                dto.racks@[j].counts@.len() == 0 && dto.racks@[j].blanks == 0
            },
            dto.id == d0.id,
            dto.status == d0.status,
            dto.creator_player_id == d0.creator_player_id,
            dto.variant == d0.variant,
            dto.language == d0.language,
            dto.board_layout == d0.board_layout,
            dto.turn_number == d0.turn_number,
            dto.current_seat == d0.current_seat,
            dto.winner_seat == d0.winner_seat,
            dto.final_bonus_seat == d0.final_bonus_seat,
            dto.final_bonus_points == d0.final_bonus_points,
            dto.bag_count == d0.bag_count,
            dto.move_time_limit_seconds == d0.move_time_limit_seconds,
            dto.turn_started_at == d0.turn_started_at,
            dto.board == d0.board,
            dto.moves == d0.moves,
        decreases d0.racks@.len() - i,
    {
        let seat = (i % 256) as u8;
        let keep = match visible_seat {
            Some(s) => s == seat,
            None => false,
        };
        if !keep {
            dto.racks.set(i, RackDto { counts: Vec::new(), blanks: 0 });
        }
        i = i + 1;
    }
    match access {
        ViewerAccess::Participant { .. } => {},
        _ => {
            dto.messages = Vec::new();
        },
    }
    dto
}

/// Redacting twice for the same viewer shows nothing the first pass did
/// not: the racks and the chat come out as after one pass.
pub proof fn law_redact_idempotent(d: GameStateDto, access: ViewerAccess, once: GameStateDto, twice: GameStateDto)
    requires
        redacted(d, access, once),
        redacted(once, access, twice),
    ensures
        twice.racks@.len() == once.racks@.len(),
        forall|i: int| 0 <= i < once.racks@.len() ==> (#[trigger] twice.racks@[i]).counts@ == once.racks@[i].counts@
            && twice.racks@[i].blanks == once.racks@[i].blanks,
        twice.messages@ == once.messages@,
        twice.participants == once.participants,
        twice.board == once.board,
        twice.moves == once.moves,
{
    assert forall|i: int| 0 <= i < once.racks@.len() implies (#[trigger] twice.racks@[i]).counts@ == once.racks@[i].counts@
        && twice.racks@[i].blanks == once.racks@[i].blanks by {
        assert(d.racks@[i] == d.racks@[i]);
        if !keeps_rack(access, i) {
            assert(once.racks@[i].counts@ =~= twice.racks@[i].counts@);
        }
    }
    if !(access is Participant) {
        assert(twice.messages@ =~= once.messages@);
    }
}

// ----- invitation status of unclaimed seats -----

/// Invitation `j` exists and is for seat `seat`.
pub open spec fn inv_for(invs: Seq<InvitationRecord>, seat: u8, j: int) -> bool {
    0 <= j < invs.len() && invs[j].seat_number == seat
}

/// Invitation `i` is the latest for seat `seat` among the first `n`: none
/// sorts after it by creation time, and of equally late ones it comes last.
pub open spec fn is_latest(invs: Seq<InvitationRecord>, n: int, seat: u8, i: int) -> bool {
    &&& 0 <= i < n
    &&& inv_for(invs, seat, i)
    &&& forall|j: int| 0 <= j < i && inv_for(invs, seat, j) ==> !seq_lt(invs[i].created_at@, (#[trigger] invs[j]).created_at@)
    &&& forall|j: int| i < j < n && inv_for(invs, seat, j) ==> seq_lt((#[trigger] invs[j]).created_at@, invs[i].created_at@)
}

/// There is at most one latest invitation for a seat.
pub proof fn lemma_latest_unique(invs: Seq<InvitationRecord>, n: int, seat: u8, i: int, k: int)
    requires
        is_latest(invs, n, seat, i),
        is_latest(invs, n, seat, k),
    ensures
        i == k,
{
    if i < k {
        assert(seq_lt(invs[k].created_at@, invs[i].created_at@));
        assert(!seq_lt(invs[k].created_at@, invs[i].created_at@));
    } else if k < i {
        assert(seq_lt(invs[i].created_at@, invs[k].created_at@));
        assert(!seq_lt(invs[i].created_at@, invs[k].created_at@));
    }
}

/// What a seat shows for the status word of its latest invitation.
pub open spec fn seat_status_word(status: Seq<char>) -> SeatInvitationStatus {
    if status == "pending"@ {
        SeatInvitationStatus::Pending
    } else if status == "rejected"@ {
        SeatInvitationStatus::Rejected
    } else {
        SeatInvitationStatus::NotSent
    }
}

/// What an unclaimed seat shows: where its latest invitation stands, or
/// not sent when it has none.
pub open spec fn seat_invitation_spec(invs: Seq<InvitationRecord>, seat: u8) -> SeatInvitationStatus {
    if exists|i: int| is_latest(invs, invs.len() as int, seat, i) {
        seat_status_word(invs[choose|i: int| is_latest(invs, invs.len() as int, seat, i)].status@)
    } else {
        SeatInvitationStatus::NotSent
    }
}

/// An unclaimed seat shows where its latest invitation stands, read from
/// that invitation's status: "pending" shows pending, "rejected" shows
/// rejected, anything else (accepted, cancelled) shows not sent.
pub proof fn law_seat_shows_its_latest_invitation(invs: Seq<InvitationRecord>, seat: u8, i: int)
    requires
        is_latest(invs, invs.len() as int, seat, i),
    ensures
        invs[i].status@ == "pending"@ ==> seat_invitation_spec(invs, seat) == SeatInvitationStatus::Pending,
        invs[i].status@ == "rejected"@ ==> seat_invitation_spec(invs, seat) == SeatInvitationStatus::Rejected,
        invs[i].status@ != "pending"@ && invs[i].status@ != "rejected"@ ==> seat_invitation_spec(invs, seat)
            == SeatInvitationStatus::NotSent,
{
    let k = choose|k: int| is_latest(invs, invs.len() as int, seat, k);
    lemma_latest_unique(invs, invs.len() as int, seat, i, k);
    assert("rejected"@ != "pending"@) by {
        reveal_strlit("rejected");
        reveal_strlit("pending");
        assert("rejected"@.len() != "pending"@.len());
    }
}

/// A seat with no invitation at all shows not sent.
pub proof fn law_uninvited_seat_shows_not_sent(invs: Seq<InvitationRecord>, seat: u8)
    requires
        forall|j: int| 0 <= j < invs.len() ==> (#[trigger] invs[j]).seat_number != seat,
    ensures
        seat_invitation_spec(invs, seat) == SeatInvitationStatus::NotSent,
{
    assert(!exists|i: int| is_latest(invs, invs.len() as int, seat, i));
}

/// The latest invitation for `seat`, if it has any (the last of the latest
/// ones, as a maximum search keeps it).
fn latest_invitation(invs: &[InvitationRecord], seat: u8) -> (r: Option<usize>)
    ensures
        r matches Some(i) ==> is_latest(invs@, invs@.len() as int, seat, i as int),
        r is None ==> forall|j: int| !inv_for(invs@, seat, j),
{
    let mut best: Option<usize> = None;
    let mut i: usize = 0;
    while i < invs.len()
        invariant
            i <= invs@.len(),
            best matches Some(b) ==> is_latest(invs@, i as int, seat, b as int),
            best is None ==> forall|j: int| 0 <= j < i ==> !inv_for(invs@, seat, j),
        decreases invs@.len() - i,
    {
        if invs[i].seat_number == seat {
            match best {
                None => {
                    best = Some(i);
                },
                Some(b) => {
                    let later = str_less(invs[i].created_at.as_str(), invs[b].created_at.as_str());
                    if !later {
                        proof {
                            let ci = invs@[i as int].created_at@;
                            let cb = invs@[b as int].created_at@;
                            lemma_seq_lt_trichotomy(ci, cb);
                            assert forall|j: int| 0 <= j < i && inv_for(invs@, seat, j) implies !seq_lt(ci, (#[trigger] invs@[j]).created_at@) by {
                                let cj = invs@[j].created_at@;
                                lemma_seq_lt_trichotomy(ci, cj);
                                lemma_seq_lt_trichotomy(cb, cj);
                                if j < b {
                                    if seq_lt(ci, cj) {
                                        if seq_lt(cb, ci) {
                                            lemma_seq_lt_transitive(cb, ci, cj);
                                        }
                                    }
                                } else if j > b {
                                    if seq_lt(cb, ci) {
                                        lemma_seq_lt_transitive(cj, cb, ci);
                                    }
                                }
                            }
                        }
                        best = Some(i);
                    }
                },
            }
        }
        i = i + 1;
    }
    best
}

/// The seat status a stored invitation status word stands for.
fn seat_status_of(status: &str) -> (r: SeatInvitationStatus)
    ensures
        r == seat_status_word(status@),
{
    if str_eq(status, "pending") {
        SeatInvitationStatus::Pending
    } else if str_eq(status, "rejected") {
        SeatInvitationStatus::Rejected
    } else {
        SeatInvitationStatus::NotSent
    }
}

/// Fills in, for every unclaimed human seat of `dto`, where its latest
/// invitation stands; other seats are left as they were.
pub fn attach_invitation_status(dto: &mut GameStateDto, invitations: &[InvitationRecord])
    ensures
        final(dto).participants@.len() == old(dto).participants@.len(),
        forall|k: int| 0 <= k < old(dto).participants@.len() ==> {
            let p = old(dto).participants@[k];
            let q = #[trigger] final(dto).participants@[k];
            if p.kind == SeatKind::Human && p.player_id is None {
                &&& q.invitation_status == Some(seat_invitation_spec(invitations@, p.seat_number))
                &&& q.seat_number == p.seat_number
                &&& q.kind == p.kind
                &&& q.display_name == p.display_name
                &&& q.player_id == p.player_id
                &&& q.engine_id == p.engine_id
                &&& q.score == p.score
                &&& q.invited_email == p.invited_email
                &&& q.resigned == p.resigned
            } else {
                q == p
            }
        },
        *final(dto) == (GameStateDto { participants: final(dto).participants, ..*old(dto) }),
{
    let ghost n = invitations@.len() as int;
    let mut k: usize = 0;
    while k < dto.participants.len()
        invariant
            k <= dto.participants@.len() == old(dto).participants@.len(),
            n == invitations@.len(),
            forall|j: int| k <= j < old(dto).participants@.len() ==> #[trigger] dto.participants@[j] == old(dto).participants@[j],
            forall|j: int| 0 <= j < k ==> {
                let p = old(dto).participants@[j];
                let q = #[trigger] dto.participants@[j];
                if p.kind == SeatKind::Human && p.player_id is None {
                    &&& q.invitation_status == Some(seat_invitation_spec(invitations@, p.seat_number))
                    &&& q.seat_number == p.seat_number
                    &&& q.kind == p.kind
                    &&& q.display_name == p.display_name
                    &&& q.player_id == p.player_id
                    &&& q.engine_id == p.engine_id
                    &&& q.score == p.score
                    &&& q.invited_email == p.invited_email
                    &&& q.resigned == p.resigned
                } else {
                    q == p
                }
            },
            *dto == (GameStateDto { participants: dto.participants, ..*old(dto) }),
        decreases old(dto).participants@.len() - k,
    {
        if dto.participants[k].kind == SeatKind::Human && dto.participants[k].player_id.is_none() {
            let seat = dto.participants[k].seat_number;
            let status = match latest_invitation(invitations, seat) {
                Some(i) => {
                    proof {
                        assert forall|x: int| is_latest(invitations@, n, seat, x) implies x == i by {
                            lemma_latest_unique(invitations@, n, seat, x, i as int);
                        }
                    }
                    seat_status_of(invitations[i].status.as_str())
                },
                None => SeatInvitationStatus::NotSent,
            };
            dto.participants[k].invitation_status = Some(status);
        }
        k = k + 1;
    }
}

// ----- the end-of-game adjustment moves points, it creates none -----

/// The sum of the scores of seats `ps`.
pub open spec fn score_sum(ps: Seq<ParticipantState>) -> int
    decreases ps.len(),
{
    if ps.len() == 0 {
        0
    } else {
        score_sum(ps.drop_last()) + ps.last().score
    }
}

/// The sum of the rack values of seats `ps`.
pub open spec fn rack_sum(ps: Seq<ParticipantState>, vals: Seq<u8>) -> int
    decreases ps.len(),
{
    if ps.len() == 0 {
        0
    } else {
        rack_sum(ps.drop_last(), vals) + rack_val(ps.last(), vals)
    }
}

/// The sum of the adjusted scores of the first `n` seats.
pub open spec fn settled_prefix_sum(ps: Seq<ParticipantState>, vals: Seq<u8>, goer: Option<u8>, n: int) -> int
    decreases n,
{
    if n <= 0 {
        0
    } else {
        settled_prefix_sum(ps, vals, goer, n - 1) + settled_score(ps, vals, goer, n - 1)
    }
}

pub proof fn lemma_sum_u8_nonneg(s: Seq<u8>)
    ensures
        sum_u8(s) >= 0,
    decreases s.len(),
{
    if s.len() > 0 {
        lemma_sum_u8_nonneg(s.drop_last());
    }
}

/// A rack with no letters is worth nothing.
pub proof fn lemma_empty_rack_value(counts: Seq<u8>, values: Seq<u8>)
    requires
        sum_u8(counts) == 0,
    ensures
        rack_value_spec(counts, values) == 0,
    decreases counts.len(),
{
    if counts.len() > 0 && values.len() > 0 {
        lemma_sum_u8_nonneg(counts.drop_last());
        assert(counts.last() == 0);
        lemma_empty_rack_value(counts.drop_last(), values.drop_last());
        assert(counts.last() as int * values.last() as int == 0);
    }
}

/// With seats numbered by position, the seats other than `g` hold all the
/// rack value but seat `g`'s.
pub proof fn lemma_others_total_numbered(ps: Seq<ParticipantState>, vals: Seq<u8>, g: u8, n: int)
    requires
        numbered(ps),
        0 <= n <= ps.len(),
    ensures
        others_total(ps.take(n), vals, Some(g)) == rack_sum(ps.take(n), vals)
            - if (g as int) < n { rack_val(ps[g as int], vals) } else { 0 },
    decreases n,
{
    if n > 0 {
        lemma_others_total_numbered(ps, vals, g, n - 1);
        assert(ps.take(n).drop_last() =~= ps.take(n - 1));
        assert(ps.take(n).last() == ps[n - 1]);
        assert(ps[n - 1].seat_number == n - 1);
    }
}

/// The adjusted scores of the first `n` seats add up to their scores less
/// their rack values, plus the transfer if the seat that went out is
/// among them.
pub proof fn lemma_settled_prefix(ps: Seq<ParticipantState>, vals: Seq<u8>, g: u8, n: int)
    requires
        numbered(ps),
        (g as int) < ps.len(),
        0 <= n <= ps.len(),
    ensures
        settled_prefix_sum(ps, vals, Some(g), n) == score_sum(ps.take(n)) - rack_sum(ps.take(n), vals)
            + if (g as int) < n { others_total(ps, vals, Some(g)) } else { 0 },
    decreases n,
{
    if n > 0 {
        lemma_settled_prefix(ps, vals, g, n - 1);
        assert(ps.take(n).drop_last() =~= ps.take(n - 1));
        assert(ps.take(n).last() == ps[n - 1]);
        assert(ps[g as int].seat_number == g);
        if n - 1 == g as int {
            assert(is_goer_index(ps, Some(g), n - 1)) by {
                assert forall|j: int| 0 <= j < n - 1 implies Some((#[trigger] ps[j]).seat_number) != Some(g) by {
                    assert(ps[j].seat_number == j);
                }
            }
        } else {
            assert(ps[n - 1].seat_number == n - 1);
            assert(!is_goer_index(ps, Some(g), n - 1));
        }
    }
}

/// When a seat goes out (its rack is empty), the end-of-game adjustment
/// only moves points: the adjusted scores add up to the scores before it.
pub proof fn law_going_out_is_zero_sum(ps: Seq<ParticipantState>, vals: Seq<u8>, g: u8)
    requires
        numbered(ps),
        (g as int) < ps.len(),
        ps[g as int].rack.total() == 0,
    ensures
        settled_prefix_sum(ps, vals, Some(g), ps.len() as int) == score_sum(ps),
{
    let n = ps.len() as int;
    lemma_settled_prefix(ps, vals, g, n);
    lemma_others_total_numbered(ps, vals, g, n);
    assert(ps.take(n) =~= ps);
    lemma_sum_u8_nonneg(ps[g as int].rack.counts@);
    lemma_empty_rack_value(ps[g as int].rack.counts@, vals);
}

// ----- checking a session before play -----

/// Every turn action may run on the session: its tables have their
/// lengths, scores leave room for a move and the end-of-game adjustment,
/// and the counters can still count up.
pub open spec fn playable_spec(g: GameSession) -> bool {
    &&& g.wf()
    &&& score_room(g.participants@)
    &&& g.consecutive_scoreless_turns < 255
    &&& g.turn_number < i64::MAX
}

fn rack_is_wf(rack: &Rack) -> (r: bool)
    ensures
        r == rack.wf(),
{
    rack.counts.len() == MAX_ALPHABET_SIZE
}

fn tile_is_fresh_wf(t: Tile) -> (r: bool)
    ensures
        r == (tile_wf(t) && tile_fresh(t)),
{
    match t {
        Tile::Letter(l) => (l as usize) < MAX_ALPHABET_SIZE,
        Tile::Blank { acting_as } => acting_as.is_none(),
    }
}

impl GameSession {
    /// Whether every turn action may run on this session (see
    /// `playable_spec`); a session read back from storage is checked with
    /// this before play.
    pub fn is_playable(&self) -> (r: bool)
        ensures
            r == playable_spec(*self),
    {
        if self.consecutive_scoreless_turns >= 255 || self.turn_number == i64::MAX {
            return false;
        }
        if self.rules.letter_values.len() != MAX_ALPHABET_SIZE || self.rules.tile_distribution.len() != MAX_ALPHABET_SIZE
            || self.rules.premiums.len() != BOARD_CELLS || self.rules.alphabet.graphemes.len() > MAX_ALPHABET_SIZE {
            return false;
        }
        if self.state.board.cells.len() != BOARD_CELLS {
            return false;
        }
        let mut i: usize = 0;
        while i < self.bag.len()
            invariant
                i <= self.bag@.len(),
                forall|j: int| 0 <= j < i ==> tile_wf(#[trigger] self.bag@[j]) && tile_fresh(self.bag@[j]),
            decreases self.bag@.len() - i,
        {
            if !tile_is_fresh_wf(self.bag[i]) {
                return false;
            }
            i = i + 1;
        }
        if self.participants.len() > 256 {
            return false;
        }
        let mut k: usize = 0;
        while k < self.participants.len()
            invariant
                k <= self.participants@.len() <= 256,
                forall|j: int| 0 <= j < k ==> (#[trigger] self.participants@[j]).rack.wf()
                    && -0x40000000 <= self.participants@[j].score <= 0x40000000,
            decreases self.participants@.len() - k,
        {
            let p = &self.participants[k];
            if !rack_is_wf(&p.rack) || p.score < -0x40000000 || p.score > 0x40000000 {
                return false;
            }
            k = k + 1;
        }
        true
    }
}

// ----- what each turn action guarantees -----

pub open spec fn pass_post(o: GameSession, n: GameSession, seat_number: u8, r: Result<(), String>, now: u64) -> bool {
    &&& (!on_turn(o, seat_number) ==> (r matches Err(e) && e@ == turn_error(o, seat_number)) && n == o)
    &&& (on_turn(o, seat_number) && seat_number >= o.participants@.len() ==> (r matches Err(e) && e@ == unknown_seat_msg(seat_number)) && n == o)
    &&& (on_turn(o, seat_number) && seat_number < o.participants@.len() ==> {
        &&& r is Ok
        &&& same_core(o, n)
        &&& n.state == o.state
        &&& n.bag == o.bag
        &&& n.moves@.drop_last() == o.moves@
        &&& record_is(n.moves@.last(), o.turn_number, seat_number, "pass"@, None, 0,
            o.participants@[seat_number as int].display_name@ + " passed"@)
        &&& n.moves@.last().positions@.len() == 0
        &&& n.moves@.len() == o.moves@.len() + 1
        &&& n.consecutive_scoreless_turns == o.consecutive_scoreless_turns + 1
        &&& scoreless_end(o.participants@, o, n, now)
    })
}

pub open spec fn resign_post(o: GameSession, n: GameSession, seat_number: u8, r: Result<(), String>, now: u64) -> bool {
    &&& (!on_turn(o, seat_number) ==> (r matches Err(e) && e@ == turn_error(o, seat_number)) && n == o)
    &&& (on_turn(o, seat_number) && seat_number >= o.participants@.len() ==> (r matches Err(e) && e@ == unknown_seat_msg(seat_number)) && n == o)
    &&& (on_turn(o, seat_number) && seat_number < o.participants@.len() ==> r is Ok
        && resigned_post(o, n, seat_number, "resign"@, "resigned"@, now))
}

pub open spec fn force_resign_post(o: GameSession, n: GameSession, seat_number: u8, r: Result<(), String>, now: u64) -> bool {
    &&& (r is Err ==> n == o)
    &&& (o.status != GameStatus::Active ==> (r matches Err(e) && e@ == "The game must be active to force-resign a seat"@))
    &&& (o.status == GameStatus::Active && seat_number >= o.participants@.len() ==> (r matches Err(e) && e@ == unknown_seat_msg(seat_number)))
    &&& (o.status == GameStatus::Active && seat_number < o.participants@.len() ==> {
        let p = o.participants@[seat_number as int];
        if opt_view(p.player_id) == opt_view(o.creator_player_id) && p.player_id is Some {
            r matches Err(e) && e@ == "The creator's own seat can't be force-resigned"@
        } else if p.resigned {
            r matches Err(e) && e@ == "That seat has already resigned"@
        } else {
            r is Ok && resigned_post(o, n, seat_number, "force_resign"@, "resigned (by the game creator)"@, now)
        }
    })
}

pub open spec fn timeout_post(o: GameSession, n: GameSession, changed: bool, now: u64) -> bool {
    &&& (changed == (o.status == GameStatus::Active && parse_u64_spec(o.turn_started_at@) is Some
        && elapsed(now, parse_u64_spec(o.turn_started_at@)->0) >= o.move_time_limit_seconds
        && (o.current_seat as int) < o.participants@.len()))
    &&& (!changed ==> n == o)
    &&& (changed ==> resigned_post(o, n, o.current_seat, "timeout"@, "was retired for exceeding the move time limit"@, now))
}

pub open spec fn start_post(o: GameSession, n: GameSession, now: u64) -> bool {
    &&& (o.status != GameStatus::Waiting ==> n == o)
    &&& (o.status == GameStatus::Waiting ==> {
        &&& same_core(o, n)
        &&& n.state == o.state
        &&& n.moves == o.moves
        &&& n.consecutive_scoreless_turns == o.consecutive_scoreless_turns
        &&& n.winner_seat == o.winner_seat
        &&& n.final_bonus_seat == o.final_bonus_seat
        &&& n.final_bonus_points == o.final_bonus_points
        &&& n.status == GameStatus::Active
        &&& n.turn_number == 1
        &&& n.current_seat == 0
        &&& n.turn_started_at@ == decimal(now as nat)
        &&& n.bag@ == o.bag@.take(n.bag@.len() as int)
        &&& dealt(o.participants@, n.participants@, o.bag@.len() as int, o.rules.rack_size as int)
        &&& forall|k: int| 0 <= k <= MAX_ALPHABET_SIZE ==> #[trigger] racks_kind(n.participants@, k) + kind_count(n.bag@, k)
            == racks_kind(o.participants@, k) + kind_count(o.bag@, k)
    })
}

pub open spec fn exchange_post(o: GameSession, n: GameSession, seat_number: u8, tiles: Vec<Tile>, r: Result<(), String>, now: u64) -> bool {
    &&& (!on_turn(o, seat_number) ==> (r matches Err(e) && e@ == turn_error(o, seat_number)) && n == o)
    &&& (on_turn(o, seat_number) && o.bag@.len() < tiles@.len() ==> (r matches Err(e) && e@ == "Not enough tiles left in bag to exchange"@) && n == o)
    &&& (on_turn(o, seat_number) && o.bag@.len() >= tiles@.len() && seat_number >= o.participants@.len()
        ==> (r matches Err(e) && e@ == unknown_seat_msg(seat_number)) && n == o)
    &&& (on_turn(o, seat_number) && o.bag@.len() >= tiles@.len() && seat_number < o.participants@.len() ==> ({
        let p = o.participants@[seat_number as int];
        let taken = take_all(p.rack.counts@, p.rack.blanks, tiles@);
        if !taken.2 {
            &&& r matches Err(e) && e@ == "Rack does not contain exchange tiles"@
            &&& same_core(o, n)
            &&& n.participants@.len() == o.participants@.len()
            &&& forall|i: int| 0 <= i < o.participants@.len() && i != seat_number ==> #[trigger] n.participants@[i] == o.participants@[i]
            &&& same_but_rack(n.participants@[seat_number as int], p)
            &&& n.participants@[seat_number as int].rack.counts@ == taken.0
            &&& n.participants@[seat_number as int].rack.blanks == taken.1
            &&& n.bag == o.bag
            &&& n.moves == o.moves
            &&& turn_unchanged(o, n)
        } else {
            &&& r is Ok
            &&& same_core(o, n)
            &&& n.state == o.state
            &&& n.moves@.len() == o.moves@.len() + 1
            &&& n.moves@.drop_last() == o.moves@
            &&& record_is(n.moves@.last(), o.turn_number, seat_number, "exchange"@, None, 0,
                p.display_name@ + " exchanged "@ + decimal(tiles@.len()) + " tiles"@)
            &&& n.moves@.last().positions@.len() == 0
            &&& n.consecutive_scoreless_turns == o.consecutive_scoreless_turns + 1
            &&& n.bag@ == exchange_shuffle(o, tiles@).take(n.bag@.len() as int)
            &&& exists|after: ParticipantState| #![trigger exchanged_seat(o, n.bag@, p, after, tiles@.len() as int)]
                exchanged_seat(o, n.bag@, p, after, tiles@.len() as int)
                && scoreless_end(o.participants@.update(seat_number as int, after), o, n, now)
        }
    }))
}

pub open spec fn place_post(o: GameSession, n: GameSession, seat_number: u8, candidate: MoveCandidate, validation: Result<MoveValidation, String>, r: Result<(), String>, now: u64) -> bool {
    &&& (!on_turn(o, seat_number) ==> (r matches Err(e) && e@ == turn_error(o, seat_number)) && n == o)
    &&& (on_turn(o, seat_number) && seat_number >= o.participants@.len()
        ==> (r matches Err(e) && e@ == unknown_seat_msg(seat_number)) && n == o)
    &&& (on_turn(o, seat_number) && seat_number < o.participants@.len() && validation is Err
        ==> (r matches Err(e) && validation matches Err(e0) && e@ == e0@) && n == o)
    &&& (on_turn(o, seat_number) && seat_number < o.participants@.len() && validation is Ok ==> ({
        let v = validation->Ok_0;
        let p = o.participants@[seat_number as int];
        let ts = candidate.tiles@;
        let taken = take_all(p.rack.counts@, p.rack.blanks, move_tiles(ts));
        if !taken.2 || !fits_board(candidate.start, candidate.direction, ts) {
            &&& r matches Err(e) && e@ == if !taken.2 {
                "Rack no longer matches move"@
            } else {
                "Move does not fit the board"@
            }
            &&& same_core(o, n)
            &&& n.participants@.len() == o.participants@.len()
            &&& forall|i: int| 0 <= i < o.participants@.len() && i != seat_number ==> #[trigger] n.participants@[i] == o.participants@[i]
            &&& same_but_rack(n.participants@[seat_number as int], p)
            &&& n.participants@[seat_number as int].rack.counts@ == taken.0
            &&& n.participants@[seat_number as int].rack.blanks == taken.1
            &&& n.bag == o.bag
            &&& n.moves == o.moves
            &&& n.state == o.state
            &&& n.consecutive_scoreless_turns == o.consecutive_scoreless_turns
            &&& n.final_bonus_seat == o.final_bonus_seat
            &&& n.final_bonus_points == o.final_bonus_points
            &&& turn_unchanged(o, n)
        } else {
            &&& r is Ok
            &&& same_core(o, n)
            &&& n.state.board.cells@ == place_tiles(o.state.board.cells@, candidate.start, candidate.direction, ts)
            &&& n.moves@.len() == o.moves@.len() + 1
            &&& n.moves@.drop_last() == o.moves@
            &&& record_is(n.moves@.last(), o.turn_number, seat_number, "place"@, Some(v.main_word@),
                v.score_total as i32, played_msg(p.display_name@, v.main_word@, v.score_total))
            &&& n.moves@.last().positions@ == move_positions(candidate.start, candidate.direction, ts)
            &&& n.consecutive_scoreless_turns == 0
            &&& exists|after: ParticipantState| #![trigger placed_seat(o, n.bag@, p, after, move_tiles(ts), v.score_total as int)]
                placed_seat(o, n.bag@, p, after, move_tiles(ts), v.score_total as int)
                && placed_end(o.participants@.update(seat_number as int, after), seat_number, o, n, now)
        }
    }))
}

pub open spec fn chat_post(o: GameSession, n: GameSession, player_id: &str, display_name: &str, body: String, id: String, r: Result<(), String>, now: u64) -> bool {
    &&& (!may_chat(o, player_id@) ==> (r matches Err(e) && e@ == "Only seated players can chat in this game"@) && n == o)
    &&& (may_chat(o, player_id@) && trim_spec(body@).len() == 0
        ==> (r matches Err(e) && e@ == "Chat message cannot be empty"@) && n == o)
    &&& (may_chat(o, player_id@) && trim_spec(body@).len() > MAX_CHAT_MESSAGE_LEN
        ==> (r matches Err(e) && e@ == "Chat message cannot exceed 1000 characters"@) && n == o)
    &&& (may_chat(o, player_id@) && 0 < trim_spec(body@).len() <= MAX_CHAT_MESSAGE_LEN ==> {
        &&& r is Ok
        &&& same_but_messages(o, n)
        &&& n.messages@.len() == o.messages@.len() + 1
        &&& n.messages@.drop_last() == o.messages@
        &&& n.messages@.last().id@ == id@
        &&& n.messages@.last().player_id@ == player_id@
        &&& n.messages@.last().display_name@ == display_name@
        &&& n.messages@.last().body@ == trim_spec(body@)
        &&& n.messages@.last().created_at@ == decimal(now as nat)
    })
}

/// What a new waiting game is (see `new_at`).
pub open spec fn new_post(
    g: GameSession,
    id: String,
    participants: Vec<ParticipantState>,
    creator_player_id: Option<String>,
    random_seed: u64,
    rules: VariantRules,
    move_time_limit_seconds: u64,
    now: u64,
) -> bool {
    &&& (g.wf())
    &&& (g.id == id)
    &&& (g.status == GameStatus::Waiting)
    &&& (g.variant@ == rules.name@)
    &&& (g.language@ == rules.language@)
    &&& (g.board_layout@ == rules.name@)
    &&& (g.turn_number == 0)
    &&& (g.current_seat == 0)
    &&& (g.winner_seat is None)
    &&& (g.final_bonus_seat is None)
    &&& (g.final_bonus_points is None)
    &&& (g.creator_player_id == creator_player_id)
    &&& (!g.removed_by_creator)
    &&& (g.random_seed == random_seed)
    &&& (g.rules == rules)
    &&& (g.participants == participants)
    &&& (g.moves@.len() == 0)
    &&& (g.messages@.len() == 0)
    &&& (g.consecutive_scoreless_turns == 0)
    &&& (g.move_time_limit_seconds == move_time_limit_seconds)
    &&& (g.turn_started_at@ == decimal(now as nat))
    &&& (g.bag@ == fisher_yates(
        fresh_bag(rules.tile_distribution@, rules.blank_tiles as nat),
        seeded_draws(random_seed, fresh_bag(rules.tile_distribution@, rules.blank_tiles as nat).len()),
    ))
    &&& (g.bag@.to_multiset() == fresh_bag(rules.tile_distribution@, rules.blank_tiles as nat).to_multiset())
    &&& (forall|i: int| 0 <= i < BOARD_CELLS ==> #[trigger] g.state.board.cells@[i] == (BoardCell::Empty { premium: rules.premiums@[i] }))
}

// ----- every turn action keeps the tiles -----

/// How many tiles of kind `k` (see `tile_kind`) the square holds.
pub open spec fn cell_kind_count(c: BoardCell, k: int) -> int {
    match c {
        BoardCell::Filled { letter, is_blank } => if (is_blank && k == MAX_ALPHABET_SIZE) || (!is_blank && letter as int == k) {
            1
        } else {
            0
        },
        BoardCell::Empty { .. } => 0,
    }
}

/// How many tiles of kind `k` the board holds.
pub open spec fn board_kind(cells: Seq<BoardCell>, k: int) -> int
    decreases cells.len(),
{
    if cells.len() == 0 {
        0
    } else {
        board_kind(cells.drop_last(), k) + cell_kind_count(cells.last(), k)
    }
}

/// How many tiles of kind `k` the game holds: on the racks, in the bag and
/// on the board.
pub open spec fn tiles_of_kind(g: GameSession, k: int) -> int {
    racks_kind(g.participants@, k) + kind_count(g.bag@, k) + board_kind(g.state.board.cells@, k)
}

pub proof fn lemma_board_kind_update(cells: Seq<BoardCell>, i: int, c: BoardCell, k: int)
    requires
        0 <= i < cells.len(),
    ensures
        board_kind(cells.update(i, c), k) == board_kind(cells, k) - cell_kind_count(cells[i], k) + cell_kind_count(c, k),
    decreases cells.len(),
{
    if i < cells.len() - 1 {
        assert(cells.update(i, c).drop_last() =~= cells.drop_last().update(i, c));
        lemma_board_kind_update(cells.drop_last(), i, c, k);
    } else {
        assert(cells.update(i, c).drop_last() =~= cells.drop_last());
    }
}

/// Seats with the same racks hold the same tiles.
pub proof fn lemma_racks_kind_same_racks(a: Seq<ParticipantState>, b: Seq<ParticipantState>, k: int)
    requires
        a.len() == b.len(),
        forall|i: int| 0 <= i < a.len() ==> (#[trigger] a[i]).rack == b[i].rack,
    ensures
        racks_kind(a, k) == racks_kind(b, k),
    decreases a.len(),
{
    if a.len() > 0 {
        assert forall|i: int| 0 <= i < a.drop_last().len() implies (#[trigger] a.drop_last()[i]).rack == b.drop_last()[i].rack by {
            assert(a.drop_last()[i] == a[i]);
            assert(b.drop_last()[i] == b[i]);
        }
        lemma_racks_kind_same_racks(a.drop_last(), b.drop_last(), k);
        assert(a.last().rack == b.last().rack);
    }
}

/// The end-of-game adjustment leaves every rack as it was.
pub proof fn lemma_settled_keeps_racks(ps: Seq<ParticipantState>, vals: Seq<u8>, goer: Option<u8>, k: int)
    ensures
        racks_kind(settled(ps, vals, goer), k) == racks_kind(ps, k),
{
    lemma_racks_kind_same_racks(settled(ps, vals, goer), ps, k);
}

/// The move's tiles land on the board squares given by `cell_index`, each
/// on its own square, all empty before the move.
pub open spec fn onto_empty_squares(cells: Seq<BoardCell>, start: Position, dir: Direction, ts: Seq<TilePlacement>) -> bool {
    &&& forall|j: int| 0 <= j < ts.len() ==> cells[cell_index(placement_xy(start, dir, (#[trigger] ts[j]).offset))] is Empty
    &&& forall|a: int, b: int| 0 <= a < b < ts.len() ==> cell_index(placement_xy(start, dir, (#[trigger] ts[a]).offset))
        != cell_index(placement_xy(start, dir, (#[trigger] ts[b]).offset))
}

pub proof fn lemma_place_tiles_len(cells: Seq<BoardCell>, start: Position, dir: Direction, ts: Seq<TilePlacement>)
    requires
        cells.len() == BOARD_CELLS,
        fits_board(start, dir, ts),
    ensures
        place_tiles(cells, start, dir, ts).len() == BOARD_CELLS,
    decreases ts.len(),
{
    if ts.len() > 0 {
        assert forall|i: int| 0 <= i < ts.drop_last().len() implies placement_fits(start, dir, #[trigger] ts.drop_last()[i]) by {
            assert(ts.drop_last()[i] == ts[i]);
        }
        lemma_place_tiles_len(cells, start, dir, ts.drop_last());
        assert(placement_fits(start, dir, ts[ts.len() - 1]));
    }
}

/// Squares no tile of the move lands on keep what they held.
pub proof fn lemma_place_tiles_elsewhere(cells: Seq<BoardCell>, start: Position, dir: Direction, ts: Seq<TilePlacement>, i: int)
    requires
        cells.len() == BOARD_CELLS,
        fits_board(start, dir, ts),
        0 <= i < BOARD_CELLS,
        forall|j: int| 0 <= j < ts.len() ==> cell_index(placement_xy(start, dir, (#[trigger] ts[j]).offset)) != i,
    ensures
        place_tiles(cells, start, dir, ts)[i] == cells[i],
    decreases ts.len(),
{
    if ts.len() > 0 {
        assert forall|j: int| 0 <= j < ts.drop_last().len() implies placement_fits(start, dir, #[trigger] ts.drop_last()[j]) by {
            assert(ts.drop_last()[j] == ts[j]);
        }
        assert forall|j: int| 0 <= j < ts.drop_last().len() implies cell_index(placement_xy(start, dir, (#[trigger] ts.drop_last()[j]).offset)) != i by {
            assert(ts.drop_last()[j] == ts[j]);
        }
        lemma_place_tiles_elsewhere(cells, start, dir, ts.drop_last(), i);
        lemma_place_tiles_len(cells, start, dir, ts.drop_last());
        assert(cell_index(placement_xy(start, dir, ts[ts.len() - 1].offset)) != i);
    }
}

/// Writing a move onto empty squares adds exactly its tiles to the board.
pub proof fn lemma_place_tiles_kind(cells: Seq<BoardCell>, start: Position, dir: Direction, ts: Seq<TilePlacement>, k: int)
    requires
        cells.len() == BOARD_CELLS,
        fits_board(start, dir, ts),
        onto_empty_squares(cells, start, dir, ts),
    ensures
        board_kind(place_tiles(cells, start, dir, ts), k) == board_kind(cells, k) + kind_count(move_tiles(ts), k),
    decreases ts.len(),
{
    if ts.len() > 0 {
        let rest = ts.drop_last();
        let last = ts.last();
        assert forall|j: int| 0 <= j < rest.len() implies placement_fits(start, dir, #[trigger] rest[j]) by {
            assert(rest[j] == ts[j]);
        }
        assert forall|j: int| 0 <= j < rest.len() implies cells[cell_index(placement_xy(start, dir, (#[trigger] rest[j]).offset))] is Empty by {
            assert(rest[j] == ts[j]);
        }
        assert forall|a: int, b: int| 0 <= a < b < rest.len() implies cell_index(placement_xy(start, dir, (#[trigger] rest[a]).offset))
            != cell_index(placement_xy(start, dir, (#[trigger] rest[b]).offset)) by {
            assert(rest[a] == ts[a]);
            assert(rest[b] == ts[b]);
        }
        lemma_place_tiles_kind(cells, start, dir, rest, k);
        let idx = cell_index(placement_xy(start, dir, last.offset));
        assert(placement_fits(start, dir, ts[ts.len() - 1]));
        assert(0 <= idx < BOARD_CELLS);
        assert forall|j: int| 0 <= j < rest.len() implies cell_index(placement_xy(start, dir, (#[trigger] rest[j]).offset)) != idx by {
            assert(rest[j] == ts[j]);
            assert(cell_index(placement_xy(start, dir, ts[j].offset)) != cell_index(placement_xy(start, dir, ts[ts.len() - 1].offset)));
        }
        lemma_place_tiles_elsewhere(cells, start, dir, rest, idx);
        lemma_place_tiles_len(cells, start, dir, rest);
        let before = place_tiles(cells, start, dir, rest);
        assert(cells[idx] is Empty);
        assert(before[idx] == cells[idx]);
        lemma_board_kind_update(before, idx, filled_cell(last.tile)->0, k);
        assert(move_tiles(ts).drop_last() =~= move_tiles(rest));
        assert(move_tiles(ts).last() == last.tile);
        assert(filled_cell(last.tile) is Some);
        assert(cell_kind_count(filled_cell(last.tile)->0, k) == if tile_kind(last.tile) == k { 1int } else { 0int });
    }
}

/// Placing a word onto empty squares keeps every tile of the game: what
/// leaves the rack lands on the board, and what the rack draws leaves the
/// bag.
pub proof fn law_place_keeps_tiles(
    o: GameSession,
    n: GameSession,
    seat_number: u8,
    candidate: MoveCandidate,
    validation: Result<MoveValidation, String>,
    now: u64,
    k: int,
)
    requires
        o.wf(),
        place_post(o, n, seat_number, candidate, validation, Ok(()), now),
        onto_empty_squares(o.state.board.cells@, candidate.start, candidate.direction, candidate.tiles@),
        0 <= k <= MAX_ALPHABET_SIZE,
    ensures
        tiles_of_kind(n, k) == tiles_of_kind(o, k),
{
    let ps = o.participants@;
    let p = ps[seat_number as int];
    let ts = candidate.tiles@;
    assert(on_turn(o, seat_number) && seat_number < ps.len() && validation is Ok);
    let v = validation->Ok_0;
    assert(take_all(p.rack.counts@, p.rack.blanks, move_tiles(ts)).2 && fits_board(candidate.start, candidate.direction, ts));
    let after = choose|after: ParticipantState| #![trigger placed_seat(o, n.bag@, p, after, move_tiles(ts), v.score_total as int)]
        placed_seat(o, n.bag@, p, after, move_tiles(ts), v.score_total as int)
        && placed_end(ps.update(seat_number as int, after), seat_number, o, n, now);
    let ps2 = ps.update(seat_number as int, after);
    lemma_place_tiles_kind(o.state.board.cells@, candidate.start, candidate.direction, ts, k);
    lemma_racks_kind_update(ps, seat_number as int, after, k);
    if ps2[seat_number as int].rack.total() == 0 {
        lemma_settled_keeps_racks(ps2, o.rules.letter_values@, Some(seat_number), k);
    }
}

/// Exchanging keeps every tile of the game: what goes back into the bag
/// comes out of the rack, and what the rack draws leaves the bag.
pub proof fn law_exchange_keeps_tiles(o: GameSession, n: GameSession, seat_number: u8, tiles: Vec<Tile>, now: u64, k: int)
    requires
        o.wf(),
        exchange_post(o, n, seat_number, tiles, Ok(()), now),
        0 <= k <= MAX_ALPHABET_SIZE,
    ensures
        tiles_of_kind(n, k) == tiles_of_kind(o, k),
{
    let ps = o.participants@;
    let p = ps[seat_number as int];
    let after = choose|after: ParticipantState| #![trigger exchanged_seat(o, n.bag@, p, after, tiles@.len() as int)]
        exchanged_seat(o, n.bag@, p, after, tiles@.len() as int)
        && scoreless_end(ps.update(seat_number as int, after), o, n, now);
    let ps2 = ps.update(seat_number as int, after);
    lemma_racks_kind_update(ps, seat_number as int, after, k);
    if (o.consecutive_scoreless_turns + 1) as u8 >= SCORELESS_TURN_LIMIT {
        lemma_settled_keeps_racks(ps2, o.rules.letter_values@, None, k);
    }
}

/// A placement that is not this seat's turn, or that the rules engine
/// refused, is answered with an error and changes nothing.
pub proof fn law_rejected_placement_changes_nothing(
    o: GameSession,
    n: GameSession,
    seat_number: u8,
    candidate: MoveCandidate,
    validation: Result<MoveValidation, String>,
    r: Result<(), String>,
    now: u64,
)
    requires
        place_post(o, n, seat_number, candidate, validation, r, now),
        !on_turn(o, seat_number) || validation is Err,
    ensures
        r is Err,
        n == o,
{
}

/// Forcing a seat out fails exactly when the game is not active, the seat
/// is unknown, is the creator's own or has already resigned, and then
/// changes nothing. When it succeeds, the turn stays where it was unless it
/// was the forced seat's and at least two seats still play.
pub proof fn law_force_resign_moves_only_the_forced_seats_turn(
    o: GameSession,
    n: GameSession,
    seat_number: u8,
    r: Result<(), String>,
    now: u64,
)
    requires
        force_resign_post(o, n, seat_number, r, now),
    ensures
        r is Err <==> (o.status != GameStatus::Active || seat_number >= o.participants@.len() || (
            o.participants@[seat_number as int].player_id is Some && opt_view(o.participants@[seat_number as int].player_id)
                == opt_view(o.creator_player_id)) || o.participants@[seat_number as int].resigned),
        r is Err ==> n == o,
        r is Ok && (seat_number != o.current_seat || active_count(resigned_at(o.participants@, seat_number as int)) <= 1)
            ==> n.current_seat == o.current_seat,
{
}

/// Passing keeps every tile of the game where it was.
pub proof fn law_pass_keeps_tiles(o: GameSession, n: GameSession, seat_number: u8, r: Result<(), String>, now: u64, k: int)
    requires
        pass_post(o, n, seat_number, r, now),
    ensures
        tiles_of_kind(n, k) == tiles_of_kind(o, k),
{
    if on_turn(o, seat_number) && seat_number < o.participants@.len() {
        if (o.consecutive_scoreless_turns + 1) as u8 >= SCORELESS_TURN_LIMIT {
            lemma_settled_keeps_racks(o.participants@, o.rules.letter_values@, None, k);
        }
    }
}

/// Resigning keeps every tile of the game where it was.
pub proof fn law_resign_keeps_tiles(o: GameSession, n: GameSession, seat_number: u8, r: Result<(), String>, now: u64, k: int)
    requires
        resign_post(o, n, seat_number, r, now),
    ensures
        tiles_of_kind(n, k) == tiles_of_kind(o, k),
{
    if on_turn(o, seat_number) && seat_number < o.participants@.len() {
        let ps = o.participants@;
        lemma_racks_kind_same_racks(resigned_at(ps, seat_number as int), ps, k);
    }
}

/// Dealing the opening racks keeps every tile of the game.
pub proof fn law_start_keeps_tiles(o: GameSession, n: GameSession, now: u64, k: int)
    requires
        start_post(o, n, now),
        0 <= k <= MAX_ALPHABET_SIZE,
    ensures
        tiles_of_kind(n, k) == tiles_of_kind(o, k),
{
}

} // verus!
