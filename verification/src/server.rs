//! The decisions the HTTP and WebSocket handlers make around a game: who
//! may manage it, which events a connection gets and how they are
//! redacted, when a move-time reminder is owed, and how request fields are
//! checked before anything is changed.

use vstd::prelude::*;
use crate::dto::{GameEventDto, GameStateDto, GameStatus, InvitationStatus, SeatKind};
use crate::game_state::{
    exchange_post, first_seat_of, is_seated, pass_post, place_post, resign_post, on_turn, redact_game_state, redacted, same_but_seats, score_room, time_left,
    GameSession, ParticipantState, ViewerAccess,
};
use crate::rules::{tile_wf, MoveCandidate, MoveValidation, Tile};
use crate::persistence::InvitationRecord;
use crate::text::{
    cat, chars_of, clone_opt, decimal, lemma_seq_lt_transitive, lemma_seq_lt_trichotomy, seq_lt, str_less, opt_str_is, opt_view, owned, parse_u64, parse_u64_spec, str_eq,
    string_from_chars, u64_to_decimal,
};

verus! {

// ----- version -----

/// The release version, with a non-empty build identifier appended as
/// build metadata (`VERSION+ID`).
pub open spec fn app_version_spec(pkg_version: Seq<char>, build_id: Option<Seq<char>>) -> Seq<char> {
    match build_id {
        Some(id) => if id.len() > 0 { pkg_version + "+"@ + id } else { pkg_version },
        None => pkg_version,
    }
}

pub fn format_app_version(pkg_version: &str, build_id: Option<&str>) -> (r: String)
    ensures
        r@ == app_version_spec(pkg_version@, match build_id { Some(b) => Some(b@), None => None }),
{
    match build_id {
        Some(id) => {
            if id.unicode_len() > 0 {
                cat(&cat(pkg_version, "+"), id)
            } else {
                owned(pkg_version)
            }
        },
        None => owned(pkg_version),
    }
}

// ----- managing a game -----

/// Some seat is claimed by a player.
pub open spec fn has_claimed_seat(ps: Seq<ParticipantState>) -> bool {
    exists|i: int| 0 <= i < ps.len() && (#[trigger] ps[i]).player_id is Some
}

/// Some seat is claimed by player `id`.
pub open spec fn claims_a_seat(ps: Seq<ParticipantState>, id: Seq<char>) -> bool {
    exists|i: int| 0 <= i < ps.len() && opt_view((#[trigger] ps[i]).player_id) == Some(id)
}

/// `caller` may manage the game: its creator alone; for a game with no
/// recorded creator, any player holding a seat, or anyone signed in when
/// no seat is claimed.
pub open spec fn may_manage_spec(g: GameSession, caller: Option<Seq<char>>) -> bool {
    match g.creator_player_id {
        Some(c) => caller == Some(c@),
        None => !has_claimed_seat(g.participants@) || (caller matches Some(id) && claims_a_seat(g.participants@, id)),
    }
}

pub fn caller_may_manage_game(game: &GameSession, caller_player_id: Option<&str>) -> (r: bool)
    ensures
        r == may_manage_spec(*game, match caller_player_id { Some(c) => Some(c@), None => None }),
{
    match &game.creator_player_id {
        Some(creator) => match caller_player_id {
            Some(c) => str_eq(c, creator.as_str()),
            None => false,
        },
        None => {
            let mut any_claimed = false;
            let mut caller_claims = false;
            let mut i: usize = 0;
            while i < game.participants.len()
                invariant
                    i <= game.participants@.len(),
                    any_claimed == exists|j: int| 0 <= j < i && (#[trigger] game.participants@[j]).player_id is Some,
                    caller_claims == (caller_player_id matches Some(c) && exists|j: int| 0 <= j < i
                        && opt_view((#[trigger] game.participants@[j]).player_id) == Some(c@)),
                decreases game.participants@.len() - i,
            {
                let p = &game.participants[i];
                if p.player_id.is_some() {
                    any_claimed = true;
                }
                match caller_player_id {
                    Some(c) => {
                        if opt_str_is(&p.player_id, c) {
                            caller_claims = true;
                        }
                    },
                    None => {},
                }
                i = i + 1;
            }
            !any_claimed || caller_claims
        },
    }
}

// ----- events -----

/// The game state an event carries.
pub open spec fn event_game(e: GameEventDto) -> GameStateDto {
    match e {
        GameEventDto::StateUpdated { game } => game,
        GameEventDto::GameStarted { game } => game,
        GameEventDto::GameFinished { game } => game,
    }
}

/// Whether `event` is about game `game_id`; the event channel is shared by
/// every game, so each connection keeps only its own game's events.
pub fn event_belongs_to_game(event: &GameEventDto, game_id: &str) -> (r: bool)
    ensures
        r == (event_game(*event).id@ == game_id@),
{
    let game = match event {
        GameEventDto::StateUpdated { game } => game,
        GameEventDto::GameStarted { game } => game,
        GameEventDto::GameFinished { game } => game,
    };
    str_eq(game.id.as_str(), game_id)
}

/// Two events are of the same kind.
pub open spec fn same_event_kind(a: GameEventDto, b: GameEventDto) -> bool {
    match (a, b) {
        (GameEventDto::StateUpdated { .. }, GameEventDto::StateUpdated { .. }) => true,
        (GameEventDto::GameStarted { .. }, GameEventDto::GameStarted { .. }) => true,
        (GameEventDto::GameFinished { .. }, GameEventDto::GameFinished { .. }) => true,
        _ => false,
    }
}

/// The same event, its game redacted for a viewer with `access`.
pub fn redact_event(event: GameEventDto, access: &ViewerAccess) -> (r: GameEventDto)
    ensures
        same_event_kind(event, r),
        redacted(event_game(event), *access, event_game(r)),
{
    match event {
        GameEventDto::StateUpdated { game } => GameEventDto::StateUpdated { game: redact_game_state(game, access) },
        GameEventDto::GameStarted { game } => GameEventDto::GameStarted { game: redact_game_state(game, access) },
        GameEventDto::GameFinished { game } => GameEventDto::GameFinished { game: redact_game_state(game, access) },
    }
}

// ----- invitations -----

/// Where an invitation stands, from its stored status word; anything
/// unrecognised reads as pending.
pub open spec fn invitation_status_spec(s: Seq<char>) -> InvitationStatus {
    if s == "accepted"@ {
        InvitationStatus::Accepted
    } else if s == "rejected"@ {
        InvitationStatus::Rejected
    } else if s == "cancelled"@ {
        InvitationStatus::Cancelled
    } else {
        InvitationStatus::Pending
    }
}

pub fn invitation_status_from_str(status: &str) -> (r: InvitationStatus)
    ensures
        r == invitation_status_spec(status@),
{
    if str_eq(status, "accepted") {
        InvitationStatus::Accepted
    } else if str_eq(status, "rejected") {
        InvitationStatus::Rejected
    } else if str_eq(status, "cancelled") {
        InvitationStatus::Cancelled
    } else {
        InvitationStatus::Pending
    }
}

// ----- durations -----

/// `n UNIT` or `n UNITs`, by whether `n` is one.
pub open spec fn counted(n: nat, unit: Seq<char>) -> Seq<char> {
    decimal(n) + " "@ + unit + if n == 1 { ""@ } else { "s"@ }
}

/// "1 day 4 hours" / "2 days" / "4 hours" / "less than an hour": whole
/// days and the whole hours left over, zero parts left out.
pub open spec fn duration_spec(total: nat) -> Seq<char> {
    let days = total / 86400;
    let hours = (total % 86400) / 3600;
    if days > 0 && hours > 0 {
        counted(days, "day"@) + " "@ + counted(hours, "hour"@)
    } else if days > 0 {
        counted(days, "day"@)
    } else if hours > 0 {
        counted(hours, "hour"@)
    } else {
        "less than an hour"@
    }
}

fn counted_label(n: u64, unit: &str) -> (r: String)
    ensures
        r@ == counted(n as nat, unit@),
{
    let head = cat(&cat(&u64_to_decimal(n), " "), unit);
    if n == 1 {
        cat(&head, "")
    } else {
        cat(&head, "s")
    }
}

pub fn format_duration_days_hours(total_seconds: u64) -> (r: String)
    ensures
        r@ == duration_spec(total_seconds as nat),
{
    let days = total_seconds / 86400;
    let hours = (total_seconds % 86400) / 3600;
    if days > 0 && hours > 0 {
        cat(&cat(&counted_label(days, "day"), " "), &counted_label(hours, "hour"))
    } else if days > 0 {
        counted_label(days, "day")
    } else if hours > 0 {
        counted_label(hours, "hour")
    } else {
        owned("less than an hour")
    }
}

// ----- move-time reminders -----

/// A reminder fires once a turn's remaining time drops to this fraction
/// of the limit (a third).
pub const REMINDER_REMAINING_FRACTION: u64 = 3;

/// Games whose move-time limit is a day or less get no reminders.
pub const REMINDER_MIN_TIME_LIMIT_SECONDS: u64 = 86400;

/// A reminder owed to the seat on turn.
#[derive(Debug)]
pub struct MoveReminder {
    pub seat: u8,
    pub player_id: String,
    pub display_name: String,
    pub remaining_seconds: u64,
}

/// The seat on turn is owed a reminder at `now`: the limit is longer than
/// a day, at most a third of it is left, and the seat is a human one,
/// claimed by a player, not yet reminded this turn.
pub open spec fn reminder_due(g: GameSession, now: u64) -> bool {
    let cur = g.current_seat as int;
    &&& g.move_time_limit_seconds > REMINDER_MIN_TIME_LIMIT_SECONDS
    &&& time_left(g, now) is Some
    &&& time_left(g, now)->0 * REMINDER_REMAINING_FRACTION <= g.move_time_limit_seconds
    &&& cur < g.participants@.len()
    &&& g.participants@[cur].kind == SeatKind::Human
    &&& g.participants@[cur].reminder_sent_turn != Some(g.turn_number)
    &&& g.participants@[cur].player_id is Some
}

/// A reminder sent on an earlier turn does not block one now: the seat on
/// turn is owed a reminder exactly as if it had never been reminded
/// (`h`, the same game with that mark cleared), unless its reminder was
/// sent on this very turn.
pub proof fn law_earlier_reminders_do_not_block(g: GameSession, h: GameSession, now: u64, t: i64)
    requires
        (g.current_seat as int) < g.participants@.len(),
        g.participants@[g.current_seat as int].reminder_sent_turn == Some(t),
        t != g.turn_number,
        h == (GameSession { participants: h.participants, ..g }),
        h.participants@ == g.participants@.update(
            g.current_seat as int,
            ParticipantState { reminder_sent_turn: None, ..g.participants@[g.current_seat as int] },
        ),
    ensures
        reminder_due(g, now) == reminder_due(h, now),
{
}

impl GameSession {
    /// If the seat on turn is owed a reminder at `now`, marks it reminded
    /// for this turn and says whom to write to and how much time is left.
    pub fn claim_move_time_reminder_at(&mut self, now: u64) -> (r: Option<MoveReminder>)
        ensures
            !reminder_due(*old(self), now) ==> r is None && *final(self) == *old(self),
            reminder_due(*old(self), now) ==> ({
                let cur = old(self).current_seat as int;
                let p = old(self).participants@[cur];
                &&& r matches Some(m)
                &&& m.seat == old(self).current_seat
                &&& opt_view(Some(m.player_id)) == opt_view(p.player_id)
                &&& m.display_name@ == p.display_name@
                &&& m.remaining_seconds == time_left(*old(self), now)->0
                &&& same_but_seats(*old(self), *final(self))
                &&& final(self).participants@ == old(self).participants@.update(cur,
                    ParticipantState { reminder_sent_turn: Some(old(self).turn_number), ..p })
            }),
    {
        if self.move_time_limit_seconds <= REMINDER_MIN_TIME_LIMIT_SECONDS {
            return None;
        }
        let left = match self.seconds_remaining_on_turn_at(now) {
            Some(x) => x,
            None => {
                return None;
            },
        };
        if (left as u128) * (REMINDER_REMAINING_FRACTION as u128) > self.move_time_limit_seconds as u128 {
            return None;
        }
        let seat = self.current_seat;
        let cur = seat as usize;
        if cur >= self.participants.len() {
            return None;
        }
        let turn = self.turn_number;
        if self.participants[cur].kind != SeatKind::Human {
            return None;
        }
        match self.participants[cur].reminder_sent_turn {
            Some(t) => {
                if t == turn {
                    return None;
                }
            },
            None => {},
        }
        let player_id = match clone_opt(&self.participants[cur].player_id) {
            Some(id) => id,
            None => {
                return None;
            },
        };
        let display_name = self.participants[cur].display_name.clone();
        let ghost before = self.participants@;
        self.participants[cur].reminder_sent_turn = Some(turn);
        assert(self.participants@ =~= before.update(cur as int, ParticipantState { reminder_sent_turn: Some(turn), ..before[cur as int] }));
        Some(MoveReminder { seat, player_id, display_name, remaining_seconds: left })
    }
}

/// A reminder fires at most once per turn: once the seat on turn has been
/// reminded, no time later in the same turn owes it another.
pub proof fn law_reminder_once_per_turn(before: GameSession, after: GameSession, now: u64, later: u64)
    requires
        reminder_due(before, now),
        same_but_seats(before, after),
        after.participants@ == before.participants@.update(before.current_seat as int,
            ParticipantState { reminder_sent_turn: Some(before.turn_number), ..before.participants@[before.current_seat as int] }),
    ensures
        !reminder_due(after, later),
{
}

// ----- request checks -----

/// The game status an admin listing filter names.
pub fn parse_status_filter(status: Option<&str>) -> (r: Result<Option<GameStatus>, String>)
    ensures
        status is None ==> r == Ok::<Option<GameStatus>, String>(None),
        status matches Some(s) ==> (if s@ == "waiting"@ {
            r == Ok::<Option<GameStatus>, String>(Some(GameStatus::Waiting))
        } else if s@ == "active"@ {
            r == Ok::<Option<GameStatus>, String>(Some(GameStatus::Active))
        } else if s@ == "finished"@ {
            r == Ok::<Option<GameStatus>, String>(Some(GameStatus::Finished))
        } else {
            r matches Err(e) && e@ == "Unknown status '"@ + s@ + "', expected waiting/active/finished"@
        }),
{
    match status {
        None => Ok(None),
        Some(s) => {
            if str_eq(s, "waiting") {
                Ok(Some(GameStatus::Waiting))
            } else if str_eq(s, "active") {
                Ok(Some(GameStatus::Active))
            } else if str_eq(s, "finished") {
                Ok(Some(GameStatus::Finished))
            } else {
                Err(cat(&cat("Unknown status '", s), "', expected waiting/active/finished"))
            }
        },
    }
}

/// Why a request was turned away, and with what message.
#[derive(Debug)]
pub enum Rejection {
    BadRequest(String),
    Unauthorized(String),
    NotFound(String),
}

/// The rejection's kind and message, as text.
pub open spec fn rejection_is(r: Rejection, kind: int, msg: Seq<char>) -> bool {
    match r {
        Rejection::BadRequest(m) => kind == 400 && m@ == msg,
        Rejection::Unauthorized(m) => kind == 401 && m@ == msg,
        Rejection::NotFound(m) => kind == 404 && m@ == msg,
    }
}

/// The first seat numbered `n`, if any.
pub open spec fn seat_index(ps: Seq<ParticipantState>, n: u8, i: int) -> bool {
    &&& 0 <= i < ps.len()
    &&& ps[i].seat_number == n
    &&& forall|j: int| 0 <= j < i ==> (#[trigger] ps[j]).seat_number != n
}

/// The checks on inviting someone to seat `seat_number` that need no
/// store lookup, in order: the game is waiting, the caller manages it, the
/// seat exists, and it is an unclaimed human seat.
pub fn invite_seat_check(game: &GameSession, caller_player_id: &str, seat_number: u8) -> (r: Result<(), Rejection>)
    ensures
        game.status != GameStatus::Waiting ==> (r matches Err(e) && rejection_is(e, 400, "Game must be in waiting state to invite players"@)),
        game.status == GameStatus::Waiting && !may_manage_spec(*game, Some(caller_player_id@))
            ==> (r matches Err(e) && rejection_is(e, 401, "Only the game's creator can invite players"@)),
        game.status == GameStatus::Waiting && may_manage_spec(*game, Some(caller_player_id@)) ==> {
            if forall|i: int| 0 <= i < game.participants@.len() ==> (#[trigger] game.participants@[i]).seat_number != seat_number {
                r matches Err(e) && rejection_is(e, 400, "No such seat"@)
            } else {
                forall|i: int| seat_index(game.participants@, seat_number, i) ==> {
                    let p = #[trigger] game.participants@[i];
                    if p.kind != SeatKind::Human || p.player_id is Some {
                        r matches Err(e) && rejection_is(e, 400, "That seat is not open to be invited to"@)
                    } else {
                        r is Ok
                    }
                }
            }
        },
{
    if game.status != GameStatus::Waiting {
        return Err(Rejection::BadRequest(owned("Game must be in waiting state to invite players")));
    }
    if !caller_may_manage_game(game, Some(caller_player_id)) {
        return Err(Rejection::Unauthorized(owned("Only the game's creator can invite players")));
    }
    let mut i: usize = 0;
    while i < game.participants.len()
        invariant
            i <= game.participants@.len(),
            game.status == GameStatus::Waiting,
            may_manage_spec(*game, Some(caller_player_id@)),
            forall|j: int| 0 <= j < i ==> (#[trigger] game.participants@[j]).seat_number != seat_number,
        decreases game.participants@.len() - i,
    {
        if game.participants[i].seat_number == seat_number {
            let p = &game.participants[i];
            proof {
                assert(seat_index(game.participants@, seat_number, i as int));
                assert forall|x: int| seat_index(game.participants@, seat_number, x) implies x == i by {
                    if x < i {
                        assert(game.participants@[x].seat_number != seat_number);
                    } else if x > i {
                        assert(game.participants@[i as int].seat_number != seat_number);
                    }
                }
            }
            if p.kind != SeatKind::Human || p.player_id.is_some() {
                return Err(Rejection::BadRequest(owned("That seat is not open to be invited to")));
            }
            return Ok(());
        }
        i = i + 1;
    }
    Err(Rejection::BadRequest(owned("No such seat")))
}

/// The checks on an invitation's target, after the store says whether the
/// seat already has a pending invitation: no second pending invitation,
/// and a display name or an email, not both.
pub fn invite_target_check(has_pending: bool, names_player: bool, names_email: bool) -> (r: Result<(), Rejection>)
    ensures
        has_pending ==> (r matches Err(e) && rejection_is(e, 400, "This seat already has a pending invitation"@)),
        !has_pending && names_player && names_email ==> (r matches Err(e)
            && rejection_is(e, 400, "An invitation can target a display name or an email, not both"@)),
        !has_pending && !(names_player && names_email) ==> r is Ok,
{
    if has_pending {
        return Err(Rejection::BadRequest(owned("This seat already has a pending invitation")));
    }
    if names_player && names_email {
        return Err(Rejection::BadRequest(owned("An invitation can target a display name or an email, not both")));
    }
    Ok(())
}

/// How a new seat is to be claimed.
#[derive(Debug, Clone, Copy, PartialEq, Eq, Structural)]
pub enum SeatClaimKind {
    Creator,
    Named,
    Open,
    Email,
}

/// The checks on a request to add a seat: only the original creator seat
/// may use the creator claim, and a human seat needs some claim.
pub fn add_seat_request_check(kind: SeatKind, claim: Option<SeatClaimKind>) -> (r: Result<(), Rejection>)
    ensures
        claim == Some(SeatClaimKind::Creator) ==> (r matches Err(e)
            && rejection_is(e, 400, "Only the original creator seat may use the Creator claim"@)),
        kind == SeatKind::Human && claim is None ==> (r matches Err(e)
            && rejection_is(e, 400, "A human seat needs a claim: named, open, or email"@)),
        claim != Some(SeatClaimKind::Creator) && !(kind == SeatKind::Human && claim is None) ==> r is Ok,
{
    if claim == Some(SeatClaimKind::Creator) {
        return Err(Rejection::BadRequest(owned("Only the original creator seat may use the Creator claim")));
    }
    if kind == SeatKind::Human && claim.is_none() {
        return Err(Rejection::BadRequest(owned("A human seat needs a claim: named, open, or email")));
    }
    Ok(())
}

/// Only a pending invitation can still be rejected.
pub fn reject_check(status: &str) -> (r: Result<(), Rejection>)
    ensures
        status@ == "pending"@ ==> r is Ok,
        status@ != "pending"@ ==> (r matches Err(e) && rejection_is(e, 400, "This invitation has already been responded to"@)),
{
    if !str_eq(status, "pending") {
        return Err(Rejection::BadRequest(owned("This invitation has already been responded to")));
    }
    Ok(())
}

/// `caller` holds the seat at position `seat_number`.
pub open spec fn holds_seat_at_spec(ps: Seq<ParticipantState>, seat_number: u8, caller: Seq<char>) -> bool {
    (seat_number as int) < ps.len() && opt_view(ps[seat_number as int].player_id) == Some(caller)
}

pub fn holds_seat_at(game: &GameSession, seat_number: u8, caller_player_id: &str) -> (r: bool)
    ensures
        r == holds_seat_at_spec(game.participants@, seat_number, caller_player_id@),
{
    let i = seat_number as usize;
    if i >= game.participants.len() {
        return false;
    }
    opt_str_is(&game.participants[i].player_id, caller_player_id)
}

// ----- seats changing hands -----

impl GameSession {
    /// Gives the first seat numbered `seat_number` to `player_id`, under
    /// `display_name`: how an accepted invitation claims its seat. A game
    /// without such a seat is left as it was.
    pub fn claim_seat(&mut self, seat_number: u8, player_id: &str, display_name: &str)
        ensures
            same_but_seats(*old(self), *final(self)),
            final(self).participants@.len() == old(self).participants@.len(),
            forall|i: int| 0 <= i < old(self).participants@.len() ==> {
                let p = old(self).participants@[i];
                let q = #[trigger] final(self).participants@[i];
                if seat_index(old(self).participants@, seat_number, i) {
                    &&& opt_view(q.player_id) == Some(player_id@)
                    &&& q.display_name@ == display_name@
                    &&& q.seat_number == p.seat_number
                    &&& q.kind == p.kind
                    &&& q.engine_id == p.engine_id
                    &&& q.score == p.score
                    &&& q.rack == p.rack
                    &&& q.resigned == p.resigned
                    &&& q.removed_by_player == p.removed_by_player
                    &&& q.invited_email == p.invited_email
                    &&& q.reminder_sent_turn == p.reminder_sent_turn
                } else {
                    q == p
                }
            },
    {
        let mut i: usize = 0;
        while i < self.participants.len()
            invariant
                i <= self.participants@.len(),
                *self == *old(self),
                forall|j: int| 0 <= j < i ==> (#[trigger] self.participants@[j]).seat_number != seat_number,
            decreases self.participants@.len() - i,
        {
            if self.participants[i].seat_number == seat_number {
                let ghost before = self.participants@;
                self.participants[i].player_id = Some(owned(player_id));
                self.participants[i].display_name = owned(display_name);
                proof {
                    assert forall|x: int| 0 <= x < before.len() && x != i implies #[trigger] self.participants@[x] == before[x] by {}
                    assert forall|x: int| seat_index(before, seat_number, x) implies x == i by {
                        if x < i {
                            assert(before[x].seat_number != seat_number);
                        } else if x > i {
                            assert(before[i as int].seat_number != seat_number);
                        }
                    }
                    assert(seat_index(before, seat_number, i as int));
                }
                return;
            }
            i = i + 1;
        }
    }

    /// Releases every seat held by `player_id`: how a deleted account's
    /// seats become unclaimed.
    pub fn unclaim_player(&mut self, player_id: &str)
        ensures
            same_but_seats(*old(self), *final(self)),
            final(self).participants@.len() == old(self).participants@.len(),
            forall|i: int| 0 <= i < old(self).participants@.len() ==> {
                let p = old(self).participants@[i];
                #[trigger] final(self).participants@[i] == if opt_view(p.player_id) == Some(player_id@) {
                    ParticipantState { player_id: None, ..p }
                } else {
                    p
                }
            },
    {
        let mut i: usize = 0;
        while i < self.participants.len()
            invariant
                i <= self.participants@.len() == old(self).participants@.len(),
                same_but_seats(*old(self), *self),
                forall|j: int| i <= j < old(self).participants@.len() ==> #[trigger] self.participants@[j] == old(self).participants@[j],
                forall|j: int| 0 <= j < i ==> {
                    let p = old(self).participants@[j];
                    #[trigger] self.participants@[j] == if opt_view(p.player_id) == Some(player_id@) {
                        ParticipantState { player_id: None, ..p }
                    } else {
                        p
                    }
                },
            decreases old(self).participants@.len() - i,
        {
            if opt_str_is(&self.participants[i].player_id, player_id) {
                self.participants[i].player_id = None;
            }
            i = i + 1;
        }
    }
}

// ----- engine turns -----

/// What an engine chose to do with its turn. A placement carries the rules
/// engine's verdict on it.
#[derive(Debug)]
pub enum EngineAction {
    Place(MoveCandidate, Result<MoveValidation, String>),
    Pass,
    Exchange(Vec<Tile>),
    Resign,
}

/// The move type an action records.
pub open spec fn action_word(a: EngineAction) -> Seq<char> {
    match a {
        EngineAction::Place(..) => "place"@,
        EngineAction::Pass => "pass"@,
        EngineAction::Exchange(..) => "exchange"@,
        EngineAction::Resign => "resign"@,
    }
}

impl GameSession {
    /// Whose engine should move now: nothing when the game is not active or
    /// the seat on turn is not an engine seat; an error when the seat on
    /// turn is missing or names no engine; else the seat and its engine.
    pub fn engine_turn_seat(&self) -> (r: Result<Option<(u8, String)>, String>)
        ensures
            self.status != GameStatus::Active ==> r == Ok::<Option<(u8, String)>, String>(None),
            self.status == GameStatus::Active && self.current_seat >= self.participants@.len()
                ==> (r matches Err(e) && e@ == "Current seat missing"@),
            self.status == GameStatus::Active && self.current_seat < self.participants@.len() ==> ({
                let p = self.participants@[self.current_seat as int];
                if p.kind != SeatKind::Engine {
                    r == Ok::<Option<(u8, String)>, String>(None)
                } else if p.engine_id is None {
                    r matches Err(e) && e@ == "Engine seat missing engine id"@
                } else {
                    r matches Ok(Some(x)) && x.0 == self.current_seat && Some(x.1@) == opt_view(p.engine_id)
                }
            }),
    {
        if self.status != GameStatus::Active {
            return Ok(None);
        }
        let cur = self.current_seat as usize;
        if cur >= self.participants.len() {
            return Err(owned("Current seat missing"));
        }
        let p = &self.participants[cur];
        if p.kind != SeatKind::Engine {
            return Ok(None);
        }
        match &p.engine_id {
            Some(id) => Ok(Some((self.current_seat, id.clone()))),
            None => Err(owned("Engine seat missing engine id")),
        }
    }

    /// Plays an engine's chosen action for the seat on turn at time `now`,
    /// through the same moves a player's request goes through.
    pub fn apply_engine_action_at(&mut self, action: EngineAction, now: u64) -> (r: Result<(), String>)
        requires
            old(self).wf(),
            score_room(old(self).participants@),
            old(self).consecutive_scoreless_turns < 255,
            old(self).turn_number < i64::MAX,
            action matches EngineAction::Place(c, v) ==> (v matches Ok(val) ==> val.score_total <= 0x20000000)
                && forall|i: int| 0 <= i < c.tiles@.len() ==> tile_wf(#[trigger] c.tiles@[i].tile),
            action matches EngineAction::Exchange(ts) ==> forall|i: int| 0 <= i < ts@.len() ==> tile_wf(#[trigger] ts@[i]),
        ensures
            final(self).wf(),
            !on_turn(*old(self), old(self).current_seat) ==> r is Err && *final(self) == *old(self),
            r is Ok ==> final(self).moves@.len() == old(self).moves@.len() + 1
                && final(self).moves@.last().move_type@ == action_word(action)
                && final(self).moves@.last().seat_number == old(self).current_seat,
            match action {
                EngineAction::Place(c, v) => place_post(*old(self), *final(self), old(self).current_seat, c, v, r, now),
                EngineAction::Pass => pass_post(*old(self), *final(self), old(self).current_seat, r, now),
                EngineAction::Exchange(ts) => exchange_post(*old(self), *final(self), old(self).current_seat, ts, r, now),
                EngineAction::Resign => resign_post(*old(self), *final(self), old(self).current_seat, r, now),
            },
    {
        let seat = self.current_seat;
        match action {
            EngineAction::Place(candidate, validation) => self.apply_place_move_at(seat, candidate, validation, now),
            EngineAction::Pass => self.apply_pass_at(seat, now),
            EngineAction::Exchange(tiles) => self.apply_exchange_at(seat, tiles, now),
            EngineAction::Resign => self.apply_resign_at(seat, now),
        }
    }
}

/// Whether an engine supports the game's variant.
pub fn engine_supports_variant(supported: &Vec<String>, variant: &str) -> (r: bool)
    ensures
        r == exists|i: int| 0 <= i < supported@.len() && (#[trigger] supported@[i])@ == variant@,
{
    let mut i: usize = 0;
    while i < supported.len()
        invariant
            i <= supported@.len(),
            forall|j: int| 0 <= j < i ==> (#[trigger] supported@[j])@ != variant@,
        decreases supported@.len() - i,
    {
        if str_eq(supported[i].as_str(), variant) {
            return true;
        }
        i = i + 1;
    }
    false
}

/// "Engine 'ID' does not support the 'VARIANT' variant".
pub fn unsupported_variant_message(engine_id: &str, variant: &str) -> (r: String)
    ensures
        r@ == "Engine '"@ + engine_id@ + "' does not support the '"@ + variant@ + "' variant"@,
{
    cat(&cat(&cat(&cat("Engine '", engine_id), "' does not support the '"), variant), "' variant")
}

// ----- sessions and sweeps -----

/// The token of an `Authorization` header value of the form `Bearer TOKEN`.
pub open spec fn bearer_spec(header: Option<Seq<char>>) -> Option<Seq<char>> {
    match header {
        Some(h) => if h.len() >= 7 && h.take(7) == "Bearer "@ { Some(h.skip(7)) } else { None },
        None => None,
    }
}

pub fn bearer_token(header: Option<&str>) -> (r: Option<String>)
    ensures
        opt_view(r) == bearer_spec(match header { Some(h) => Some(h@), None => None }),
{
    let h = match header {
        Some(h) => h,
        None => {
            return None;
        },
    };
    let cs = chars_of(h);
    let prefix = chars_of("Bearer ");
    proof {
        reveal_strlit("Bearer ");
    }
    if cs.len() < 7 {
        return None;
    }
    let mut i: usize = 0;
    while i < 7
        invariant
            i <= 7 <= cs@.len(),
            cs@ == h@,
            header == Some(h),
            prefix@ == "Bearer "@,
            prefix@.len() == 7,
            forall|j: int| 0 <= j < i ==> cs@[j] == prefix@[j],
        decreases 7 - i,
    {
        if cs[i] != prefix[i] {
            assert(cs@.take(7)[i as int] != prefix@[i as int]);
            return None;
        }
        i = i + 1;
    }
    assert(cs@.take(7) =~= prefix@);
    let mut rest: Vec<char> = Vec::new();
    let mut k: usize = 7;
    while k < cs.len()
        invariant
            7 <= k <= cs@.len(),
            rest@ == cs@.subrange(7, k as int),
        decreases cs@.len() - k,
    {
        rest.push(cs[k]);
        assert(rest@ =~= cs@.subrange(7, k + 1));
        k = k + 1;
    }
    assert(rest@ =~= h@.skip(7));
    Some(string_from_chars(&rest))
}

/// How long a finished game is kept, in seconds: a week.
pub const FINISHED_GAME_RETENTION_SECONDS: u64 = 604800;

/// The creation-time cutoff, in the store's decimal form, before which a
/// finished game is deleted, given the current time in that form (which
/// reads as 0 if it is not a number).
pub fn finished_game_cutoff(now: &str) -> (r: String)
    ensures
        r@ == decimal(({
            let n = match parse_u64_spec(now@) { Some(v) => v as int, None => 0int };
            if n >= FINISHED_GAME_RETENTION_SECONDS { n - FINISHED_GAME_RETENTION_SECONDS } else { 0int }
        }) as nat),
{
    let n = match parse_u64(now) {
        Some(v) => v,
        None => 0,
    };
    let cutoff = if n >= FINISHED_GAME_RETENTION_SECONDS { n - FINISHED_GAME_RETENTION_SECONDS } else { 0 };
    u64_to_decimal(cutoff)
}

// ----- withdrawing from a seat -----

/// Invitation `j` is for seat `seat` and was accepted.
pub open spec fn accepted_for(invs: Seq<InvitationRecord>, seat: u8, j: int) -> bool {
    0 <= j < invs.len() && invs[j].seat_number == seat && invs[j].status@ == "accepted"@
}

/// Invitation `i` is the latest accepted one for `seat` among the first
/// `n`: none sorts after it by creation time, and of equally late ones it
/// comes last.
pub open spec fn is_latest_accepted(invs: Seq<InvitationRecord>, n: int, seat: u8, i: int) -> bool {
    &&& 0 <= i < n
    &&& accepted_for(invs, seat, i)
    &&& forall|j: int| 0 <= j < i && accepted_for(invs, seat, j) ==> !seq_lt(invs[i].created_at@, (#[trigger] invs[j]).created_at@)
    &&& forall|j: int| i < j < n && accepted_for(invs, seat, j) ==> seq_lt((#[trigger] invs[j]).created_at@, invs[i].created_at@)
}

/// The latest accepted invitation for `seat`, if any: the one whose status
/// goes back to rejected when its player withdraws from the seat.
pub fn latest_accepted_invitation(invs: &[InvitationRecord], seat: u8) -> (r: Option<usize>)
    ensures
        r matches Some(i) ==> is_latest_accepted(invs@, invs@.len() as int, seat, i as int),
        r is None ==> forall|j: int| !accepted_for(invs@, seat, j),
{
    let mut best: Option<usize> = None;
    let mut i: usize = 0;
    while i < invs.len()
        invariant
            i <= invs@.len(),
            best matches Some(b) ==> is_latest_accepted(invs@, i as int, seat, b as int),
            best is None ==> forall|j: int| 0 <= j < i ==> !accepted_for(invs@, seat, j),
        decreases invs@.len() - i,
    {
        if invs[i].seat_number == seat && str_eq(invs[i].status.as_str(), "accepted") {
            match best {
                None => {
                    best = Some(i);
                },
                Some(b) => {
                    let later = str_less(invs[i].created_at.as_str(), invs[b].created_at.as_str());
                    if !later {
                        proof {
                            let ci = invs@[i as int].created_at@;
                            let cb = invs@[b as int].created_at@;
                            lemma_seq_lt_trichotomy(ci, cb);
                            assert forall|j: int| 0 <= j < i && accepted_for(invs@, seat, j) implies !seq_lt(ci, (#[trigger] invs@[j]).created_at@) by {
                                let cj = invs@[j].created_at@;
                                lemma_seq_lt_trichotomy(ci, cj);
                                lemma_seq_lt_trichotomy(cb, cj);
                                if j < b {
                                    if seq_lt(ci, cj) {
                                        if seq_lt(cb, ci) {
                                            lemma_seq_lt_transitive(cb, ci, cj);
                                        }
                                    }
                                } else if j > b {
                                    if seq_lt(cb, ci) {
                                        lemma_seq_lt_transitive(cj, cb, ci);
                                    }
                                }
                            }
                        }
                        best = Some(i);
                    }
                },
            }
        }
        i = i + 1;
    }
    best
}

/// An administrator's password reset needs a new password.
pub fn admin_password_check(new_password: &str) -> (r: Result<(), Rejection>)
    ensures
        new_password@.len() == 0 ==> (r matches Err(e) && rejection_is(e, 400, "A new password is required"@)),
        new_password@.len() > 0 ==> r is Ok,
{
    if new_password.unicode_len() == 0 {
        return Err(Rejection::BadRequest(owned("A new password is required")));
    }
    Ok(())
}

// ----- the admin game list -----

/// A game shows in the admin list: it has the status asked for, if any,
/// and, when only games older than some days are asked for, it was
/// created at or before that many days before `now`.
pub open spec fn admin_listed_spec(
    status_filter: Option<GameStatus>,
    status: GameStatus,
    now: i64,
    older_than_days: Option<i64>,
    created_at: Option<i64>,
) -> bool {
    &&& (status_filter matches Some(s) ==> s == status)
    &&& (older_than_days matches Some(d) ==> (created_at matches Some(c) && c <= now - d * 86400))
}

pub fn admin_game_listed(
    status_filter: Option<GameStatus>,
    status: GameStatus,
    now: i64,
    older_than_days: Option<i64>,
    created_at: Option<i64>,
) -> (r: bool)
    ensures
        r == admin_listed_spec(status_filter, status, now, older_than_days, created_at),
{
    match status_filter {
        Some(s) => {
            if s != status {
                return false;
            }
        },
        None => {},
    }
    match older_than_days {
        None => true,
        Some(d) => match created_at {
            None => false,
            Some(c) => (c as i128) <= (now as i128) - (d as i128) * 86400,
        },
    }
}

/// `order` lists every position of `keys` once, newest (largest key)
/// first, positions with equal keys in the order given.
pub open spec fn newest_first_spec(keys: Seq<i64>, order: Seq<usize>) -> bool {
    &&& order.len() == keys.len()
    &&& forall|k: int| 0 <= k < order.len() ==> (#[trigger] order[k]) < keys.len()
    &&& forall|k: int, l: int| 0 <= k < l < order.len() ==> #[trigger] order[k] != #[trigger] order[l]
    &&& forall|k: int, l: int| #![trigger order[k], order[l]] 0 <= k < l < order.len() ==> {
        let a = keys[order[k] as int];
        let b = keys[order[l] as int];
        a > b || (a == b && order[k] < order[l])
    }
}

/// The positions of `keys`, newest first (a stable sort by descending key).
pub fn newest_first(keys: &Vec<i64>) -> (order: Vec<usize>)
    ensures
        newest_first_spec(keys@, order@),
{
    let mut order: Vec<usize> = Vec::new();
    let mut i: usize = 0;
    while i < keys.len()
        invariant
            i <= keys@.len(),
            order@.len() == i,
            forall|k: int| 0 <= k < order@.len() ==> (#[trigger] order@[k]) < i,
            forall|k: int, l: int| 0 <= k < l < order@.len() ==> #[trigger] order@[k] != #[trigger] order@[l],
            forall|k: int, l: int| #![trigger order@[k], order@[l]] 0 <= k < l < order@.len() ==> {
                let a = keys@[order@[k] as int];
                let b = keys@[order@[l] as int];
                a > b || (a == b && order@[k] < order@[l])
            },
        decreases keys@.len() - i,
    {
        let key = keys[i];
        // The new position goes after every entry at least as new.
        let mut at: usize = 0;
        while at < order.len() && keys[order[at]] >= key
            invariant
                at <= order@.len(),
                order@.len() == i,
                i < keys@.len(),
                key == keys@[i as int],
                forall|k: int| 0 <= k < order@.len() ==> (#[trigger] order@[k]) < i,
                forall|k: int| 0 <= k < at ==> keys@[(#[trigger] order@[k]) as int] >= key,
            decreases order@.len() - at,
        {
            at = at + 1;
        }
        let ghost before = order@;
        proof {
            assert forall|k: int| at <= k < before.len() implies keys@[(#[trigger] before[k]) as int] < key by {
                if at < before.len() {
                    assert(keys@[before[at as int] as int] < key);
                    if k > at {
                        let a = keys@[before[at as int] as int];
                        let b = keys@[before[k] as int];
                        assert(a > b || (a == b && before[at as int] < before[k]));
                    }
                }
            }
        }
        order.insert(at, i);
        proof {
            assert(order@ =~= before.subrange(0, at as int).push(i).add(before.subrange(at as int, before.len() as int)));
            assert forall|k: int| 0 <= k < order@.len() implies (#[trigger] order@[k]) < i + 1 by {
                if k < at {
                    assert(order@[k] == before[k]);
                } else if k > at {
                    assert(order@[k] == before[k - 1]);
                }
            }
            assert forall|k: int, l: int| 0 <= k < l < order@.len() implies #[trigger] order@[k] != #[trigger] order@[l] by {
                if k < at && l < at {
                    assert(order@[k] == before[k] && order@[l] == before[l]);
                } else if k < at && l == at {
                    assert(order@[k] == before[k]);
                } else if k < at && l > at {
                    assert(order@[k] == before[k] && order@[l] == before[l - 1]);
                } else if k == at {
                    assert(order@[l] == before[l - 1]);
                } else {
                    assert(order@[k] == before[k - 1] && order@[l] == before[l - 1]);
                }
            }
            assert forall|k: int, l: int| #![trigger order@[k], order@[l]] 0 <= k < l < order@.len() implies {
                let a = keys@[order@[k] as int];
                let b = keys@[order@[l] as int];
                a > b || (a == b && order@[k] < order@[l])
            } by {
                if k < at && l < at {
                    assert(order@[k] == before[k] && order@[l] == before[l]);
                } else if k < at && l == at {
                    assert(order@[k] == before[k]);
                } else if k < at && l > at {
                    assert(order@[k] == before[k] && order@[l] == before[l - 1]);
                } else if k == at {
                    assert(order@[l] == before[l - 1]);
                } else {
                    assert(order@[k] == before[k - 1] && order@[l] == before[l - 1]);
                }
            }
        }
        i = i + 1;
    }
    order
}

} // verus!
