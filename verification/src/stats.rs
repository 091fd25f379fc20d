//! Per-seat outcomes and bingo counts of a game, and the parts of the
//! rating step that are decisions rather than arithmetic on ratings: which
//! endings are rated, which seats take part, and how two seats rank.

use vstd::prelude::*;
use crate::dto::GameStatus;
use crate::game_state::{GameSession, MoveRecord, ParticipantState};
use crate::text::{opt_view, str_eq};

verus! {

/// The move type of the last move recorded, if any: for a finished game,
/// the action that ended it.
pub open spec fn terminal_move_spec(moves: Seq<MoveRecord>) -> Option<Seq<char>> {
    if moves.len() == 0 {
        None
    } else {
        Some(moves.last().move_type@)
    }
}

pub fn terminal_move_type(session: &GameSession) -> (r: Option<&str>)
    ensures
        match r {
            Some(s) => terminal_move_spec(session.moves@) == Some(s@),
            None => terminal_move_spec(session.moves@) is None,
        },
{
    if session.moves.len() == 0 {
        None
    } else {
        Some(session.moves[session.moves.len() - 1].move_type.as_str())
    }
}

/// A finished game's result for one seat; every seat gets exactly one.
#[derive(Debug, Clone, Copy, PartialEq, Eq, Structural)]
pub enum Outcome {
    Win,
    Loss,
    Tie,
    Timeout,
    Resigned,
}

pub open spec fn outcome_word(o: Outcome) -> Seq<char> {
    match o {
        Outcome::Win => "win"@,
        Outcome::Loss => "loss"@,
        Outcome::Tie => "tie"@,
        Outcome::Timeout => "timeout"@,
        Outcome::Resigned => "resigned"@,
    }
}

impl Outcome {
    /// The stored name of the outcome.
    pub fn as_db_str(self) -> (r: &'static str)
        ensures
            r@ == outcome_word(self),
    {
        match self {
            Outcome::Win => "win",
            Outcome::Loss => "loss",
            Outcome::Tie => "tie",
            Outcome::Timeout => "timeout",
            Outcome::Resigned => "resigned",
        }
    }
}

/// One seat's outcome (unset while the game is not finished) and how many
/// bingos it played.
#[derive(Debug)]
pub struct ParticipantOutcome {
    pub seat_number: u8,
    pub outcome: Option<Outcome>,
    pub bingo_count: i64,
}

// ----- bingos -----

/// Move `m` is a bingo by seat `seat`: a placement of seven tiles.
pub open spec fn is_bingo(m: MoveRecord, seat: u8) -> bool {
    m.seat_number == seat && m.move_type@ == "place"@ && m.positions@.len() == 7
}

/// How many bingos seat `seat` played among `ms`.
pub open spec fn bingo_count(ms: Seq<MoveRecord>, seat: u8) -> nat
    decreases ms.len(),
{
    if ms.len() == 0 {
        0
    } else {
        bingo_count(ms.drop_last(), seat) + if is_bingo(ms.last(), seat) { 1nat } else { 0nat }
    }
}

pub proof fn lemma_bingo_count_le(ms: Seq<MoveRecord>, seat: u8)
    ensures
        bingo_count(ms, seat) <= ms.len(),
    decreases ms.len(),
{
    if ms.len() > 0 {
        lemma_bingo_count_le(ms.drop_last(), seat);
    }
}

fn count_bingos(moves: &Vec<MoveRecord>, seat: u8) -> (n: i64)
    requires
        moves@.len() <= i64::MAX,
    ensures
        n == bingo_count(moves@, seat),
{
    let mut n: i64 = 0;
    let mut i: usize = 0;
    while i < moves.len()
        invariant
            i <= moves@.len() <= i64::MAX,
            n == bingo_count(moves@.take(i as int), seat),
        decreases moves@.len() - i,
    {
        proof {
            assert(moves@.take(i + 1).drop_last() =~= moves@.take(i as int));
            lemma_bingo_count_le(moves@.take(i as int), seat);
        }
        let m = &moves[i];
        if m.seat_number == seat && str_eq(m.move_type.as_str(), "place") && m.positions.len() == 7 {
            n = n + 1;
        }
        i = i + 1;
    }
    assert(moves@.take(moves@.len() as int) =~= moves@);
    n
}

// ----- who forfeited -----

/// The seat number of the first resigned seat, if any: at most one seat
/// can forfeit, since a resignation or timeout ends the game.
pub open spec fn forfeiter_seat(ps: Seq<ParticipantState>) -> Option<u8>
    decreases ps.len(),
{
    if ps.len() == 0 {
        None
    } else if ps[0].resigned {
        Some(ps[0].seat_number)
    } else {
        forfeiter_seat(ps.drop_first())
    }
}

/// Move `m` is seat `seat` giving the game up: a resignation, a forced
/// resignation or a timeout.
pub open spec fn is_forfeit_move(m: MoveRecord, seat: u8) -> bool {
    m.seat_number == seat && (m.move_type@ == "resign"@ || m.move_type@ == "force_resign"@ || m.move_type@ == "timeout"@)
}

/// The move type of the last forfeit move by `seat` among `ms`.
pub open spec fn last_forfeit_type(ms: Seq<MoveRecord>, seat: u8) -> Option<Seq<char>>
    decreases ms.len(),
{
    if ms.len() == 0 {
        None
    } else if is_forfeit_move(ms.last(), seat) {
        Some(ms.last().move_type@)
    } else {
        last_forfeit_type(ms.drop_last(), seat)
    }
}

/// How the forfeiting seat `seat` lost: by timeout when its last forfeit
/// move was one, else by resigning.
pub open spec fn forfeit_outcome(ms: Seq<MoveRecord>, seat: u8) -> Outcome {
    if last_forfeit_type(ms, seat) == Some("timeout"@) {
        Outcome::Timeout
    } else {
        Outcome::Resigned
    }
}

/// Seat `p` competes for the win: it is not the forfeiting seat.
pub open spec fn competes(p: ParticipantState, fs: Option<u8>) -> bool {
    Some(p.seat_number) != fs
}

/// The best score among competing seats, if any compete.
pub open spec fn max_score(ps: Seq<ParticipantState>, fs: Option<u8>) -> Option<i32>
    decreases ps.len(),
{
    if ps.len() == 0 {
        None
    } else {
        let rest = max_score(ps.drop_last(), fs);
        if !competes(ps.last(), fs) {
            rest
        } else {
            match rest {
                None => Some(ps.last().score),
                Some(m) => if ps.last().score > m { Some(ps.last().score) } else { Some(m) },
            }
        }
    }
}

/// How many competing seats scored `score`.
pub open spec fn sharers(ps: Seq<ParticipantState>, fs: Option<u8>, score: i32) -> nat
    decreases ps.len(),
{
    if ps.len() == 0 {
        0
    } else {
        sharers(ps.drop_last(), fs, score) + if competes(ps.last(), fs) && ps.last().score == score {
            1nat
        } else {
            0nat
        }
    }
}

/// The outcome of seat `i` in a finished game with seats `ps` and moves
/// `ms`: the forfeiting seat lost by its forfeit; among the others, the
/// best score wins, or ties when shared; everyone else lost.
pub open spec fn outcome_spec(ps: Seq<ParticipantState>, ms: Seq<MoveRecord>, i: int) -> Outcome {
    let fs = forfeiter_seat(ps);
    if !competes(ps[i], fs) {
        forfeit_outcome(ms, fs->0)
    } else {
        match max_score(ps, fs) {
            Some(m) => if ps[i].score == m {
                if sharers(ps, fs, m) > 1 { Outcome::Tie } else { Outcome::Win }
            } else {
                Outcome::Loss
            },
            None => Outcome::Loss,
        }
    }
}

proof fn lemma_last_forfeit_type_is_at(ms: Seq<MoveRecord>, seat: u8, i: int)
    requires
        0 <= i < ms.len(),
        is_forfeit_move(ms[i], seat),
        forall|j: int| i < j < ms.len() ==> !is_forfeit_move(#[trigger] ms[j], seat),
    ensures
        last_forfeit_type(ms, seat) == Some(ms[i].move_type@),
    decreases ms.len(),
{
    if i < ms.len() - 1 {
        let d = ms.drop_last();
        assert(!is_forfeit_move(ms[ms.len() - 1], seat));
        assert forall|j: int| i < j < d.len() implies !is_forfeit_move(#[trigger] d[j], seat) by {
            assert(d[j] == ms[j]);
        }
        lemma_last_forfeit_type_is_at(d, seat, i);
    }
}

/// How the forfeiting seat lost follows its last forfeit move: a timeout
/// is a timeout; a resignation, forced by the creator or not, is a
/// resignation. The seat's outcome in the finished game is exactly that.
pub proof fn law_forfeit_outcome_follows_the_last_forfeit_move(
    ps: Seq<ParticipantState>,
    ms: Seq<MoveRecord>,
    k: int,
    i: int,
)
    requires
        0 <= k < ps.len(),
        forfeiter_seat(ps) == Some(ps[k].seat_number),
        0 <= i < ms.len(),
        ms[i].seat_number == ps[k].seat_number,
        ms[i].move_type@ == "resign"@ || ms[i].move_type@ == "force_resign"@ || ms[i].move_type@ == "timeout"@,
        forall|j: int| i < j < ms.len() ==> !is_forfeit_move(#[trigger] ms[j], ps[k].seat_number),
    ensures
        ms[i].move_type@ == "timeout"@ ==> outcome_spec(ps, ms, k) == Outcome::Timeout,
        ms[i].move_type@ == "resign"@ ==> outcome_spec(ps, ms, k) == Outcome::Resigned,
        ms[i].move_type@ == "force_resign"@ ==> outcome_spec(ps, ms, k) == Outcome::Resigned,
{
    lemma_last_forfeit_type_is_at(ms, ps[k].seat_number, i);
    assert("resign"@ != "timeout"@) by { reveal_strlit("resign"); reveal_strlit("timeout"); assert("resign"@.len() != "timeout"@.len()); }
    assert("force_resign"@ != "timeout"@) by { reveal_strlit("force_resign"); reveal_strlit("timeout"); assert("force_resign"@.len() != "timeout"@.len()); }
}

fn find_forfeiter(ps: &Vec<ParticipantState>) -> (r: Option<u8>)
    ensures
        r == forfeiter_seat(ps@),
{
    let mut i: usize = 0;
    assert(ps@.skip(0) =~= ps@);
    while i < ps.len()
        invariant
            i <= ps@.len(),
            forfeiter_seat(ps@) == forfeiter_seat(ps@.skip(i as int)),
        decreases ps@.len() - i,
    {
        assert(ps@.skip(i as int)[0] == ps@[i as int]);
        if ps[i].resigned {
            return Some(ps[i].seat_number);
        }
        assert(ps@.skip(i as int).drop_first() =~= ps@.skip(i + 1));
        i = i + 1;
    }
    None
}

fn find_forfeit_outcome(moves: &Vec<MoveRecord>, seat: u8) -> (r: Outcome)
    ensures
        r == forfeit_outcome(moves@, seat),
{
    let mut i: usize = moves.len();
    assert(moves@.take(i as int) =~= moves@);
    while i > 0
        invariant
            i <= moves@.len(),
            last_forfeit_type(moves@, seat) == last_forfeit_type(moves@.take(i as int), seat),
        decreases i,
    {
        let m = &moves[i - 1];
        assert(moves@.take(i as int).last() == moves@[i - 1]);
        let forfeit = m.seat_number == seat && (str_eq(m.move_type.as_str(), "resign")
            || str_eq(m.move_type.as_str(), "force_resign") || str_eq(m.move_type.as_str(), "timeout"));
        if forfeit {
            if str_eq(m.move_type.as_str(), "timeout") {
                return Outcome::Timeout;
            } else {
                return Outcome::Resigned;
            }
        }
        assert(moves@.take(i as int).drop_last() =~= moves@.take(i - 1));
        i = i - 1;
    }
    Outcome::Resigned
}

fn find_max_score(ps: &Vec<ParticipantState>, fs: Option<u8>) -> (r: Option<i32>)
    ensures
        r == max_score(ps@, fs),
{
    let mut best: Option<i32> = None;
    let mut i: usize = 0;
    while i < ps.len()
        invariant
            i <= ps@.len(),
            best == max_score(ps@.take(i as int), fs),
        decreases ps@.len() - i,
    {
        assert(ps@.take(i + 1).drop_last() =~= ps@.take(i as int));
        assert(ps@.take(i + 1).last() == ps@[i as int]);
        let p = &ps[i];
        if Some(p.seat_number) != fs {
            best = match best {
                None => Some(p.score),
                Some(m) => if p.score > m { Some(p.score) } else { Some(m) },
            };
        }
        i = i + 1;
    }
    assert(ps@.take(ps@.len() as int) =~= ps@);
    best
}

fn count_sharers(ps: &Vec<ParticipantState>, fs: Option<u8>, score: i32) -> (n: usize)
    ensures
        n == sharers(ps@, fs, score),
{
    let mut n: usize = 0;
    let mut i: usize = 0;
    while i < ps.len()
        invariant
            i <= ps@.len(),
            n <= i,
            n == sharers(ps@.take(i as int), fs, score),
        decreases ps@.len() - i,
    {
        assert(ps@.take(i + 1).drop_last() =~= ps@.take(i as int));
        assert(ps@.take(i + 1).last() == ps@[i as int]);
        if Some(ps[i].seat_number) != fs && ps[i].score == score {
            n = n + 1;
        }
        i = i + 1;
    }
    assert(ps@.take(ps@.len() as int) =~= ps@);
    n
}

/// Every seat's outcome and bingo count. Outcomes are set only once the
/// game is finished (see `outcome_spec`); the result depends on nothing
/// but the session, so computing it again gives the same values.
pub fn compute_participant_outcomes(session: &GameSession) -> (r: Vec<ParticipantOutcome>)
    requires
        session.moves@.len() <= i64::MAX,
    ensures
        r@.len() == session.participants@.len(),
        forall|i: int| 0 <= i < r@.len() ==> {
            &&& (#[trigger] r@[i]).seat_number == session.participants@[i].seat_number
            &&& r@[i].bingo_count == bingo_count(session.moves@, session.participants@[i].seat_number)
            &&& r@[i].outcome == if session.status == GameStatus::Finished {
                Some(outcome_spec(session.participants@, session.moves@, i))
            } else {
                None
            }
        },
{
    let ps = &session.participants;
    let finished = session.status == GameStatus::Finished;
    let fs = find_forfeiter(ps);
    let forfeit = match fs {
        Some(seat) => find_forfeit_outcome(&session.moves, seat),
        None => Outcome::Resigned,
    };
    let max = find_max_score(ps, fs);
    let mut out: Vec<ParticipantOutcome> = Vec::new();
    let mut i: usize = 0;
    while i < ps.len()
        invariant
            i <= ps@.len(),
            ps == &session.participants,
            session.moves@.len() <= i64::MAX,
            finished == (session.status == GameStatus::Finished),
            fs == forfeiter_seat(ps@),
            fs matches Some(s) ==> forfeit == forfeit_outcome(session.moves@, s),
            max == max_score(ps@, fs),
            out@.len() == i,
            forall|j: int| 0 <= j < i ==> {
                &&& (#[trigger] out@[j]).seat_number == ps@[j].seat_number
                &&& out@[j].bingo_count == bingo_count(session.moves@, ps@[j].seat_number)
                &&& out@[j].outcome == if finished {
                    Some(outcome_spec(ps@, session.moves@, j))
                } else {
                    None
                }
            },
        decreases ps@.len() - i,
    {
        let p = &ps[i];
        let outcome = if !finished {
            None
        } else if Some(p.seat_number) == fs {
            Some(forfeit)
        } else {
            match max {
                Some(m) => {
                    if p.score == m {
                        if count_sharers(ps, fs, m) > 1 {
                            Some(Outcome::Tie)
                        } else {
                            Some(Outcome::Win)
                        }
                    } else {
                        Some(Outcome::Loss)
                    }
                },
                None => Some(Outcome::Loss),
            }
        };
        let bingos = count_bingos(&session.moves, p.seat_number);
        out.push(ParticipantOutcome { seat_number: p.seat_number, outcome, bingo_count: bingos });
        i = i + 1;
    }
    out
}

/// `r` holds every seat's outcome and bingo count for `session`, as
/// `compute_participant_outcomes` reports them.
pub open spec fn outcomes_of(session: GameSession, r: Seq<ParticipantOutcome>) -> bool {
    &&& r.len() == session.participants@.len()
    &&& forall|i: int| 0 <= i < r.len() ==> {
        &&& (#[trigger] r[i]).seat_number == session.participants@[i].seat_number
        &&& r[i].bingo_count == bingo_count(session.moves@, session.participants@[i].seat_number)
        &&& r[i].outcome == if session.status == GameStatus::Finished {
            Some(outcome_spec(session.participants@, session.moves@, i))
        } else {
            None
        }
    }
}

/// Outcomes depend on the session alone: computing them again, say on a
/// later save of the same finished game, gives the same values.
pub proof fn law_outcomes_are_reproducible(session: GameSession, first: Seq<ParticipantOutcome>, again: Seq<ParticipantOutcome>)
    requires
        outcomes_of(session, first),
        outcomes_of(session, again),
    ensures
        first.len() == again.len(),
        forall|i: int| 0 <= i < first.len() ==> (#[trigger] first[i]).seat_number == again[i].seat_number
            && first[i].outcome == again[i].outcome && first[i].bingo_count == again[i].bingo_count,
{
}

/// In a finished game every seat has an outcome.
pub proof fn law_finished_games_settle_every_seat(session: GameSession, r: Seq<ParticipantOutcome>, i: int)
    requires
        outcomes_of(session, r),
        session.status == GameStatus::Finished,
        0 <= i < r.len(),
    ensures
        r[i].outcome is Some,
{
}

/// Two different competing seats with the same score are both counted
/// among those sharing it.
pub proof fn lemma_two_sharers(ps: Seq<ParticipantState>, fs: Option<u8>, score: i32, i: int, j: int)
    requires
        0 <= i < j < ps.len(),
        competes(ps[i], fs) && ps[i].score == score,
        competes(ps[j], fs) && ps[j].score == score,
    ensures
        sharers(ps, fs, score) >= 2,
    decreases ps.len(),
{
    if j < ps.len() - 1 {
        lemma_two_sharers(ps.drop_last(), fs, score, i, j);
    } else {
        lemma_one_sharer(ps.drop_last(), fs, score, i);
    }
}

pub proof fn lemma_one_sharer(ps: Seq<ParticipantState>, fs: Option<u8>, score: i32, i: int)
    requires
        0 <= i < ps.len(),
        competes(ps[i], fs) && ps[i].score == score,
    ensures
        sharers(ps, fs, score) >= 1,
    decreases ps.len(),
{
    if i < ps.len() - 1 {
        lemma_one_sharer(ps.drop_last(), fs, score, i);
    }
}

/// A finished game has at most one winner, and a game with a winner has
/// no tie: any other seat's outcome is neither.
pub proof fn law_single_winner(ps: Seq<ParticipantState>, ms: Seq<MoveRecord>, i: int, j: int)
    requires
        0 <= i < ps.len(),
        0 <= j < ps.len(),
        i != j,
        outcome_spec(ps, ms, i) == Outcome::Win,
    ensures
        outcome_spec(ps, ms, j) != Outcome::Win,
        outcome_spec(ps, ms, j) != Outcome::Tie,
{
    let fs = forfeiter_seat(ps);
    if competes(ps[i], fs) && competes(ps[j], fs) {
        if let Some(m) = max_score(ps, fs) {
            if ps[i].score == m && ps[j].score == m {
                if i < j {
                    lemma_two_sharers(ps, fs, m, i, j);
                } else {
                    lemma_two_sharers(ps, fs, m, j, i);
                }
            }
        }
    }
}

// ----- rating decisions -----

/// A game whose last move is a play (a placement, a pass, an exchange) or
/// a seat leaving (a resignation, a forced resignation, a timeout) may
/// move ratings; an administrative end or no moves at all never does.
/// Seats that left by force are kept out of the rating (`rated_subject`).
pub open spec fn rated_ending_spec(moves: Seq<MoveRecord>) -> bool {
    match terminal_move_spec(moves) {
        Some(t) => t == "place"@ || t == "pass"@ || t == "exchange"@ || t == "resign"@
            || t == "force_resign"@ || t == "timeout"@,
        None => false,
    }
}

pub fn is_rated_ending(session: &GameSession) -> (r: bool)
    ensures
        r == rated_ending_spec(session.moves@),
{
    match terminal_move_type(session) {
        Some(t) => str_eq(t, "place") || str_eq(t, "pass") || str_eq(t, "exchange") || str_eq(t, "resign")
            || str_eq(t, "force_resign") || str_eq(t, "timeout"),
        None => false,
    }
}

/// The position in `ms` of the last forfeit move by `seat`, if any.
pub open spec fn last_forfeit_at(ms: Seq<MoveRecord>, seat: u8) -> Option<int>
    decreases ms.len(),
{
    if ms.len() == 0 {
        None
    } else if is_forfeit_move(ms.last(), seat) {
        Some(ms.len() - 1)
    } else {
        last_forfeit_at(ms.drop_last(), seat)
    }
}

/// Seat `p` left the game by a forced resignation or a timeout: it is
/// resigned and its last forfeit move is one of those.
pub open spec fn left_by_force(p: ParticipantState, ms: Seq<MoveRecord>) -> bool {
    p.resigned && match last_forfeit_at(ms, p.seat_number) {
        Some(i) => ms[i].move_type@ == "force_resign"@ || ms[i].move_type@ == "timeout"@,
        None => false,
    }
}

/// How late seat `p` gave the game up: one past the position of its last
/// forfeit move, or 0 when it made none.
pub open spec fn exit_order_spec(p: ParticipantState, ms: Seq<MoveRecord>) -> int {
    match last_forfeit_at(ms, p.seat_number) {
        Some(i) => i + 1,
        None => 0,
    }
}

/// The position of the last forfeit move by `seat` among `moves`.
fn find_last_forfeit(moves: &Vec<MoveRecord>, seat: u8) -> (r: Option<usize>)
    ensures
        match r {
            Some(i) => last_forfeit_at(moves@, seat) == Some(i as int) && i < moves@.len(),
            None => last_forfeit_at(moves@, seat) is None,
        },
{
    let mut i: usize = moves.len();
    assert(moves@.take(i as int) =~= moves@);
    while i > 0
        invariant
            i <= moves@.len(),
            last_forfeit_at(moves@, seat) == last_forfeit_at(moves@.take(i as int), seat),
        decreases i,
    {
        let m = &moves[i - 1];
        proof {
            assert(moves@.take(i as int).last() == moves@[i - 1]);
            assert(moves@.take(i as int).drop_last() =~= moves@.take(i - 1));
        }
        if m.seat_number == seat && (str_eq(m.move_type.as_str(), "resign") || str_eq(
            m.move_type.as_str(),
            "force_resign",
        ) || str_eq(m.move_type.as_str(), "timeout")) {
            return Some(i - 1);
        }
        i = i - 1;
    }
    assert(moves@.take(0) =~= Seq::<MoveRecord>::empty());
    None
}

/// A seat that takes part in rating: whose it is, whether it resigned,
/// how late it did, and its score.
#[derive(Debug)]
pub struct RatedSeat {
    pub subject_is_player: bool,
    pub subject_id: String,
    pub forfeited: bool,
    /// One past the position of the seat's last forfeit move, or 0.
    pub exit_order: usize,
    pub score: i32,
}

/// Seat `p` is bound to exactly one subject: a player or an engine.
pub open spec fn has_subject(p: ParticipantState) -> bool {
    (p.player_id is Some) != (p.engine_id is Some)
}

/// Seat `p` takes part in rating a game with moves `ms`: it is bound to
/// exactly one subject and did not leave by force.
pub open spec fn rated_subject(p: ParticipantState, ms: Seq<MoveRecord>) -> bool {
    has_subject(p) && !left_by_force(p, ms)
}

/// `r` is seat `p` as rated in a game with moves `ms`.
pub open spec fn rated_seat_of(r: RatedSeat, p: ParticipantState, ms: Seq<MoveRecord>) -> bool {
    &&& r.subject_is_player == (p.player_id is Some)
    &&& Some(r.subject_id@) == if p.player_id is Some { opt_view(p.player_id) } else { opt_view(p.engine_id) }
    &&& r.forfeited == p.resigned
    &&& r.exit_order == exit_order_spec(p, ms)
    &&& r.score == p.score
}

/// The seats that take part in rating, in order.
pub open spec fn subject_seats(ps: Seq<ParticipantState>, ms: Seq<MoveRecord>) -> Seq<ParticipantState> {
    ps.filter(|p: ParticipantState| rated_subject(p, ms))
}

/// The seats that take part in rating the game, in seat order: those
/// bound to exactly one player or engine, less those that left by a forced
/// resignation or a timeout.
pub fn rated_seats(session: &GameSession) -> (r: Vec<RatedSeat>)
    ensures
        r@.len() == subject_seats(session.participants@, session.moves@).len(),
        forall|i: int| 0 <= i < r@.len() ==> rated_seat_of(#[trigger] r@[i], subject_seats(session.participants@, session.moves@)[i],
            session.moves@),
{
    let ps = &session.participants;
    let ghost ms = session.moves@;
    let mut out: Vec<RatedSeat> = Vec::new();
    let mut i: usize = 0;
    while i < ps.len()
        invariant
            i <= ps@.len(),
            ps == &session.participants,
            ms == session.moves@,
            out@.len() == subject_seats(ps@.take(i as int), ms).len(),
            forall|j: int| 0 <= j < out@.len() ==> rated_seat_of(#[trigger] out@[j], subject_seats(ps@.take(i as int), ms)[j], ms),
        decreases ps@.len() - i,
    {
        let p = &ps[i];
        proof {
            reveal(Seq::filter);
            assert(ps@.take(i + 1).drop_last() =~= ps@.take(i as int));
            assert(ps@.take(i + 1).last() == ps@[i as int]);
        }
        let last = find_last_forfeit(&session.moves, p.seat_number);
        let by_force = p.resigned && match last {
            Some(k) => str_eq(session.moves[k].move_type.as_str(), "force_resign") || str_eq(
                session.moves[k].move_type.as_str(),
                "timeout",
            ),
            None => false,
        };
        let exit_order: usize = match last {
            Some(k) => {
                assert(k < session.moves.len());
                k + 1
            },
            None => 0,
        };
        let subject: Option<(bool, String)> = match (&p.player_id, &p.engine_id) {
            (Some(id), None) => Some((true, id.clone())),
            (None, Some(id)) => Some((false, id.clone())),
            _ => None,
        };
        if !by_force {
            match subject {
                Some((is_player, id)) => {
                    out.push(RatedSeat {
                        subject_is_player: is_player,
                        subject_id: id,
                        forfeited: p.resigned,
                        exit_order,
                        score: p.score,
                    });
                },
                None => {},
            }
        }
        i = i + 1;
    }
    assert(ps@.take(ps@.len() as int) =~= ps@);
    out
}

/// Every seat of `ps` takes part in rating: then they all do, in order.
proof fn lemma_all_rated_subjects(ps: Seq<ParticipantState>, ms: Seq<MoveRecord>)
    requires
        forall|i: int| 0 <= i < ps.len() ==> rated_subject(#[trigger] ps[i], ms),
    ensures
        subject_seats(ps, ms) == ps,
    decreases ps.len(),
{
    reveal(Seq::filter);
    if ps.len() > 0 {
        let d = ps.drop_last();
        assert forall|i: int| 0 <= i < d.len() implies rated_subject(#[trigger] d[i], ms) by {
            assert(d[i] == ps[i]);
        }
        lemma_all_rated_subjects(d, ms);
        assert(rated_subject(ps[ps.len() - 1], ms));
        assert(d.push(ps.last()) =~= ps);
    }
}

/// A game that ended with a placement (someone went out), a pass, an
/// exchange or a voluntary resignation is rated, and when every seat is
/// bound to exactly one player or engine and still playing, every seat
/// takes part; so two or more such seats are always rated.
pub proof fn law_organic_endings_rate_every_playing_seat(ps: Seq<ParticipantState>, ms: Seq<MoveRecord>)
    requires
        ms.len() > 0,
        ms.last().move_type@ == "place"@ || ms.last().move_type@ == "pass"@ || ms.last().move_type@ == "exchange"@
            || ms.last().move_type@ == "resign"@,
        forall|i: int| 0 <= i < ps.len() ==> has_subject(#[trigger] ps[i]) && !ps[i].resigned,
    ensures
        rated_ending_spec(ms),
        subject_seats(ps, ms) == ps,
{
    assert forall|i: int| 0 <= i < ps.len() implies rated_subject(#[trigger] ps[i], ms) by {
        assert(has_subject(ps[i]) && !ps[i].resigned);
    }
    lemma_all_rated_subjects(ps, ms);
}

/// An administrative end, or no moves at all, is never rated.
pub proof fn law_administrative_endings_are_not_rated(ms: Seq<MoveRecord>)
    requires
        ms.len() == 0 || ms.last().move_type@ == "admin_force_end"@,
    ensures
        !rated_ending_spec(ms),
{
    if ms.len() > 0 {
        assert("admin_force_end"@ != "place"@) by { reveal_strlit("admin_force_end"); reveal_strlit("place"); assert("admin_force_end"@.len() != "place"@.len()); }
        assert("admin_force_end"@ != "pass"@) by { reveal_strlit("admin_force_end"); reveal_strlit("pass"); assert("admin_force_end"@.len() != "pass"@.len()); }
        assert("admin_force_end"@ != "exchange"@) by { reveal_strlit("admin_force_end"); reveal_strlit("exchange"); assert("admin_force_end"@.len() != "exchange"@.len()); }
        assert("admin_force_end"@ != "resign"@) by { reveal_strlit("admin_force_end"); reveal_strlit("resign"); assert("admin_force_end"@.len() != "resign"@.len()); }
        assert("admin_force_end"@ != "force_resign"@) by { reveal_strlit("admin_force_end"); reveal_strlit("force_resign"); assert("admin_force_end"@.len() != "force_resign"@.len()); }
        assert("admin_force_end"@ != "timeout"@) by { reveal_strlit("admin_force_end"); reveal_strlit("timeout"); assert("admin_force_end"@.len() != "timeout"@.len()); }
    }
}

/// The seats to rate a finished game with, or nothing when the game moves
/// no rating: its ending is administrative (or it has no moves), or fewer
/// than two seats take part.
pub fn seats_to_rate(session: &GameSession) -> (r: Option<Vec<RatedSeat>>)
    ensures
        r is None <==> (!rated_ending_spec(session.moves@) || subject_seats(session.participants@, session.moves@).len() < 2),
        r matches Some(v) ==> v@.len() == subject_seats(session.participants@, session.moves@).len()
            && forall|i: int| 0 <= i < v@.len() ==> rated_seat_of(#[trigger] v@[i], subject_seats(session.participants@, session.moves@)[i],
                session.moves@),
{
    if !is_rated_ending(session) {
        return None;
    }
    let seats = rated_seats(session);
    if seats.len() < 2 {
        return None;
    }
    Some(seats)
}

/// Twice the points seat `a` earns against seat `b`. Seats that played on
/// rank above seats that resigned; those that played on rank by score,
/// those that resigned by how late they did; the higher gets 2, the lower
/// 0, equal ranks 1 each.
pub open spec fn pair_points_spec(
    a_forfeited: bool,
    a_score: i32,
    a_exit: usize,
    b_forfeited: bool,
    b_score: i32,
    b_exit: usize,
) -> u8 {
    if a_forfeited != b_forfeited {
        if b_forfeited { 2 } else { 0 }
    } else if a_forfeited {
        if a_exit > b_exit {
            2
        } else if a_exit < b_exit {
            0
        } else {
            1
        }
    } else if a_score > b_score {
        2
    } else if a_score < b_score {
        0
    } else {
        1
    }
}

pub fn pair_points(a: &RatedSeat, b: &RatedSeat) -> (r: u8)
    ensures
        r == pair_points_spec(a.forfeited, a.score, a.exit_order, b.forfeited, b.score, b.exit_order),
{
    if a.forfeited != b.forfeited {
        if b.forfeited { 2 } else { 0 }
    } else if a.forfeited {
        if a.exit_order > b.exit_order {
            2
        } else if a.exit_order < b.exit_order {
            0
        } else {
            1
        }
    } else if a.score > b.score {
        2
    } else if a.score < b.score {
        0
    } else {
        1
    }
}

/// The two seats of a pairing share its points: what one earns the other
/// does not.
pub proof fn law_pair_points_sum(a_forfeited: bool, a_score: i32, a_exit: usize, b_forfeited: bool, b_score: i32, b_exit: usize)
    ensures
        pair_points_spec(a_forfeited, a_score, a_exit, b_forfeited, b_score, b_exit)
            + pair_points_spec(b_forfeited, b_score, b_exit, a_forfeited, a_score, a_exit) == 2,
{
}

/// Whether saving a game with status `status` over a stored row whose
/// status is `stored_status` rates it: only when the save turns the game
/// finished, so a finished game re-saved is never rated twice.
pub fn rating_due(status: GameStatus, stored_status: &Option<String>) -> (r: bool)
    ensures
        r == (status == GameStatus::Finished && !(stored_status matches Some(s) && s@ == "finished"@)),
{
    if status != GameStatus::Finished {
        return false;
    }
    match stored_status {
        Some(s) => !str_eq(s.as_str(), "finished"),
        None => true,
    }
}

// ----- stored tallies -----

/// A subject's outcome counters.
#[derive(Debug, Clone, Copy, PartialEq, Eq, Structural)]
pub struct OutcomeTally {
    pub wins: i64,
    pub losses: i64,
    pub ties: i64,
    pub timeouts: i64,
    pub resignations: i64,
}

/// The count of the last row among `rows` named `word`, or 0.
pub open spec fn last_count(rows: Seq<(Seq<char>, i64)>, word: Seq<char>) -> i64
    decreases rows.len(),
{
    if rows.len() == 0 {
        0
    } else if rows.last().0 == word {
        rows.last().1
    } else {
        last_count(rows.drop_last(), word)
    }
}

/// The rows as stored: each outcome name with its count.
pub open spec fn rows_view(rows: Seq<(String, i64)>) -> Seq<(Seq<char>, i64)> {
    rows.map_values(|r: (String, i64)| (r.0@, r.1))
}

/// The counters read from per-outcome count rows; a name seen twice keeps
/// its last count, and unknown names are ignored.
pub fn tally_outcomes(rows: &Vec<(String, i64)>) -> (t: OutcomeTally)
    ensures
        t.wins == last_count(rows_view(rows@), "win"@),
        t.losses == last_count(rows_view(rows@), "loss"@),
        t.ties == last_count(rows_view(rows@), "tie"@),
        t.timeouts == last_count(rows_view(rows@), "timeout"@),
        t.resignations == last_count(rows_view(rows@), "resigned"@),
{
    let mut t = OutcomeTally { wins: 0, losses: 0, ties: 0, timeouts: 0, resignations: 0 };
    let mut i: usize = 0;
    while i < rows.len()
        invariant
            i <= rows@.len(),
            t.wins == last_count(rows_view(rows@.take(i as int)), "win"@),
            t.losses == last_count(rows_view(rows@.take(i as int)), "loss"@),
            t.ties == last_count(rows_view(rows@.take(i as int)), "tie"@),
            t.timeouts == last_count(rows_view(rows@.take(i as int)), "timeout"@),
            t.resignations == last_count(rows_view(rows@.take(i as int)), "resigned"@),
        decreases rows@.len() - i,
    {
        let ghost prev = rows_view(rows@.take(i as int));
        let ghost next = rows_view(rows@.take(i + 1));
        proof {
            reveal_strlit("win");
            reveal_strlit("loss");
            reveal_strlit("tie");
            reveal_strlit("timeout");
            reveal_strlit("resigned");
            assert("win"@.len() == 3 && "tie"@.len() == 3 && "loss"@.len() == 4);
            assert("timeout"@.len() == 7 && "resigned"@.len() == 8);
            assert("win"@[0] != "tie"@[0]);
            assert(next.drop_last() =~= prev);
            assert(next.last() == (rows@[i as int].0@, rows@[i as int].1));
        }
        let word = rows[i].0.as_str();
        let count = rows[i].1;
        if str_eq(word, "win") {
            t.wins = count;
        } else if str_eq(word, "loss") {
            t.losses = count;
        } else if str_eq(word, "tie") {
            t.ties = count;
        } else if str_eq(word, "timeout") {
            t.timeouts = count;
        } else if str_eq(word, "resigned") {
            t.resignations = count;
        }
        i = i + 1;
    }
    assert(rows@.take(rows@.len() as int) =~= rows@);
    t
}

/// A rating-history row for subject (`kind`, `id`) belongs to seat `p`: a
/// player row to the seat of that player, an engine row to the seat bound
/// to that engine.
pub open spec fn rating_row_matches_spec(kind: Seq<char>, id: Seq<char>, player_id: Option<Seq<char>>, engine_id: Option<Seq<char>>) -> bool {
    if kind == "player"@ {
        player_id == Some(id)
    } else if kind == "engine"@ {
        engine_id == Some(id)
    } else {
        false
    }
}

pub fn rating_row_matches(kind: &str, id: &str, player_id: &Option<String>, engine_id: &Option<String>) -> (r: bool)
    ensures
        r == rating_row_matches_spec(kind@, id@, opt_view(*player_id), opt_view(*engine_id)),
{
    if str_eq(kind, "player") {
        match player_id {
            Some(p) => str_eq(p.as_str(), id),
            None => false,
        }
    } else if str_eq(kind, "engine") {
        match engine_id {
            Some(e) => str_eq(e.as_str(), id),
            None => false,
        }
    } else {
        false
    }
}

} // verus!
