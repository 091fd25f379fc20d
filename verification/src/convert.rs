//! Converting the game's own values to and from the shapes clients see:
//! premiums, tiles, move candidates and the board. Letters cross the
//! boundary as their written form in the game's alphabet.

use vstd::prelude::*;
use crate::dto::{
    BoardCellDto, ChatMessageDto, DirectionDto, GameRelationship, GameStateDto, GameSummaryDto,
    MoveCandidateDto, MoveRecordDto, ParticipantDto, PositionDto, PremiumDto, RackDto, TileDto,
    TilePlacementDto,
};
use crate::game_state::{ChatMessageRecord, GameSession, MoveRecord, ParticipantState};
use crate::rules::{
    Alphabet, BoardCell, BoardState, Direction, Letter, MoveCandidate, Position, Premium, Tile,
    TilePlacement, BOARD_CELLS,
};
use crate::text::{cat, clone_opt, decimal, opt_view, u64_to_decimal};

verus! {

// ----- premiums and directions -----

pub open spec fn premium_dto_spec(p: Premium) -> PremiumDto {
    match p {
        Premium::Blank => PremiumDto::Blank,
        Premium::DoubleLetter => PremiumDto::DoubleLetter,
        Premium::TripleLetter => PremiumDto::TripleLetter,
        Premium::DoubleWord => PremiumDto::DoubleWord,
        Premium::TripleWord => PremiumDto::TripleWord,
    }
}

pub open spec fn premium_spec(p: PremiumDto) -> Premium {
    match p {
        PremiumDto::Blank => Premium::Blank,
        PremiumDto::DoubleLetter => Premium::DoubleLetter,
        PremiumDto::TripleLetter => Premium::TripleLetter,
        PremiumDto::DoubleWord => Premium::DoubleWord,
        PremiumDto::TripleWord => Premium::TripleWord,
    }
}

pub fn premium_to_dto(premium: Premium) -> (r: PremiumDto)
    ensures
        r == premium_dto_spec(premium),
        premium == Premium::Blank ==> r == PremiumDto::Blank,
        premium == Premium::DoubleLetter ==> r == PremiumDto::DoubleLetter,
        premium == Premium::TripleLetter ==> r == PremiumDto::TripleLetter,
        premium == Premium::DoubleWord ==> r == PremiumDto::DoubleWord,
        premium == Premium::TripleWord ==> r == PremiumDto::TripleWord,
{
    match premium {
        Premium::Blank => PremiumDto::Blank,
        Premium::DoubleLetter => PremiumDto::DoubleLetter,
        Premium::TripleLetter => PremiumDto::TripleLetter,
        Premium::DoubleWord => PremiumDto::DoubleWord,
        Premium::TripleWord => PremiumDto::TripleWord,
    }
}

pub fn premium_from_dto(premium: PremiumDto) -> (r: Premium)
    ensures
        r == premium_spec(premium),
        premium == PremiumDto::Blank ==> r == Premium::Blank,
        premium == PremiumDto::DoubleLetter ==> r == Premium::DoubleLetter,
        premium == PremiumDto::TripleLetter ==> r == Premium::TripleLetter,
        premium == PremiumDto::DoubleWord ==> r == Premium::DoubleWord,
        premium == PremiumDto::TripleWord ==> r == Premium::TripleWord,
{
    match premium {
        PremiumDto::Blank => Premium::Blank,
        PremiumDto::DoubleLetter => Premium::DoubleLetter,
        PremiumDto::TripleLetter => Premium::TripleLetter,
        PremiumDto::DoubleWord => Premium::DoubleWord,
        PremiumDto::TripleWord => Premium::TripleWord,
    }
}

/// A premium keeps its name on the way to the client and back: each kind
/// of square maps to the client kind of the same name.
pub proof fn law_premium_keeps_its_name()
    ensures
        premium_dto_spec(Premium::Blank) == PremiumDto::Blank,
        premium_dto_spec(Premium::DoubleLetter) == PremiumDto::DoubleLetter,
        premium_dto_spec(Premium::TripleLetter) == PremiumDto::TripleLetter,
        premium_dto_spec(Premium::DoubleWord) == PremiumDto::DoubleWord,
        premium_dto_spec(Premium::TripleWord) == PremiumDto::TripleWord,
        premium_spec(PremiumDto::Blank) == Premium::Blank,
        premium_spec(PremiumDto::DoubleLetter) == Premium::DoubleLetter,
        premium_spec(PremiumDto::TripleLetter) == Premium::TripleLetter,
        premium_spec(PremiumDto::DoubleWord) == Premium::DoubleWord,
        premium_spec(PremiumDto::TripleWord) == Premium::TripleWord,
{
}

/// A premium survives the trip to its client shape and back, and so does
/// a client premium the other way round.
pub proof fn law_premium_roundtrip(p: Premium, d: PremiumDto)
    ensures
        premium_spec(premium_dto_spec(p)) == p,
        premium_dto_spec(premium_spec(d)) == d,
{
}

pub open spec fn direction_dto_spec(d: Direction) -> DirectionDto {
    match d {
        Direction::Horizontal => DirectionDto::Horizontal,
        Direction::Vertical => DirectionDto::Vertical,
    }
}

pub open spec fn direction_spec(d: DirectionDto) -> Direction {
    match d {
        DirectionDto::Horizontal => Direction::Horizontal,
        DirectionDto::Vertical => Direction::Vertical,
    }
}

// ----- letters -----

/// The written form of each letter of the alphabet.
pub open spec fn letters_of(a: Alphabet) -> Seq<Seq<char>> {
    a.graphemes@.map_values(|g: String| g@)
}

/// `s` is the written form of some letter.
pub open spec fn spells(gs: Seq<Seq<char>>, s: Seq<char>) -> bool {
    exists|j: int| 0 <= j < gs.len() && #[trigger] gs[j] == s
}

/// `x` is the first letter written `s`.
pub open spec fn first_letter(gs: Seq<Seq<char>>, s: Seq<char>, x: int) -> bool {
    &&& 0 <= x < gs.len()
    &&& gs[x] == s
    &&& forall|j: int| 0 <= j < x ==> #[trigger] gs[j] != s
}

/// No two letters are written the same way.
pub open spec fn distinct(gs: Seq<Seq<char>>) -> bool {
    forall|i: int, j: int| 0 <= i < j < gs.len() ==> #[trigger] gs[i] != #[trigger] gs[j]
}

/// In an alphabet without repeated forms, the first letter written as
/// letter `l` is `l` itself.
pub proof fn lemma_first_letter_unique(gs: Seq<Seq<char>>, l: int, x: int)
    requires
        distinct(gs),
        0 <= l < gs.len(),
        first_letter(gs, gs[l], x),
    ensures
        x == l,
{
    if x < l {
        assert(gs[x] != gs[l]);
    } else if x > l {
        assert(gs[l] != gs[l]);
    }
}

/// The written form of `letter`.
fn to_dto_letter(letter: Letter, alphabet: &Alphabet) -> (r: String)
    requires
        (letter as int) < alphabet.graphemes@.len(),
    ensures
        r@ == letters_of(*alphabet)[letter as int],
{
    match alphabet.to_grapheme(letter) {
        Some(g) => g,
        None => {
            proof {
                assert(false);
            }
            String::new()
        },
    }
}

/// The first letter written as `s`.
fn to_rules_letter(s: &str, alphabet: &Alphabet) -> (r: Letter)
    requires
        spells(letters_of(*alphabet), s@),
        alphabet.graphemes@.len() <= 256,
    ensures
        first_letter(letters_of(*alphabet), s@, r as int),
{
    let ghost gs = letters_of(*alphabet);
    match alphabet.to_letter(s) {
        Some(l) => l,
        None => {
            proof {
                let j = choose|j: int| 0 <= j < gs.len() && #[trigger] gs[j] == s@;
                assert(alphabet.graphemes@[j]@ != s@);
                assert(false);
            }
            0
        },
    }
}

// ----- tiles -----

/// Every letter `t` names lies inside an alphabet of `n` letters.
pub open spec fn tile_named(t: Tile, n: int) -> bool {
    match t {
        Tile::Letter(l) => (l as int) < n,
        Tile::Blank { acting_as } => match acting_as {
            Some(l) => (l as int) < n,
            None => true,
        },
    }
}

/// `d` is how a client sees tile `t`.
pub open spec fn tile_dto_of(d: TileDto, t: Tile, gs: Seq<Seq<char>>) -> bool {
    match t {
        Tile::Letter(l) => d matches TileDto::Letter { letter } && letter@ == gs[l as int],
        Tile::Blank { acting_as } => d matches TileDto::Blank { acting_as: a } && match acting_as {
            Some(l) => a matches Some(s) && s@ == gs[l as int],
            None => a is None,
        },
    }
}

/// Every letter written in `d` belongs to the alphabet.
pub open spec fn tile_dto_named(d: TileDto, gs: Seq<Seq<char>>) -> bool {
    match d {
        TileDto::Letter { letter } => spells(gs, letter@),
        TileDto::Blank { acting_as } => match acting_as {
            Some(s) => spells(gs, s@),
            None => true,
        },
    }
}

/// `t` is the tile read from `d`, each written letter taken as the first
/// letter written that way.
pub open spec fn tile_read(d: TileDto, t: Tile, gs: Seq<Seq<char>>) -> bool {
    match d {
        TileDto::Letter { letter } => t matches Tile::Letter(l) && first_letter(gs, letter@, l as int),
        TileDto::Blank { acting_as } => t matches Tile::Blank { acting_as: a } && match acting_as {
            Some(s) => a matches Some(l) && first_letter(gs, s@, l as int),
            None => a is None,
        },
    }
}

fn tile_to_dto_ref(tile: Tile, alphabet: &Alphabet) -> (r: TileDto)
    requires
        tile_named(tile, alphabet.graphemes@.len() as int),
    ensures
        tile_dto_of(r, tile, letters_of(*alphabet)),
{
    match tile {
        Tile::Letter(letter) => TileDto::Letter { letter: to_dto_letter(letter, alphabet) },
        Tile::Blank { acting_as } => TileDto::Blank {
            acting_as: match acting_as {
                Some(l) => Some(to_dto_letter(l, alphabet)),
                None => None,
            },
        },
    }
}

/// How a client sees `tile`.
pub fn tile_to_dto(tile: Tile, alphabet: &Alphabet) -> (r: TileDto)
    requires
        tile_named(tile, alphabet.graphemes@.len() as int),
    ensures
        tile_dto_of(r, tile, letters_of(*alphabet)),
{
    tile_to_dto_ref(tile, alphabet)
}

fn tile_from_dto_ref(tile: &TileDto, alphabet: &Alphabet) -> (r: Tile)
    requires
        tile_dto_named(*tile, letters_of(*alphabet)),
        alphabet.graphemes@.len() <= 256,
    ensures
        tile_read(*tile, r, letters_of(*alphabet)),
{
    match tile {
        TileDto::Letter { letter } => Tile::Letter(to_rules_letter(letter.as_str(), alphabet)),
        TileDto::Blank { acting_as } => Tile::Blank {
            acting_as: match acting_as {
                Some(s) => Some(to_rules_letter(s.as_str(), alphabet)),
                None => None,
            },
        },
    }
}

/// The tile a client's `tile` stands for.
pub fn tile_from_dto(tile: TileDto, alphabet: &Alphabet) -> (r: Tile)
    requires
        tile_dto_named(tile, letters_of(*alphabet)),
        alphabet.graphemes@.len() <= 256,
    ensures
        tile_read(tile, r, letters_of(*alphabet)),
{
    tile_from_dto_ref(&tile, alphabet)
}

/// In an alphabet without repeated forms, a tile sent to a client and read
/// back is the same tile.
pub proof fn law_tile_roundtrip(t: Tile, d: TileDto, back: Tile, gs: Seq<Seq<char>>)
    requires
        distinct(gs),
        tile_named(t, gs.len() as int),
        tile_dto_of(d, t, gs),
        tile_read(d, back, gs),
    ensures
        back == t,
{
    match t {
        Tile::Letter(l) => {
            if let Tile::Letter(x) = back {
                lemma_first_letter_unique(gs, l as int, x as int);
            }
        },
        Tile::Blank { acting_as } => {
            if let (Some(l), Tile::Blank { acting_as: Some(x) }) = (acting_as, back) {
                lemma_first_letter_unique(gs, l as int, x as int);
            }
        },
    }
}

// ----- move candidates -----

/// Every tile of a move names letters of an alphabet of `n` letters.
pub open spec fn candidate_named(ts: Seq<TilePlacement>, n: int) -> bool {
    forall|i: int| 0 <= i < ts.len() ==> tile_named(#[trigger] ts[i].tile, n)
}

/// Every tile of a client's move names letters of the alphabet.
pub open spec fn candidate_dto_named(ts: Seq<TilePlacementDto>, gs: Seq<Seq<char>>) -> bool {
    forall|i: int| 0 <= i < ts.len() ==> tile_dto_named(#[trigger] ts[i].tile, gs)
}

/// How a client sees a proposed move.
pub fn move_candidate_to_dto(candidate: &MoveCandidate, alphabet: &Alphabet) -> (r: MoveCandidateDto)
    requires
        candidate_named(candidate.tiles@, alphabet.graphemes@.len() as int),
    ensures
        r.start == (PositionDto { x: candidate.start.x, y: candidate.start.y }),
        r.direction == direction_dto_spec(candidate.direction),
        r.tiles@.len() == candidate.tiles@.len(),
        forall|i: int| 0 <= i < r.tiles@.len() ==> (#[trigger] r.tiles@[i]).offset == candidate.tiles@[i].offset
            && tile_dto_of(r.tiles@[i].tile, candidate.tiles@[i].tile, letters_of(*alphabet)),
{
    let mut tiles: Vec<TilePlacementDto> = Vec::new();
    let mut i: usize = 0;
    while i < candidate.tiles.len()
        invariant
            i <= candidate.tiles@.len(),
            candidate_named(candidate.tiles@, alphabet.graphemes@.len() as int),
            tiles@.len() == i,
            forall|j: int| 0 <= j < i ==> (#[trigger] tiles@[j]).offset == candidate.tiles@[j].offset
                && tile_dto_of(tiles@[j].tile, candidate.tiles@[j].tile, letters_of(*alphabet)),
        decreases candidate.tiles@.len() - i,
    {
        let p = candidate.tiles[i];
        assert(tile_named(candidate.tiles@[i as int].tile, alphabet.graphemes@.len() as int));
        tiles.push(TilePlacementDto { offset: p.offset, tile: tile_to_dto_ref(p.tile, alphabet) });
        i = i + 1;
    }
    MoveCandidateDto {
        start: PositionDto { x: candidate.start.x, y: candidate.start.y },
        direction: match candidate.direction {
            Direction::Horizontal => DirectionDto::Horizontal,
            Direction::Vertical => DirectionDto::Vertical,
        },
        tiles,
    }
}

/// The move a client proposes.
pub fn move_candidate_from_dto(candidate: MoveCandidateDto, alphabet: &Alphabet) -> (r: MoveCandidate)
    requires
        candidate_dto_named(candidate.tiles@, letters_of(*alphabet)),
        alphabet.graphemes@.len() <= 256,
    ensures
        r.start == (Position { x: candidate.start.x, y: candidate.start.y }),
        r.direction == direction_spec(candidate.direction),
        r.tiles@.len() == candidate.tiles@.len(),
        forall|i: int| 0 <= i < r.tiles@.len() ==> (#[trigger] r.tiles@[i]).offset == candidate.tiles@[i].offset
            && tile_read(candidate.tiles@[i].tile, r.tiles@[i].tile, letters_of(*alphabet)),
{
    let mut tiles: Vec<TilePlacement> = Vec::new();
    let mut i: usize = 0;
    while i < candidate.tiles.len()
        invariant
            i <= candidate.tiles@.len(),
            alphabet.graphemes@.len() <= 256,
            candidate_dto_named(candidate.tiles@, letters_of(*alphabet)),
            tiles@.len() == i,
            forall|j: int| 0 <= j < i ==> (#[trigger] tiles@[j]).offset == candidate.tiles@[j].offset
                && tile_read(candidate.tiles@[j].tile, tiles@[j].tile, letters_of(*alphabet)),
        decreases candidate.tiles@.len() - i,
    {
        let p = &candidate.tiles[i];
        assert(tile_dto_named(candidate.tiles@[i as int].tile, letters_of(*alphabet)));
        tiles.push(TilePlacement { offset: p.offset, tile: tile_from_dto_ref(&p.tile, alphabet) });
        i = i + 1;
    }
    MoveCandidate {
        start: Position { x: candidate.start.x, y: candidate.start.y },
        direction: match candidate.direction {
            DirectionDto::Horizontal => Direction::Horizontal,
            DirectionDto::Vertical => Direction::Vertical,
        },
        tiles,
    }
}

// ----- the board -----

/// Every filled square of `c` names a letter of an alphabet of `n` letters.
pub open spec fn cell_named(c: BoardCell, n: int) -> bool {
    match c {
        BoardCell::Filled { letter, .. } => (letter as int) < n,
        BoardCell::Empty { .. } => true,
    }
}

/// Every filled square names a letter of an alphabet of `n` letters.
pub open spec fn board_named(cells: Seq<BoardCell>, n: int) -> bool {
    forall|i: int| 0 <= i < cells.len() ==> cell_named(#[trigger] cells[i], n)
}

/// `d` is how a client sees square `c`: an empty square shows its premium,
/// a filled one its letter (and no premium).
pub open spec fn cell_dto_of(d: BoardCellDto, c: BoardCell, gs: Seq<Seq<char>>) -> bool {
    match c {
        BoardCell::Empty { premium } => d.premium == premium_dto_spec(premium) && d.letter is None && !d.is_blank,
        BoardCell::Filled { letter, is_blank } => {
            &&& d.premium == PremiumDto::Blank
            &&& d.letter matches Some(s) && s@ == gs[letter as int]
            &&& d.is_blank == is_blank
        },
    }
}

/// The letter written on a client square, if any, belongs to the alphabet.
pub open spec fn cell_dto_named(d: BoardCellDto, gs: Seq<Seq<char>>) -> bool {
    d.letter matches Some(s) ==> spells(gs, s@)
}

/// `c` is the square read from client square `d`.
pub open spec fn cell_read(d: BoardCellDto, c: BoardCell, gs: Seq<Seq<char>>) -> bool {
    match d.letter {
        Some(s) => c matches BoardCell::Filled { letter, is_blank } && first_letter(gs, s@, letter as int)
            && is_blank == d.is_blank,
        None => c == BoardCell::Empty { premium: premium_spec(d.premium) },
    }
}

fn cell_to_dto(cell: BoardCell, alphabet: &Alphabet) -> (r: BoardCellDto)
    requires
        cell_named(cell, alphabet.graphemes@.len() as int),
    ensures
        cell_dto_of(r, cell, letters_of(*alphabet)),
{
    match cell {
        BoardCell::Empty { premium } => BoardCellDto {
            premium: premium_to_dto(premium),
            letter: None,
            is_blank: false,
        },
        BoardCell::Filled { letter, is_blank } => BoardCellDto {
            premium: PremiumDto::Blank,
            letter: Some(to_dto_letter(letter, alphabet)),
            is_blank,
        },
    }
}

/// How a client sees the board, square by square.
pub fn board_to_dto(board: &BoardState, alphabet: &Alphabet) -> (r: Vec<BoardCellDto>)
    requires
        board_named(board.cells@, alphabet.graphemes@.len() as int),
    ensures
        r@.len() == board.cells@.len(),
        forall|i: int| 0 <= i < r@.len() ==> cell_dto_of(#[trigger] r@[i], board.cells@[i], letters_of(*alphabet)),
{
    let mut out: Vec<BoardCellDto> = Vec::new();
    let mut i: usize = 0;
    while i < board.cells.len()
        invariant
            i <= board.cells@.len(),
            board_named(board.cells@, alphabet.graphemes@.len() as int),
            out@.len() == i,
            forall|j: int| 0 <= j < i ==> cell_dto_of(#[trigger] out@[j], board.cells@[j], letters_of(*alphabet)),
        decreases board.cells@.len() - i,
    {
        assert(cell_named(board.cells@[i as int], alphabet.graphemes@.len() as int));
        out.push(cell_to_dto(board.cells[i], alphabet));
        i = i + 1;
    }
    out
}

/// The board a client's squares describe, in row-major order. Any count
/// of squares but the board's is refused.
pub fn board_from_dto(cells: &[BoardCellDto], alphabet: &Alphabet) -> (r: Result<BoardState, String>)
    requires
        alphabet.graphemes@.len() <= 256,
        cells@.len() == BOARD_CELLS ==> forall|i: int| 0 <= i < cells@.len() ==> cell_dto_named(#[trigger] cells@[i], letters_of(*alphabet)),
    ensures
        cells@.len() != BOARD_CELLS ==> (r matches Err(e) && e@ == "Expected 225 board cells, got "@ + decimal(cells@.len())),
        cells@.len() == BOARD_CELLS ==> (r matches Ok(b) && b.cells@.len() == BOARD_CELLS
            && forall|i: int| 0 <= i < BOARD_CELLS ==> cell_read(#[trigger] cells@[i], b.cells@[i], letters_of(*alphabet))),
{
    if cells.len() != BOARD_CELLS {
        return Err(cat("Expected 225 board cells, got ", &u64_to_decimal(cells.len() as u64)));
    }
    let mut out: Vec<BoardCell> = Vec::new();
    let mut i: usize = 0;
    while i < cells.len()
        invariant
            i <= cells@.len() == BOARD_CELLS,
            alphabet.graphemes@.len() <= 256,
            forall|j: int| 0 <= j < cells@.len() ==> cell_dto_named(#[trigger] cells@[j], letters_of(*alphabet)),
            out@.len() == i,
            forall|j: int| 0 <= j < i ==> cell_read(#[trigger] cells@[j], out@[j], letters_of(*alphabet)),
        decreases cells@.len() - i,
    {
        let d = &cells[i];
        assert(cell_dto_named(cells@[i as int], letters_of(*alphabet)));
        let c = match &d.letter {
            Some(s) => BoardCell::Filled { letter: to_rules_letter(s.as_str(), alphabet), is_blank: d.is_blank },
            None => BoardCell::Empty { premium: premium_from_dto(d.premium) },
        };
        out.push(c);
        i = i + 1;
    }
    Ok(BoardState { cells: out })
}

/// In an alphabet without repeated forms, a board sent to a client and
/// read back is the same board.
pub proof fn law_board_roundtrip(board: Seq<BoardCell>, sent: Seq<BoardCellDto>, back: Seq<BoardCell>, gs: Seq<Seq<char>>)
    requires
        distinct(gs),
        board_named(board, gs.len() as int),
        sent.len() == board.len(),
        back.len() == board.len(),
        forall|i: int| 0 <= i < board.len() ==> cell_dto_of(#[trigger] sent[i], board[i], gs),
        forall|i: int| 0 <= i < board.len() ==> cell_read(#[trigger] sent[i], back[i], gs),
    ensures
        back == board,
{
    assert forall|i: int| 0 <= i < board.len() implies #[trigger] back[i] == board[i] by {
        assert(cell_named(board[i], gs.len() as int));
        assert(cell_dto_of(sent[i], board[i], gs));
        assert(cell_read(sent[i], back[i], gs));
        match board[i] {
            BoardCell::Filled { letter, is_blank } => {
                if let BoardCell::Filled { letter: x, .. } = back[i] {
                    lemma_first_letter_unique(gs, letter as int, x as int);
                }
            },
            BoardCell::Empty { premium } => {},
        }
    }
    assert(back =~= board);
}

// ----- whole games -----

/// `d` is how a client sees seat `p`; the invitation status is left unset.
pub open spec fn participant_dto_of(d: ParticipantDto, p: ParticipantState) -> bool {
    &&& d.seat_number == p.seat_number
    &&& d.kind == p.kind
    &&& d.display_name@ == p.display_name@
    &&& opt_view(d.player_id) == opt_view(p.player_id)
    &&& opt_view(d.engine_id) == opt_view(p.engine_id)
    &&& d.score == p.score
    &&& d.invitation_status is None
    &&& opt_view(d.invited_email) == opt_view(p.invited_email)
    &&& d.resigned == p.resigned
}

/// `d` is how a client sees move record `m`.
pub open spec fn move_dto_of(d: MoveRecordDto, m: MoveRecord) -> bool {
    &&& d.move_number == m.move_number
    &&& d.seat_number == m.seat_number
    &&& d.move_type@ == m.move_type@
    &&& opt_view(d.main_word) == opt_view(m.main_word)
    &&& d.score_delta == m.score_delta
    &&& d.positions@ == m.positions@
    &&& d.description@ == m.description@
}

/// `d` is how a client sees chat message `m`.
pub open spec fn message_dto_of(d: ChatMessageDto, m: ChatMessageRecord) -> bool {
    &&& d.id@ == m.id@
    &&& d.player_id@ == m.player_id@
    &&& d.display_name@ == m.display_name@
    &&& d.body@ == m.body@
    &&& d.created_at@ == m.created_at@
}

/// The seats as a client sees them, in order.
pub open spec fn participants_dto_of(ds: Seq<ParticipantDto>, ps: Seq<ParticipantState>) -> bool {
    &&& ds.len() == ps.len()
    &&& forall|i: int| 0 <= i < ps.len() ==> participant_dto_of(#[trigger] ds[i], ps[i])
}

/// `d` is the full state of game `g` as a client sees it, before any
/// redaction.
pub open spec fn state_dto_of(d: GameStateDto, g: GameSession) -> bool {
    let gs = letters_of(g.rules.alphabet);
    &&& d.id@ == g.id@
    &&& d.status == g.status
    &&& opt_view(d.creator_player_id) == opt_view(g.creator_player_id)
    &&& d.variant@ == g.variant@
    &&& d.language@ == g.language@
    &&& d.board_layout@ == g.board_layout@
    &&& d.turn_number == g.turn_number
    &&& d.current_seat == g.current_seat
    &&& d.winner_seat == g.winner_seat
    &&& d.final_bonus_seat == g.final_bonus_seat
    &&& d.final_bonus_points == g.final_bonus_points
    &&& d.bag_count == g.bag@.len()
    &&& d.move_time_limit_seconds == g.move_time_limit_seconds
    &&& d.turn_started_at@ == g.turn_started_at@
    &&& participants_dto_of(d.participants@, g.participants@)
    &&& d.board@.len() == g.state.board.cells@.len()
    &&& forall|i: int| 0 <= i < d.board@.len() ==> cell_dto_of(#[trigger] d.board@[i], g.state.board.cells@[i], gs)
    &&& d.racks@.len() == g.participants@.len()
    &&& forall|i: int| 0 <= i < d.racks@.len() ==> (#[trigger] d.racks@[i]).counts@ == g.participants@[i].rack.counts@
        && d.racks@[i].blanks == g.participants@[i].rack.blanks
    &&& d.moves@.len() == g.moves@.len()
    &&& forall|i: int| 0 <= i < d.moves@.len() ==> move_dto_of(#[trigger] d.moves@[i], g.moves@[i])
    &&& d.messages@.len() == g.messages@.len()
    &&& forall|i: int| 0 <= i < d.messages@.len() ==> message_dto_of(#[trigger] d.messages@[i], g.messages@[i])
}

/// `d` is the list-view summary of game `g`, with `last_activity_at` as
/// given and the caller-relative fields at their defaults.
pub open spec fn summary_dto_of(d: GameSummaryDto, g: GameSession, last_activity_at: Seq<char>) -> bool {
    &&& d.id@ == g.id@
    &&& d.status == g.status
    &&& d.variant@ == g.variant@
    &&& d.current_seat == g.current_seat
    &&& participants_dto_of(d.participants@, g.participants@)
    &&& d.last_activity_at@ == last_activity_at
    &&& d.move_time_limit_seconds == g.move_time_limit_seconds
    &&& d.turn_started_at@ == g.turn_started_at@
    &&& opt_view(d.last_message_at) == if g.messages@.len() == 0 {
        None
    } else {
        Some(g.messages@.last().created_at@)
    }
    &&& d.relationship == GameRelationship::Participant
    &&& d.invitation_id is None
}

fn participant_to_dto(p: &ParticipantState) -> (r: ParticipantDto)
    ensures
        participant_dto_of(r, *p),
{
    ParticipantDto {
        seat_number: p.seat_number,
        kind: p.kind,
        display_name: p.display_name.clone(),
        player_id: clone_opt(&p.player_id),
        engine_id: clone_opt(&p.engine_id),
        score: p.score,
        invitation_status: None,
        invited_email: clone_opt(&p.invited_email),
        resigned: p.resigned,
    }
}

fn participants_to_dto(ps: &Vec<ParticipantState>) -> (r: Vec<ParticipantDto>)
    ensures
        participants_dto_of(r@, ps@),
{
    let mut out: Vec<ParticipantDto> = Vec::new();
    let mut i: usize = 0;
    while i < ps.len()
        invariant
            i <= ps@.len(),
            out@.len() == i,
            forall|j: int| 0 <= j < i ==> participant_dto_of(#[trigger] out@[j], ps@[j]),
        decreases ps@.len() - i,
    {
        out.push(participant_to_dto(&ps[i]));
        i = i + 1;
    }
    out
}

impl GameSession {
    /// The full state of the game as a client sees it, before any
    /// redaction: every rack and every chat message included.
    pub fn to_dto(&self) -> (d: GameStateDto)
        requires
            board_named(self.state.board.cells@, self.rules.alphabet.graphemes@.len() as int),
        ensures
            state_dto_of(d, *self),
    {
        let mut racks: Vec<RackDto> = Vec::new();
        let mut i: usize = 0;
        while i < self.participants.len()
            invariant
                i <= self.participants@.len(),
                racks@.len() == i,
                forall|j: int| 0 <= j < i ==> (#[trigger] racks@[j]).counts@ == self.participants@[j].rack.counts@
                    && racks@[j].blanks == self.participants@[j].rack.blanks,
            decreases self.participants@.len() - i,
        {
            let counts = self.participants[i].rack.counts.clone();
            assert(counts@ =~= self.participants@[i as int].rack.counts@);
            racks.push(RackDto { counts, blanks: self.participants[i].rack.blanks });
            i = i + 1;
        }
        let mut moves: Vec<MoveRecordDto> = Vec::new();
        let mut i: usize = 0;
        while i < self.moves.len()
            invariant
                i <= self.moves@.len(),
                moves@.len() == i,
                forall|j: int| 0 <= j < i ==> move_dto_of(#[trigger] moves@[j], self.moves@[j]),
            decreases self.moves@.len() - i,
        {
            let m = &self.moves[i];
            let positions = m.positions.clone();
            assert(positions@ =~= m.positions@);
            moves.push(MoveRecordDto {
                move_number: m.move_number,
                seat_number: m.seat_number,
                move_type: m.move_type.clone(),
                main_word: clone_opt(&m.main_word),
                score_delta: m.score_delta,
                positions,
                description: m.description.clone(),
            });
            i = i + 1;
        }
        let mut messages: Vec<ChatMessageDto> = Vec::new();
        let mut i: usize = 0;
        while i < self.messages.len()
            invariant
                i <= self.messages@.len(),
                messages@.len() == i,
                forall|j: int| 0 <= j < i ==> message_dto_of(#[trigger] messages@[j], self.messages@[j]),
            decreases self.messages@.len() - i,
        {
            let m = &self.messages[i];
            messages.push(ChatMessageDto {
                id: m.id.clone(),
                player_id: m.player_id.clone(),
                display_name: m.display_name.clone(),
                body: m.body.clone(),
                created_at: m.created_at.clone(),
            });
            i = i + 1;
        }
        GameStateDto {
            id: self.id.clone(),
            status: self.status,
            creator_player_id: clone_opt(&self.creator_player_id),
            variant: self.variant.clone(),
            language: self.language.clone(),
            board_layout: self.board_layout.clone(),
            turn_number: self.turn_number,
            current_seat: self.current_seat,
            winner_seat: self.winner_seat,
            final_bonus_seat: self.final_bonus_seat,
            final_bonus_points: self.final_bonus_points,
            bag_count: self.bag.len(),
            move_time_limit_seconds: self.move_time_limit_seconds,
            turn_started_at: self.turn_started_at.clone(),
            participants: participants_to_dto(&self.participants),
            board: board_to_dto(&self.state.board, &self.rules.alphabet),
            racks,
            moves,
            messages,
        }
    }

    /// A lightweight summary for list views; `last_activity_at` comes from
    /// the caller, who keeps the move timestamps.
    pub fn to_summary_dto(&self, last_activity_at: String) -> (d: GameSummaryDto)
        ensures
            summary_dto_of(d, *self, last_activity_at@),
    {
        let last_message_at = if self.messages.len() == 0 {
            None
        } else {
            Some(self.messages[self.messages.len() - 1].created_at.clone())
        };
        GameSummaryDto {
            id: self.id.clone(),
            status: self.status,
            variant: self.variant.clone(),
            current_seat: self.current_seat,
            participants: participants_to_dto(&self.participants),
            last_activity_at,
            move_time_limit_seconds: self.move_time_limit_seconds,
            turn_started_at: self.turn_started_at.clone(),
            last_message_at,
            relationship: GameRelationship::Participant,
            invitation_id: None,
        }
    }
}

/// Whether every filled square names a letter of the alphabet, which
/// `to_dto` needs.
pub fn board_is_named(board: &BoardState, alphabet: &Alphabet) -> (r: bool)
    ensures
        r == board_named(board.cells@, alphabet.graphemes@.len() as int),
{
    let n = alphabet.graphemes.len();
    let mut i: usize = 0;
    while i < board.cells.len()
        invariant
            i <= board.cells@.len(),
            n == alphabet.graphemes@.len(),
            forall|j: int| 0 <= j < i ==> cell_named(#[trigger] board.cells@[j], n as int),
        decreases board.cells@.len() - i,
    {
        match board.cells[i] {
            BoardCell::Filled { letter, .. } => {
                if letter as usize >= n {
                    return false;
                }
            },
            BoardCell::Empty { .. } => {},
        }
        i = i + 1;
    }
    true
}

fn spells_check(s: &str, alphabet: &Alphabet) -> (r: bool)
    requires
        alphabet.graphemes@.len() <= 256,
    ensures
        r == spells(letters_of(*alphabet), s@),
{
    match alphabet.to_letter(s) {
        Some(l) => {
            proof {
                assert(letters_of(*alphabet)[l as int] == s@);
            }
            true
        },
        None => {
            proof {
                assert forall|j: int| 0 <= j < letters_of(*alphabet).len() implies #[trigger] letters_of(*alphabet)[j] != s@ by {
                    assert(alphabet.graphemes@[j]@ != s@);
                }
            }
            false
        },
    }
}

/// Whether every letter written on a client's tile belongs to the
/// alphabet, which `tile_from_dto` needs.
pub fn tile_dto_named_check(tile: &TileDto, alphabet: &Alphabet) -> (r: bool)
    requires
        alphabet.graphemes@.len() <= 256,
    ensures
        r == tile_dto_named(*tile, letters_of(*alphabet)),
{
    match tile {
        TileDto::Letter { letter } => spells_check(letter.as_str(), alphabet),
        TileDto::Blank { acting_as } => match acting_as {
            Some(s) => spells_check(s.as_str(), alphabet),
            None => true,
        },
    }
}

/// Whether every written letter of a client's squares belongs to the
/// alphabet, which `board_from_dto` needs of a full board.
pub fn cells_are_named(cells: &[BoardCellDto], alphabet: &Alphabet) -> (r: bool)
    requires
        alphabet.graphemes@.len() <= 256,
    ensures
        r == forall|i: int| 0 <= i < cells@.len() ==> cell_dto_named(#[trigger] cells@[i], letters_of(*alphabet)),
{
    let mut i: usize = 0;
    while i < cells.len()
        invariant
            i <= cells@.len(),
            alphabet.graphemes@.len() <= 256,
            forall|j: int| 0 <= j < i ==> cell_dto_named(#[trigger] cells@[j], letters_of(*alphabet)),
        decreases cells@.len() - i,
    {
        match &cells[i].letter {
            Some(s) => {
                if !spells_check(s.as_str(), alphabet) {
                    return false;
                }
            },
            None => {},
        }
        i = i + 1;
    }
    true
}

} // verus!
