//! The shapes the server hands to clients: game state, summaries, events.

use vstd::prelude::*;

verus! {

#[derive(Clone, Copy, Debug, PartialEq, Eq, Structural)]
pub enum GameStatus {
    Waiting,
    Active,
    Finished,
}

#[derive(Clone, Copy, Debug, PartialEq, Eq, Structural)]
pub enum SeatKind {
    Human,
    Engine,
}

/// Where an unclaimed human seat's invitation stands.
#[derive(Clone, Copy, Debug, PartialEq, Eq, Structural)]
pub enum SeatInvitationStatus {
    Pending,
    Rejected,
    NotSent,
}

/// Where one invitation stands.
#[derive(Clone, Copy, Debug, PartialEq, Eq, Structural)]
pub enum InvitationStatus {
    Pending,
    Accepted,
    Rejected,
    Cancelled,
}

/// Why a game shows up in a player's list.
#[derive(Clone, Copy, Debug, PartialEq, Eq, Structural)]
pub enum GameRelationship {
    Participant,
    Creator,
    Invited,
}

#[derive(Clone, Copy, Debug, PartialEq, Eq, Structural)]
pub enum PremiumDto {
    Blank,
    DoubleLetter,
    TripleLetter,
    DoubleWord,
    TripleWord,
}

#[derive(Clone, Copy, Debug, PartialEq, Eq, Structural)]
pub struct PositionDto {
    pub x: u8,
    pub y: u8,
}

#[derive(Clone, Copy, Debug, PartialEq, Eq, Structural)]
pub enum DirectionDto {
    Horizontal,
    Vertical,
}

#[derive(Debug)]
pub enum TileDto {
    Letter { letter: String },
    Blank { acting_as: Option<String> },
}

#[derive(Debug)]
pub struct TilePlacementDto {
    pub offset: u8,
    pub tile: TileDto,
}

#[derive(Debug)]
pub struct MoveCandidateDto {
    pub start: PositionDto,
    pub direction: DirectionDto,
    pub tiles: Vec<TilePlacementDto>,
}

#[derive(Debug)]
pub struct BoardCellDto {
    pub premium: PremiumDto,
    pub letter: Option<String>,
    pub is_blank: bool,
}

#[derive(Debug)]
pub struct RackDto {
    pub counts: Vec<u8>,
    pub blanks: u8,
}

#[derive(Debug)]
pub struct ParticipantDto {
    pub seat_number: u8,
    pub kind: SeatKind,
    pub display_name: String,
    pub player_id: Option<String>,
    pub engine_id: Option<String>,
    pub score: i32,
    pub invitation_status: Option<SeatInvitationStatus>,
    pub invited_email: Option<String>,
    pub resigned: bool,
}

#[derive(Debug)]
pub struct MoveRecordDto {
    pub move_number: i64,
    pub seat_number: u8,
    pub move_type: String,
    pub main_word: Option<String>,
    pub score_delta: i32,
    pub positions: Vec<PositionDto>,
    pub description: String,
}

#[derive(Debug)]
pub struct ChatMessageDto {
    pub id: String,
    pub player_id: String,
    pub display_name: String,
    pub body: String,
    pub created_at: String,
}

#[derive(Debug)]
pub struct GameStateDto {
    pub id: String,
    pub status: GameStatus,
    pub creator_player_id: Option<String>,
    pub variant: String,
    pub language: String,
    pub board_layout: String,
    pub turn_number: i64,
    pub current_seat: u8,
    pub winner_seat: Option<u8>,
    pub final_bonus_seat: Option<u8>,
    pub final_bonus_points: Option<i32>,
    pub bag_count: usize,
    pub move_time_limit_seconds: u64,
    pub turn_started_at: String,
    pub participants: Vec<ParticipantDto>,
    pub board: Vec<BoardCellDto>,
    pub racks: Vec<RackDto>,
    pub moves: Vec<MoveRecordDto>,
    pub messages: Vec<ChatMessageDto>,
}

#[derive(Debug)]
pub struct GameSummaryDto {
    pub id: String,
    pub status: GameStatus,
    pub variant: String,
    pub current_seat: u8,
    pub participants: Vec<ParticipantDto>,
    pub last_activity_at: String,
    pub move_time_limit_seconds: u64,
    pub turn_started_at: String,
    pub last_message_at: Option<String>,
    pub relationship: GameRelationship,
    pub invitation_id: Option<String>,
}

#[derive(Debug)]
pub enum GameEventDto {
    StateUpdated { game: GameStateDto },
    GameStarted { game: GameStateDto },
    GameFinished { game: GameStateDto },
}

} // verus!
