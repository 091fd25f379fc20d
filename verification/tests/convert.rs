use server_game::convert::{premium_from_dto, premium_to_dto};
use server_game::dto::{BoardCellDto, DirectionDto, MoveCandidateDto, PositionDto, PremiumDto, TileDto, TilePlacementDto};
use server_game::game_state::{board_from_dto, move_candidate_from_dto, move_candidate_to_dto, tile_from_dto, tile_to_dto};
use server_game::rules::{
    Alphabet, BoardCell, Direction, MoveCandidate, Position, Premium, Tile, TilePlacement, VariantRules,
};

#[test]
fn tiles_cross_as_their_written_letters_and_come_back_the_same() {
    let latin = Alphabet::latin26();
    for tile in [Tile::Letter(0), Tile::Letter(25), Tile::Blank { acting_as: None }, Tile::Blank { acting_as: Some(7) }] {
        let dto = tile_to_dto(tile, &latin);
        assert_eq!(tile_from_dto(dto, &latin), tile);
    }
    match tile_to_dto(Tile::Letter(2), &latin) {
        TileDto::Letter { letter } => assert_eq!(letter, "C"),
        other => panic!("unexpected {other:?}"),
    }
    match tile_to_dto(Tile::Blank { acting_as: Some(25) }, &latin) {
        TileDto::Blank { acting_as } => assert_eq!(acting_as.as_deref(), Some("Z")),
        other => panic!("unexpected {other:?}"),
    }
}

#[test]
fn a_repeated_written_form_reads_as_its_first_letter() {
    let alphabet = Alphabet { graphemes: vec!["A".to_string(), "B".to_string(), "A".to_string()] };
    assert_eq!(tile_from_dto(TileDto::Letter { letter: "A".to_string() }, &alphabet), Tile::Letter(0));
    assert_eq!(tile_from_dto(TileDto::Letter { letter: "B".to_string() }, &alphabet), Tile::Letter(1));
}

#[test]
fn premiums_map_one_to_one() {
    for p in [Premium::Blank, Premium::DoubleLetter, Premium::TripleLetter, Premium::DoubleWord, Premium::TripleWord] {
        assert_eq!(premium_from_dto(premium_to_dto(p)), p);
    }
    assert_eq!(premium_to_dto(Premium::TripleWord), PremiumDto::TripleWord);
    assert_eq!(premium_from_dto(PremiumDto::DoubleLetter), Premium::DoubleLetter);
}

#[test]
fn move_candidates_round_trip() {
    let latin = Alphabet::latin26();
    let candidate = MoveCandidate {
        start: Position { x: 3, y: 9 },
        direction: Direction::Vertical,
        tiles: vec![
            TilePlacement { offset: 0, tile: Tile::Letter(1) },
            TilePlacement { offset: 2, tile: Tile::Blank { acting_as: Some(4) } },
        ],
    };
    let dto = move_candidate_to_dto(&candidate, &latin);
    assert_eq!(dto.start, PositionDto { x: 3, y: 9 });
    assert_eq!(dto.direction, DirectionDto::Vertical);
    assert_eq!(dto.tiles.len(), 2);
    assert_eq!(dto.tiles[1].offset, 2);
    let back = move_candidate_from_dto(dto, &latin);
    assert_eq!(back.start, candidate.start);
    assert_eq!(back.direction, candidate.direction);
    assert_eq!(back.tiles, candidate.tiles);
}

#[test]
fn a_client_move_reads_with_the_games_alphabet() {
    let latin = Alphabet::latin26();
    let dto = MoveCandidateDto {
        start: PositionDto { x: 7, y: 7 },
        direction: DirectionDto::Horizontal,
        tiles: vec![TilePlacementDto { offset: 0, tile: TileDto::Letter { letter: "Q".to_string() } }],
    };
    let candidate = move_candidate_from_dto(dto, &latin);
    assert_eq!(candidate.direction, Direction::Horizontal);
    assert_eq!(candidate.tiles[0].tile, Tile::Letter(16));
}

#[test]
fn a_fresh_board_reads_back_the_same() {
    let mut game = server_game::game_state::GameSession::new(
        "g".to_string(),
        Vec::new(),
        None,
        1,
        VariantRules::official(),
        60,
    );
    game.state.board.cells[0] = BoardCell::Filled { letter: 25, is_blank: true };
    let dto = game.to_dto();
    assert_eq!(dto.board.len(), 225);
    assert_eq!(dto.board[0].letter.as_deref(), Some("Z"));
    assert!(dto.board[0].is_blank);
    assert_eq!(dto.board[0].premium, PremiumDto::Blank);
    assert_eq!(dto.board[112].premium, PremiumDto::DoubleWord);
    let board = board_from_dto(&dto.board, &game.rules.alphabet).expect("225 squares");
    assert_eq!(board.cells, game.state.board.cells);
}

#[test]
fn a_board_of_the_wrong_size_is_refused() {
    let latin = Alphabet::latin26();
    let cells = vec![
        BoardCellDto { premium: PremiumDto::Blank, letter: None, is_blank: false },
        BoardCellDto { premium: PremiumDto::Blank, letter: None, is_blank: false },
        BoardCellDto { premium: PremiumDto::Blank, letter: None, is_blank: false },
    ];
    match board_from_dto(&cells, &latin) {
        Err(e) => assert_eq!(e, "Expected 225 board cells, got 3"),
        Ok(_) => panic!("three squares are not a board"),
    }
}

#[test]
fn the_official_board_has_the_standard_premiums() {
    let rules = VariantRules::official();
    assert_eq!(rules.premiums.len(), 225);
    assert_eq!(rules.premiums[0], Premium::TripleWord);
    assert_eq!(rules.premiums[7], Premium::TripleWord);
    assert_eq!(rules.premiums[3], Premium::DoubleLetter);
    assert_eq!(rules.premiums[16], Premium::DoubleWord);
    assert_eq!(rules.premiums[20], Premium::TripleLetter);
    assert_eq!(rules.premiums[112], Premium::DoubleWord);
    assert_eq!(rules.premiums[224], Premium::TripleWord);
    assert_eq!(rules.premiums.iter().filter(|p| **p == Premium::TripleWord).count(), 8);
    assert_eq!(rules.premiums.iter().filter(|p| **p == Premium::DoubleWord).count(), 17);
    assert_eq!(rules.premiums.iter().filter(|p| **p == Premium::TripleLetter).count(), 12);
    assert_eq!(rules.premiums.iter().filter(|p| **p == Premium::DoubleLetter).count(), 24);
    assert_eq!(rules.tile_distribution.iter().map(|&c| c as u32).sum::<u32>() + rules.blank_tiles as u32, 100);
    assert_eq!(rules.letter_values[16], 10);
    assert_eq!(rules.alphabet.graphemes[0], "A");
    assert_eq!(rules.alphabet.graphemes[25], "Z");
}
