use cryptid_finder::hex::Hex;
use cryptid_finder::map::TileMap;
use cryptid_finder::model::{Animal, Answer, Clue, ClueKind, PlayerID, StructureColor, StructureKind, Terrain, Tile};
use cryptid_finder::pieces::{are_selected_pieces_valid, assemble, ParsedPiece, Piece, PieceChoice};

#[test]
fn catalog_order_and_restriction() {
    let kinds = ClueKind::all(&[StructureColor::Blue], &[StructureKind::Shack]);
    assert_eq!(kinds.len(), 20);
    assert_eq!(kinds[4], ClueKind::Terrain(Terrain::Mountain));
    assert_eq!(kinds[5], ClueKind::TwoTerrains(Terrain::Desert, Terrain::Forest));
    assert_eq!(kinds[9], ClueKind::TwoTerrains(Terrain::Forest, Terrain::Water));
    assert_eq!(kinds[15], ClueKind::EitherAnimal);
    assert_eq!(kinds[16], ClueKind::Animal(Animal::Bear));
    assert_eq!(kinds[17], ClueKind::Animal(Animal::Cougar));
    assert_eq!(kinds[18], ClueKind::StructureKind(StructureKind::Shack));
    assert_eq!(kinds[19], ClueKind::StructureColor(StructureColor::Blue));
    assert!(!kinds.contains(&ClueKind::StructureKind(StructureKind::Stone)));
    assert!(!kinds.contains(&ClueKind::StructureColor(StructureColor::White)));
    // No pair repeats a terrain or appears twice.
    for (i, a) in kinds.iter().enumerate() {
        if let ClueKind::TwoTerrains(x, y) = a {
            assert_ne!(x, y);
            assert!(!kinds[i + 1..].contains(&ClueKind::TwoTerrains(*y, *x)));
        }
        assert!(!kinds[i + 1..].contains(a));
    }
}

#[test]
fn inverted_catalog_repeats_with_flag() {
    let plain = Clue::all(&[], &[], false);
    let all = Clue::all(&[], &[], true);
    assert_eq!(plain.len(), 18);
    assert_eq!(all.len(), 36);
    for i in 0..18 {
        assert_eq!(all[i], plain[i]);
        assert_eq!(all[18 + i], Clue { kind: plain[i].kind, inverted: true });
    }
    assert_eq!(Clue::from(ClueKind::EitherAnimal), Clue { kind: ClueKind::EitherAnimal, inverted: false });
}

#[test]
fn inversion_flips_every_verdict() {
    let map = TileMap(vec![
        Tile::new(Hex::new(0, 0), Terrain::Swamp, Some(Animal::Cougar), None),
        Tile::new(Hex::new(2, 0), Terrain::Water, None, None),
    ]);
    for kind in ClueKind::all(&[], &[]) {
        for p in [Hex::new(0, 0), Hex::new(1, 0), Hex::new(2, 0), Hex::new(4, -4)] {
            let a = map.clue_applies(Clue { kind, inverted: false }, p);
            let b = map.clue_applies(Clue { kind, inverted: true }, p);
            assert_ne!(a, b);
        }
    }
}

#[test]
fn one_more_answer_never_grows_candidates() {
    let mut map = TileMap(vec![
        Tile::new(Hex::new(0, 0), Terrain::Swamp, Some(Animal::Cougar), None),
        Tile::new(Hex::new(2, 0), Terrain::Water, None, None),
        Tile::new(Hex::new(3, 0), Terrain::Forest, Some(Animal::Bear), None),
    ]);
    let player = PlayerID(7);
    let mut last = map.clues_for_player(player, true).len();
    assert_eq!(last, 36);
    let answers = [Answer::Yes, Answer::No, Answer::Yes];
    for (i, a) in answers.iter().enumerate() {
        map.0[i].answers.insert(player.0, *a);
        let now = map.clues_for_player(player, true).len();
        assert!(now <= last);
        last = now;
    }
}

#[test]
fn hex_distance_values() {
    assert_eq!(Hex::new(0, 0).distance(Hex::new(0, 0)), 0);
    assert_eq!(Hex::new(0, 0).distance(Hex::new(1, -1)), 1);
    assert_eq!(Hex::new(-2, 3).distance(Hex::new(1, 1)), 3);
    assert_eq!(Hex::new(0, 0).distance(Hex::new(2, 2)), 4);
}

#[test]
fn map_lookup() {
    let mut map = TileMap(vec![
        Tile::new(Hex::new(0, 0), Terrain::Swamp, None, None),
        Tile::new(Hex::new(1, 0), Terrain::Water, None, None),
    ]);
    assert_eq!(map.get(Hex::new(1, 0)).map(|t| t.terrain), Some(Terrain::Water));
    assert!(map.get(Hex::new(2, 0)).is_none());
    assert_eq!(map.index_of(Hex::new(1, 0)), Some(1));
    map.get_mut(Hex::new(0, 0)).unwrap().small = true;
    assert!(map.0[0].small);
    assert!(map.get_mut(Hex::new(5, 5)).is_none());
}

#[test]
fn piece_names_and_selection() {
    let all = [Piece::One, Piece::Two, Piece::Three, Piece::Four, Piece::Five, Piece::Six];
    let names: Vec<&str> = all.iter().map(|p| p.name()).collect();
    assert_eq!(names, vec!["1", "2", "3", "4", "5", "6"]);
    let mut choices: Vec<PieceChoice> = all.iter().map(|p| PieceChoice::from(*p)).collect();
    assert!(are_selected_pieces_valid(&choices));
    choices[5].rotated = true;
    assert!(are_selected_pieces_valid(&choices));
    choices[5].piece = Piece::One;
    assert!(!are_selected_pieces_valid(&choices));
    assert!(!are_selected_pieces_valid(&choices[..5]));
}

#[test]
fn piece_rotation_and_translation() {
    let mut piece = ParsedPiece(vec![
        Tile::new(Hex::new(0, 0), Terrain::Desert, None, None),
        Tile::new(Hex::new(5, -2), Terrain::Water, None, None),
    ]);
    piece.rotate();
    assert_eq!(piece.0[0].position, Hex::new(5, 0));
    assert_eq!(piece.0[1].position, Hex::new(0, 2));
    piece.translate(Hex::new(6, -3));
    assert_eq!(piece.0[0].position, Hex::new(11, -3));
    assert_eq!(piece.0[1].position, Hex::new(6, -1));
    assert_eq!(piece.0[1].terrain, Terrain::Water);
}

#[test]
fn clue_wording() {
    let c = Clue { kind: ClueKind::TwoTerrains(Terrain::Desert, Terrain::Forest), inverted: false };
    assert_eq!(c.describe(), "on Desert or Forest");
    let c = Clue { kind: ClueKind::StructureColor(StructureColor::Black), inverted: true };
    assert_eq!(c.describe(), "not within three spaces of Black structure");
    assert_eq!(ClueKind::StructureKind(StructureKind::Shack).describe(), "within two spaces of Abandoned Shack");
    assert_eq!(ClueKind::Terrain(Terrain::Swamp).describe(), "within one space of Swamp");
    assert_eq!(ClueKind::Animal(Animal::Bear).describe(), "within two spaces of Bear");
    assert_eq!(Answer::No.name(), "No");
}

#[test]
fn piece_definition_parsing() {
    let piece = ParsedPiece::parse("DbW \nFcSb\n").unwrap();
    let cells: Vec<(Hex, Terrain, Option<Animal>)> =
        piece.0.iter().map(|t| (t.position, t.terrain, t.animal)).collect();
    assert_eq!(
        cells,
        vec![
            (Hex::new(0, 0), Terrain::Desert, Some(Animal::Bear)),
            (Hex::new(1, 0), Terrain::Water, None),
            (Hex::new(0, 1), Terrain::Forest, Some(Animal::Cougar)),
            (Hex::new(1, 1), Terrain::Swamp, Some(Animal::Bear)),
        ]
    );
    assert!(piece.0.iter().all(|t| t.structure.is_none() && !t.small && t.answers.is_empty()));
}

#[test]
fn piece_definition_line_endings_and_columns() {
    let piece = ParsedPiece::parse("DbM\r\nS").unwrap();
    let cells: Vec<(Hex, Terrain, Option<Animal>)> =
        piece.0.iter().map(|t| (t.position, t.terrain, t.animal)).collect();
    assert_eq!(
        cells,
        vec![
            (Hex::new(0, 0), Terrain::Desert, Some(Animal::Bear)),
            (Hex::new(1, 0), Terrain::Mountain, None),
            (Hex::new(0, 1), Terrain::Swamp, None),
        ]
    );
    let wide = ParsedPiece::parse("D D D \nD D D ").unwrap();
    let places: Vec<Hex> = wide.0.iter().map(|t| t.position).collect();
    assert_eq!(
        places,
        vec![Hex::new(0, 0), Hex::new(1, 0), Hex::new(2, -1), Hex::new(0, 1), Hex::new(1, 1), Hex::new(2, 0)]
    );
    assert!(ParsedPiece::parse("").unwrap().0.is_empty());
}

#[test]
fn piece_definition_bad_terrain() {
    assert_eq!(ParsedPiece::parse("DbXc").err(), Some(b'X'));
    assert_eq!(ParsedPiece::parse("Db\nFb\nx").err(), Some(b'x'));
}

#[test]
fn board_assembly_places_pieces() {
    let definitions = ["Db", "F ", "W ", "S ", "M ", "Dc"];
    let mut choices: Vec<PieceChoice> = [Piece::One, Piece::Two, Piece::Three, Piece::Four, Piece::Five, Piece::Six]
        .iter()
        .map(|p| PieceChoice::from(*p))
        .collect();
    choices[1].rotated = true;
    let tiles = assemble(&choices, &definitions).unwrap();
    let cells: Vec<(Hex, Terrain, Option<Animal>)> =
        tiles.iter().map(|t| (t.position, t.terrain, t.animal)).collect();
    assert_eq!(
        cells,
        vec![
            (Hex::new(0, 0), Terrain::Desert, Some(Animal::Bear)),
            (Hex::new(11, -3), Terrain::Forest, None),
            (Hex::new(0, 3), Terrain::Water, None),
            (Hex::new(6, 0), Terrain::Swamp, None),
            (Hex::new(0, 6), Terrain::Mountain, None),
            (Hex::new(6, 3), Terrain::Desert, Some(Animal::Cougar)),
        ]
    );
    // The pieces are taken by their number, not by their place.
    choices.swap(0, 2);
    let tiles = assemble(&choices, &definitions).unwrap();
    assert_eq!(tiles[0].terrain, Terrain::Water);
    assert_eq!(tiles[2].terrain, Terrain::Desert);
    let broken = ["Db", "F ", "Q ", "S ", "M ", "Dc"];
    assert_eq!(assemble(&choices, &broken).err(), Some(b'Q'));
}
