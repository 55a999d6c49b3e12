use cryptid_finder::hex::Hex;
use cryptid_finder::map::TileMap;
use cryptid_finder::model::{
    Animal, Answer, Clue, ClueKind, PlayerID, Structure, StructureColor, StructureKind, Terrain, Tile,
};

fn tile(x: i32, y: i32, terrain: Terrain, animal: Option<Animal>) -> Tile {
    Tile::new(Hex::new(x, y), terrain, animal, None)
}

fn plain(kind: ClueKind) -> Clue {
    Clue { kind, inverted: false }
}

fn inverted(kind: ClueKind) -> Clue {
    Clue { kind, inverted: true }
}

/// Five tiles far apart, one of each terrain, Desert first.
fn spread_map() -> TileMap {
    TileMap(vec![
        tile(0, 0, Terrain::Desert, None),
        tile(10, 0, Terrain::Forest, None),
        tile(20, 0, Terrain::Water, None),
        tile(30, 0, Terrain::Swamp, None),
        tile(40, 0, Terrain::Mountain, None),
    ])
}

#[test]
fn radius_table_on_small_map() {
    let map = TileMap(vec![
        tile(0, 0, Terrain::Desert, None),
        tile(1, 0, Terrain::Forest, Some(Animal::Bear)),
    ]);
    let center = Hex::new(0, 0);
    assert!(map.clue_applies(plain(ClueKind::Terrain(Terrain::Forest)), center));
    assert!(!map.clue_applies(inverted(ClueKind::Terrain(Terrain::Forest)), center));
    assert!(map.clue_applies(plain(ClueKind::Animal(Animal::Bear)), center));
    assert!(!map.clue_applies(plain(ClueKind::Animal(Animal::Cougar)), center));
    assert!(map.clue_applies(plain(ClueKind::EitherAnimal), center));
    // Pairs of terrains look at the tile itself only.
    assert!(!map.clue_applies(plain(ClueKind::TwoTerrains(Terrain::Forest, Terrain::Water)), center));
    assert!(map.clue_applies(plain(ClueKind::TwoTerrains(Terrain::Water, Terrain::Desert)), center));
}

#[test]
fn pair_clue_off_map_is_false() {
    let map = TileMap(vec![tile(0, 0, Terrain::Desert, None)]);
    let off = Hex::new(5, 5);
    assert!(!map.clue_applies(plain(ClueKind::TwoTerrains(Terrain::Desert, Terrain::Forest)), off));
    assert!(map.clue_applies(inverted(ClueKind::TwoTerrains(Terrain::Desert, Terrain::Forest)), off));
    assert!(!map.clue_applies(plain(ClueKind::Terrain(Terrain::Desert)), off));
}

#[test]
fn structure_radii() {
    let mut far = tile(3, 0, Terrain::Water, None);
    far.structure = Some(Structure { kind: StructureKind::Shack, color: StructureColor::Blue });
    let map = TileMap(vec![tile(0, 0, Terrain::Desert, None), far]);
    let center = Hex::new(0, 0);
    // The shack stands three steps away: in reach of its color, not of its kind.
    assert!(map.clue_applies(plain(ClueKind::StructureColor(StructureColor::Blue)), center));
    assert!(!map.clue_applies(plain(ClueKind::StructureKind(StructureKind::Shack)), center));
    assert!(map.clue_applies(plain(ClueKind::StructureKind(StructureKind::Shack)), Hex::new(1, 0)));
    assert!(!map.clue_applies(plain(ClueKind::StructureColor(StructureColor::Green)), center));
}

#[test]
fn any_counts_center_and_radius() {
    let map = TileMap(vec![
        tile(0, 0, Terrain::Desert, None),
        tile(2, -1, Terrain::Swamp, None),
    ]);
    let center = Hex::new(0, 0);
    assert_eq!(Hex::new(2, -1).distance(center), 2);
    assert!(map.any(center, 0, |t: &Tile| t.terrain == Terrain::Desert));
    assert!(!map.any(center, 1, |t: &Tile| t.terrain == Terrain::Swamp));
    assert!(map.any(center, 2, |t: &Tile| t.terrain == Terrain::Swamp));
    assert!(!map.any(Hex::new(9, 9), 3, |_t: &Tile| true));
}

#[test]
fn yes_on_water_excludes_desert_forest_pair() {
    let mut map = TileMap(vec![tile(0, 0, Terrain::Water, None)]);
    let player = PlayerID(1);
    map.0[0].answers.insert(player.0, Answer::Yes);
    let clues = map.clues_for_player(player, false);
    assert!(!clues.contains(&plain(ClueKind::TwoTerrains(Terrain::Desert, Terrain::Forest))));
    assert!(clues.contains(&plain(ClueKind::TwoTerrains(Terrain::Water, Terrain::Swamp))));
}

#[test]
fn no_answers_yield_whole_catalog() {
    let map = spread_map();
    let clues = map.clues_for_player(PlayerID(1), false);
    assert_eq!(clues.len(), 18);
    assert_eq!(map.clues_for_player(PlayerID(1), true).len(), 36);
    assert_eq!(clues[0], plain(ClueKind::Terrain(Terrain::Desert)));
    assert_eq!(clues[5], plain(ClueKind::TwoTerrains(Terrain::Desert, Terrain::Forest)));
    assert_eq!(clues[14], plain(ClueKind::TwoTerrains(Terrain::Swamp, Terrain::Mountain)));
    assert_eq!(clues[15], plain(ClueKind::EitherAnimal));
}

#[test]
fn single_candidate_gives_no_question() {
    let mut map = spread_map();
    let player = PlayerID(2);
    map.0[0].answers.insert(player.0, Answer::Yes);
    for i in 1..5 {
        map.0[i].answers.insert(player.0, Answer::No);
    }
    let clues = map.clues_for_player(player, false);
    assert_eq!(clues, vec![plain(ClueKind::Terrain(Terrain::Desert))]);
    assert!(map.best_question(player, false).is_none());
}

#[test]
fn best_question_splits_candidates() {
    let mut map = spread_map();
    let player = PlayerID(3);
    map.0[0].answers.insert(player.0, Answer::Yes);
    assert_eq!(map.clues_for_player(player, false).len(), 5);
    let q = map.best_question(player, false).unwrap();
    assert_eq!(q.tiles, vec![Hex::new(10, 0), Hex::new(20, 0), Hex::new(30, 0), Hex::new(40, 0)]);
    assert_eq!(q.low, 1);
    assert_eq!(q.high, 4);
    assert_eq!(q.low + q.high, 5);
    // The hypothetical answers were undone.
    assert_eq!(map.0[0].answers.get(&player.0), Some(&Answer::Yes));
    for i in 1..5 {
        assert_eq!(map.0[i].answers.get(&player.0), None);
    }
}

#[test]
fn quietest_tile_for_self() {
    let mut map = spread_map();
    let player = PlayerID(4);
    map.0[0].answers.insert(player.0, Answer::Yes);
    map.0[1].answers.insert(player.0, Answer::Unknown);
    let q = map.quietest_tile(player, false).unwrap();
    assert_eq!(q.diff, 1);
    assert_eq!(q.tiles, vec![Hex::new(10, 0), Hex::new(20, 0), Hex::new(30, 0), Hex::new(40, 0)]);
    assert_eq!(map.0[1].answers.get(&player.0), Some(&Answer::Unknown));
    assert_eq!(map.0[2].answers.get(&player.0), None);
}

#[test]
fn best_question_prefers_even_split() {
    let mut map = TileMap(vec![
        tile(0, 0, Terrain::Desert, None),
        tile(1, 0, Terrain::Forest, None),
        tile(20, 0, Terrain::Water, None),
        tile(30, 0, Terrain::Swamp, None),
    ]);
    let player = PlayerID(5);
    map.0[0].answers.insert(player.0, Answer::Yes);
    // Desert and forest nearby, and the four desert pairs.
    assert_eq!(map.clues_for_player(player, false).len(), 6);
    let q = map.best_question(player, false).unwrap();
    assert_eq!(q.tiles, vec![Hex::new(1, 0)]);
    assert_eq!((q.low, q.high), (3, 3));
    let quiet = map.quietest_tile(player, false).unwrap();
    assert_eq!(quiet.tiles, vec![Hex::new(20, 0), Hex::new(30, 0)]);
    assert_eq!(quiet.diff, 1);
}

#[test]
fn fully_answered_player_gets_no_hint() {
    let mut map = spread_map();
    let player = PlayerID(6);
    for i in 0..5 {
        map.0[i].answers.insert(player.0, Answer::Yes);
    }
    assert!(map.best_question(player, false).is_none());
    assert!(map.quietest_tile(player, false).is_none());
}
