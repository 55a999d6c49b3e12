use cryptid_finder::hex::Hex;
use cryptid_finder::map::TileMap;
use cryptid_finder::model::{Animal, Answer, Clue, ClueKind, PlayerID, Structure, StructureColor, StructureKind, Terrain, Tile};
use cryptid_finder::players::{PlayerColor, PlayerList, RosterProblem};
use cryptid_finder::session::{Hint, TryingClues};
use std::collections::BTreeMap;

fn tile(x: i32, y: i32, terrain: Terrain) -> Tile {
    Tile::new(Hex::new(x, y), terrain, None, None)
}

fn spread_tiles() -> Vec<Tile> {
    vec![
        tile(0, 0, Terrain::Desert),
        tile(10, 0, Terrain::Forest),
        tile(20, 0, Terrain::Water),
        tile(30, 0, Terrain::Swamp),
        tile(40, 0, Terrain::Mountain),
    ]
}

fn roster(n: usize) -> PlayerList {
    let mut players = PlayerList::default();
    for _ in 0..n {
        players.push_new();
    }
    players
}

fn desert() -> Clue {
    Clue { kind: ClueKind::Terrain(Terrain::Desert), inverted: false }
}

#[test]
fn push_new_numbers_and_colors() {
    let mut players = roster(3);
    assert_eq!(players.len(), 3);
    assert_eq!(players.get(PlayerID(1)).color, PlayerColor::Red);
    assert_eq!(players.get(PlayerID(2)).color, PlayerColor::Purple);
    assert_eq!(players.get(PlayerID(3)).color, PlayerColor::Orange);
    assert_eq!(players.get(PlayerID(3)).name, "Some Player");
    players.remove(PlayerID(2));
    assert_eq!(players.len(), 2);
    players.push_new();
    // The new player is numbered after the largest and takes the freed color.
    assert_eq!(players.get(PlayerID(4)).color, PlayerColor::Purple);
    let ids: Vec<usize> = players.iter().map(|p| p.id.0).collect();
    assert_eq!(ids, vec![1, 3, 4]);
}

#[test]
fn push_new_when_all_colors_taken() {
    let mut players = roster(5);
    players.push_new();
    assert_eq!(players.get(PlayerID(6)).color, PlayerColor::Red);
}

#[test]
fn roster_problems() {
    let mut players = roster(2);
    assert_eq!(players.problem(), Some(RosterProblem::PlayerCount));
    players.push_new();
    assert_eq!(players.problem(), Some(RosterProblem::SharedName));
    players.player_mut(0).name = "Ann".to_string();
    players.player_mut(1).name = "Bob".to_string();
    players.player_mut(2).name = "Cy".to_string();
    assert_eq!(players.problem(), None);
    players.player_mut(1).name = String::new();
    assert_eq!(players.problem(), Some(RosterProblem::EmptyName));
    players.player_mut(1).name = "Bob".to_string();
    players.player_mut(2).color = PlayerColor::Red;
    assert_eq!(players.problem(), Some(RosterProblem::SharedColor));
    assert_eq!(roster(6).problem(), Some(RosterProblem::PlayerCount));
}

#[test]
fn new_round_deduces_everything() {
    let game = TryingClues::new(spread_tiles(), roster(3));
    assert_eq!(game.user(), PlayerID(1));
    assert!(!game.with_inverted());
    assert_eq!(game.deduced_clues(PlayerID(2)).len(), 18);
    assert!(game.tiles().iter().all(|t| !t.small));
    assert_eq!(game.tiles()[3].answers.get(&3), Some(&Answer::Unknown));
    assert!(game.hints().is_empty());
}

#[test]
fn answers_narrow_and_mark_tiles() {
    let mut game = TryingClues::new(spread_tiles(), roster(3));
    assert!(game.set_answer(Hex::new(0, 0), PlayerID(2), Answer::Yes));
    assert!(!game.set_answer(Hex::new(1, 1), PlayerID(2), Answer::Yes));
    assert_eq!(game.deduced_clues(PlayerID(2)).len(), 5);
    // Every remaining candidate of player 2 holds on the desert tile only.
    let small: Vec<bool> = game.tiles().iter().map(|t| t.small).collect();
    assert_eq!(small, vec![false, false, false, false, false]);
    for i in 1..5 {
        let at = game.tiles()[i].position;
        game.set_answer(at, PlayerID(2), Answer::No);
    }
    assert_eq!(game.deduced_clues(PlayerID(2)), &[desert()]);
    let small: Vec<bool> = game.tiles().iter().map(|t| t.small).collect();
    assert_eq!(small, vec![false, true, true, true, true]);
}

#[test]
fn known_clue_excludes_tiles() {
    let mut game = TryingClues::new(spread_tiles(), roster(3));
    game.set_known(PlayerID(3), true);
    assert_eq!(game.clue(PlayerID(3)), Some(desert()));
    assert!(game.is_known(PlayerID(3)));
    let small: Vec<bool> = game.tiles().iter().map(|t| t.small).collect();
    assert_eq!(small, vec![false, true, true, true, true]);
    game.set_clue(PlayerID(3), Clue { kind: ClueKind::TwoTerrains(Terrain::Water, Terrain::Swamp), inverted: false });
    let small: Vec<bool> = game.tiles().iter().map(|t| t.small).collect();
    assert_eq!(small, vec![true, true, false, false, true]);
    game.set_known(PlayerID(3), false);
    assert!(game.tiles().iter().all(|t| !t.small));
}

#[test]
fn hints_for_opponents_and_self() {
    let mut game = TryingClues::new(spread_tiles(), roster(3));
    game.set_answer(Hex::new(0, 0), PlayerID(2), Answer::Yes);
    game.set_answer(Hex::new(0, 0), PlayerID(1), Answer::Yes);
    game.calculate_hints();
    let hints = game.hints();
    assert_eq!(hints.len(), 3);
    let far = vec![Hex::new(10, 0), Hex::new(20, 0), Hex::new(30, 0), Hex::new(40, 0)];
    match &hints[0] {
        Hint::Ask { player, tiles, low, high } => {
            assert_eq!(*player, PlayerID(2));
            assert_eq!(tiles, &far);
            assert_eq!((*low, *high), (1, 4));
        }
        other => panic!("unexpected hint {:?}", other),
    }
    match &hints[1] {
        Hint::Ask { player, .. } => assert_eq!(*player, PlayerID(3)),
        other => panic!("unexpected hint {:?}", other),
    }
    match &hints[2] {
        Hint::Quiet { tiles, diff } => {
            assert_eq!(tiles, &far);
            assert_eq!(*diff, 1);
        }
        other => panic!("unexpected hint {:?}", other),
    }
    // Hints are dropped when the user changes, answers do not leak.
    assert_eq!(game.tiles()[1].answers.get(&2), Some(&Answer::Unknown));
    game.set_user(PlayerID(2));
    assert!(game.hints().is_empty());
}

#[test]
fn click_highlights_existing_tiles_only() {
    let mut game = TryingClues::new(spread_tiles(), roster(3));
    game.click(Hex::new(10, 0));
    assert_eq!(game.highlights(), &[Hex::new(10, 0)]);
    game.click(Hex::new(11, 0));
    assert!(game.highlights().is_empty());
}

#[test]
fn inverted_clues_double_the_catalog() {
    let mut game = TryingClues::new(spread_tiles(), roster(3));
    game.set_with_inverted(true);
    assert_eq!(game.deduced_clues(PlayerID(1)).len(), 36);
}

#[test]
fn overlay_needs_every_player() {
    let mut map = TileMap(spread_tiles());
    let players = roster(2);
    let mut deduced = BTreeMap::new();
    deduced.insert(1, vec![desert()]);
    deduced.insert(2, vec![Clue { kind: ClueKind::TwoTerrains(Terrain::Desert, Terrain::Water), inverted: false }]);
    map.recompute_possible(&players, &BTreeMap::new(), &BTreeMap::new(), &deduced);
    let small: Vec<bool> = map.0.iter().map(|t| t.small).collect();
    assert_eq!(small, vec![false, true, true, true, true]);
    // A player without a candidate list allows nothing.
    deduced.remove(&2);
    map.recompute_possible(&players, &BTreeMap::new(), &BTreeMap::new(), &deduced);
    assert!(map.0.iter().all(|t| t.small));
    // A known clue is checked on top of the candidates.
    let mut deduced = BTreeMap::new();
    deduced.insert(1, vec![desert()]);
    deduced.insert(2, vec![desert()]);
    let mut known = BTreeMap::new();
    known.insert(2, true);
    let mut clues = BTreeMap::new();
    clues.insert(2, Clue { kind: ClueKind::Terrain(Terrain::Desert), inverted: true });
    map.recompute_possible(&players, &clues, &known, &deduced);
    assert!(map.0.iter().all(|t| t.small));
}

#[test]
fn structures_present_once_each() {
    let mut a = tile(0, 0, Terrain::Desert);
    a.structure = Some(Structure { kind: StructureKind::Stone, color: StructureColor::Green });
    let mut b = tile(5, 0, Terrain::Forest);
    b.structure = Some(Structure { kind: StructureKind::Shack, color: StructureColor::Green });
    let mut c = tile(9, 0, Terrain::Forest);
    c.structure = Some(Structure { kind: StructureKind::Stone, color: StructureColor::Black });
    c.animal = Some(Animal::Cougar);
    let map = TileMap(vec![a, b, c]);
    assert_eq!(map.structure_colors(), vec![StructureColor::Green, StructureColor::Black]);
    assert_eq!(map.structure_kinds(), vec![StructureKind::Stone, StructureKind::Shack]);
    let clues = map.clues_for_player(PlayerID(1), false);
    assert_eq!(clues.len(), 22);
    assert_eq!(clues[18].kind, ClueKind::StructureKind(StructureKind::Stone));
    assert_eq!(clues[21].kind, ClueKind::StructureColor(StructureColor::Black));
    assert!(!clues.iter().any(|c| c.kind == ClueKind::StructureColor(StructureColor::White)));
}

#[test]
fn hint_sentences() {
    let ask = Hint::Ask { player: PlayerID(2), tiles: vec![Hex::new(0, 0)], low: 1, high: 4 };
    assert_eq!(ask.text("Ann"), "Ask Ann here to rule out 1 to 4 clues.");
    let even = Hint::Ask { player: PlayerID(2), tiles: vec![], low: 12, high: 12 };
    assert_eq!(even.text("Bob"), "Ask Bob here to rule out 12 clues.");
    let quiet = Hint::Quiet { tiles: vec![Hex::new(1, 0)], diff: 0 };
    assert_eq!(quiet.text(""), "Place a 'no' here to reveal no new information.");
    let quiet = Hint::Quiet { tiles: vec![Hex::new(1, 0)], diff: 3 };
    assert_eq!(quiet.text(""), "Place a 'no' here to rule out 3 of your clues.");
    assert_eq!(quiet.tiles(), &[Hex::new(1, 0)]);
}

#[test]
fn unchanged_settings_keep_hints() {
    let mut game = TryingClues::new(spread_tiles(), roster(3));
    game.set_known(PlayerID(2), false);
    game.calculate_hints();
    let n = game.hints().len();
    assert!(n > 0);
    game.set_known(PlayerID(2), false);
    game.set_clue(PlayerID(2), desert());
    game.set_answer(Hex::new(0, 0), PlayerID(2), Answer::Unknown);
    game.set_with_inverted(false);
    game.set_user(PlayerID(1));
    assert_eq!(game.hints().len(), n);
    game.set_clue(PlayerID(2), Clue { kind: ClueKind::EitherAnimal, inverted: false });
    assert!(game.hints().is_empty());
    game.calculate_hints();
    game.set_answer(Hex::new(0, 0), PlayerID(2), Answer::No);
    assert!(game.hints().is_empty());
    game.calculate_hints();
    game.set_known(PlayerID(2), true);
    assert!(game.hints().is_empty());
}

#[test]
fn roster_iteration_in_order() {
    let players = roster(3);
    let names: Vec<usize> = players.iter().map(|p| p.id.0).collect();
    assert_eq!(names, vec![1, 2, 3]);
    assert_eq!(players.as_slice().len(), 3);
}
