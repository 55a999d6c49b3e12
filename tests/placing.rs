use cryptid_finder::hex::Hex;
use cryptid_finder::map::TileMap;
use cryptid_finder::model::{Structure, StructureColor, StructureKind, Terrain, Tile};
use cryptid_finder::placing::PlacingStructures;
use cryptid_finder::players::PlayerList;

fn row(n: i32) -> Vec<Tile> {
    (0..n).map(|x| Tile::new(Hex::new(x, 0), Terrain::Forest, None, None)).collect()
}

fn structure(kind: StructureKind, color: StructureColor) -> Option<Structure> {
    Some(Structure { kind, color })
}

#[test]
fn default_structures_fill_first_free_tiles() {
    let mut tiles = row(8);
    tiles[1].structure = structure(StructureKind::Shack, StructureColor::Black);
    let placing = PlacingStructures::new(tiles, PlayerList::default());
    let s: Vec<Option<Structure>> = placing.tiles().iter().map(|t| t.structure).collect();
    assert_eq!(s[0], structure(StructureKind::Stone, StructureColor::White));
    assert_eq!(s[1], structure(StructureKind::Shack, StructureColor::Black));
    assert_eq!(s[2], structure(StructureKind::Shack, StructureColor::White));
    assert_eq!(s[3], structure(StructureKind::Stone, StructureColor::Green));
    assert_eq!(s[4], structure(StructureKind::Shack, StructureColor::Green));
    assert_eq!(s[5], structure(StructureKind::Stone, StructureColor::Blue));
    assert_eq!(s[6], structure(StructureKind::Shack, StructureColor::Blue));
    assert_eq!(s[7], None);
    assert!(placing.has(StructureColor::Blue));
    assert!(placing.has(StructureColor::Black));
}

#[test]
fn add_and_delete_a_color() {
    let mut placing = PlacingStructures::new(row(9), PlayerList::default());
    assert!(!placing.has(StructureColor::Black));
    assert!(placing.has_room());
    placing.add(StructureColor::Black);
    assert!(placing.has(StructureColor::Black));
    assert!(!placing.has_room());
    placing.delete(StructureColor::Green);
    assert!(!placing.has(StructureColor::Green));
    assert_eq!(placing.tiles()[2].structure, None);
    assert_eq!(placing.tiles()[3].structure, None);
    assert_eq!(placing.tiles()[4].structure, structure(StructureKind::Stone, StructureColor::Blue));
    assert_eq!(placing.tiles()[6].structure, structure(StructureKind::Stone, StructureColor::Black));
}

#[test]
fn small_map_keeps_what_fits() {
    let placing = PlacingStructures::new(row(3), PlayerList::default());
    assert!(placing.has(StructureColor::White));
    assert!(!placing.has(StructureColor::Green));
    assert_eq!(placing.tiles()[2].structure, None);
}

#[test]
fn dragging_a_structure() {
    let mut tiles = row(3);
    tiles[0].structure = structure(StructureKind::Stone, StructureColor::Blue);
    tiles[2].structure = structure(StructureKind::Shack, StructureColor::Blue);
    let mut map = TileMap(tiles);
    assert!(!map.move_structure(Hex::new(0, 0), Hex::new(2, 0)));
    assert!(!map.move_structure(Hex::new(0, 0), Hex::new(7, 0)));
    assert!(!map.move_structure(Hex::new(7, 0), Hex::new(1, 0)));
    assert_eq!(map.0[1].structure, None);
    assert!(map.move_structure(Hex::new(0, 0), Hex::new(1, 0)));
    assert_eq!(map.0[0].structure, None);
    assert_eq!(map.0[1].structure, structure(StructureKind::Stone, StructureColor::Blue));
}
