//! The six board pieces the map is assembled from.

use crate::hex::{Hex, COORD_LIMIT};
use crate::model::{Animal, Terrain, Tile};
use vstd::prelude::*;
use vstd::string::StringSliceAdditionalSpecFns;

verus! {

#[derive(Debug, Clone, Copy, PartialEq, Eq, Hash, Structural)]
pub enum Piece {
    One,
    Two,
    Three,
    Four,
    Five,
    Six,
}

impl Piece {
    /// The number printed on the piece.
    pub fn name(self) -> (r: &'static str)
        ensures
            r@ == match self {
                Piece::One => "1"@,
                Piece::Two => "2"@,
                Piece::Three => "3"@,
                Piece::Four => "4"@,
                Piece::Five => "5"@,
                Piece::Six => "6"@,
            },
    {
        match self {
            Piece::One => "1",
            Piece::Two => "2",
            Piece::Three => "3",
            Piece::Four => "4",
            Piece::Five => "5",
            Piece::Six => "6",
        }
    }
}

/// Choice for building the world: a piece, possibly rotated by 180°.
#[derive(Debug, Clone, Copy, PartialEq, Eq, Structural)]
pub struct PieceChoice {
    pub piece: Piece,
    pub rotated: bool,
}

impl From<Piece> for PieceChoice {
    fn from(piece: Piece) -> (r: Self) {
        PieceChoice { piece, rotated: false }
    }
}

impl vstd::std_specs::convert::FromSpecImpl<Piece> for PieceChoice {
    open spec fn obeys_from_spec() -> bool {
        true
    }

    open spec fn from_spec(piece: Piece) -> PieceChoice {
        PieceChoice { piece, rotated: false }
    }
}

/// `piece` is chosen somewhere in `pieces`.
pub open spec fn chosen(pieces: Seq<PieceChoice>, piece: Piece) -> bool {
    exists|i: int| 0 <= i < pieces.len() && (#[trigger] pieces[i]).piece == piece
}

/// Returns true if all six different pieces were selected.
pub fn are_selected_pieces_valid(pieces: &[PieceChoice]) -> (r: bool)
    ensures
        r == forall|p: Piece| chosen(pieces@, p),
{
    let mut seen = [false, false, false, false, false, false];
    let mut i: usize = 0;
    while i < pieces.len()
        invariant
            i <= pieces@.len(),
            seen@.len() == 6,
            forall|k: int|
                0 <= k < 6 ==> #[trigger] seen@[k] == exists|j: int|
                    0 <= j < i && piece_index(#[trigger] pieces@[j].piece) == k,
        decreases pieces@.len() - i,
    {
        let k = index_of_piece(pieces[i].piece);
        seen.set(k, true);
        i += 1;
        assert forall|m: int| 0 <= m < 6 implies #[trigger] seen@[m] == exists|j: int|
            0 <= j < i && piece_index(#[trigger] pieces@[j].piece) == m by {
            if m != k {
                if exists|j: int| 0 <= j < i && piece_index(#[trigger] pieces@[j].piece) == m {
                    let j = choose|j: int| 0 <= j < i && piece_index(#[trigger] pieces@[j].piece) == m;
                    assert(j < i - 1);
                }
            } else {
                assert(piece_index(pieces@[i - 1].piece) == m);
            }
        }
    }
    let r = seen[0] && seen[1] && seen[2] && seen[3] && seen[4] && seen[5];
    proof {
        if r {
            assert forall|p: Piece| chosen(pieces@, p) by {
                let k = piece_index(p);
                assert(seen@[k as int]);
                let j = choose|j: int| 0 <= j < pieces@.len() && piece_index(#[trigger] pieces@[j].piece) == k;
                assert(pieces@[j].piece == p);
            }
        } else {
            let k = choose|k: int| 0 <= k < 6 && !seen@[k];
            let p = piece_at(k);
            if chosen(pieces@, p) {
                let j = choose|j: int| 0 <= j < pieces@.len() && (#[trigger] pieces@[j]).piece == p;
                assert(piece_index(pieces@[j].piece) == k);
            }
        }
    }
    r
}

pub open spec fn piece_index(p: Piece) -> usize {
    match p {
        Piece::One => 0,
        Piece::Two => 1,
        Piece::Three => 2,
        Piece::Four => 3,
        Piece::Five => 4,
        Piece::Six => 5,
    }
}

pub open spec fn piece_at(k: int) -> Piece {
    if k == 0 {
        Piece::One
    } else if k == 1 {
        Piece::Two
    } else if k == 2 {
        Piece::Three
    } else if k == 3 {
        Piece::Four
    } else if k == 4 {
        Piece::Five
    } else {
        Piece::Six
    }
}

fn index_of_piece(p: Piece) -> (r: usize)
    ensures
        r == piece_index(p),
{
    match p {
        Piece::One => 0,
        Piece::Two => 1,
        Piece::Three => 2,
        Piece::Four => 3,
        Piece::Five => 4,
        Piece::Six => 5,
    }
}

/// Largest length of a piece definition, so that every cell has
/// coordinates well within range.
pub const MAX_DEFINITION_LEN: usize = 1000000;

/// Byte `k` of `b` belongs to the text of a line: it is no line feed, nor
/// a carriage return that ends a line.
pub open spec fn is_content(b: Seq<u8>, k: int) -> bool {
    &&& 0 <= k < b.len()
    &&& b[k] != 10
    &&& !(b[k] == 13 && k + 1 < b.len() && b[k + 1] == 10)
}

/// Index of the first byte of the line that holds byte `k`.
pub open spec fn line_begin(b: Seq<u8>, k: int) -> int
    decreases k,
{
    if k <= 0 {
        0
    } else if b[k - 1] == 10 {
        k
    } else {
        line_begin(b, k - 1)
    }
}

/// Number of line feeds before byte `k`: the row of byte `k`.
pub open spec fn row_of(b: Seq<u8>, k: int) -> int
    decreases k,
{
    if k <= 0 {
        0
    } else if b[k - 1] == 10 {
        row_of(b, k - 1) + 1
    } else {
        row_of(b, k - 1)
    }
}

/// The terrain a letter stands for.
pub open spec fn terrain_letter(c: u8) -> Option<Terrain> {
    if c == 87 {
        Some(Terrain::Water)
    } else if c == 68 {
        Some(Terrain::Desert)
    } else if c == 77 {
        Some(Terrain::Mountain)
    } else if c == 70 {
        Some(Terrain::Forest)
    } else if c == 83 {
        Some(Terrain::Swamp)
    } else {
        None
    }
}

/// The animal a letter stands for; any other letter, or none, is no animal.
pub open spec fn animal_letter(c: u8) -> Option<Animal> {
    if c == 98 {
        Some(Animal::Bear)
    } else if c == 99 {
        Some(Animal::Cougar)
    } else {
        None
    }
}

/// The axial cell of offset column `col` and row `row`, odd columns
/// shoved down.
pub open spec fn offset_cell(col: int, row: int) -> Hex {
    Hex { x: col as i32, y: (row - (col - col % 2) / 2) as i32 }
}

/// The tile described at byte `k`, the first of a two-letter cell: its
/// place, its terrain letter and, if the line goes on, its animal letter.
pub open spec fn cell_at(b: Seq<u8>, k: int) -> (Hex, u8, Option<Animal>) {
    (
        offset_cell((k - line_begin(b, k)) / 2, row_of(b, k)),
        b[k],
        if is_content(b, k + 1) {
            animal_letter(b[k + 1])
        } else {
            None
        },
    )
}

/// Byte `k` starts a cell: it is line text at an even column.
pub open spec fn starts_cell(b: Seq<u8>, k: int) -> bool {
    is_content(b, k) && (k - line_begin(b, k)) % 2 == 0
}

/// The tiles (place, terrain, animal) described by the first `n` bytes of
/// a definition, in order, or the first letter that names no terrain.
pub open spec fn parse_prefix(b: Seq<u8>, n: int) -> Result<Seq<(Hex, Terrain, Option<Animal>)>, u8>
    decreases n,
{
    if n <= 0 {
        Ok(seq![])
    } else {
        match parse_prefix(b, n - 1) {
            Err(e) => Err(e),
            Ok(tiles) => if starts_cell(b, n - 1) {
                let cell = cell_at(b, n - 1);
                match terrain_letter(cell.1) {
                    Some(t) => Ok(tiles.push((cell.0, t, cell.2))),
                    None => Err(cell.1),
                }
            } else {
                Ok(tiles)
            },
        }
    }
}

/// Relies on `hexx::Hex::from_offset_coordinates` with odd columns shoved
/// down in flat orientation: `(col, row - (col - (col & 1)) / 2)`.
#[verifier::external_body]
fn from_offset(col: i32, row: i32) -> (r: Hex)
    requires
        0 <= col <= MAX_DEFINITION_LEN,
        0 <= row <= MAX_DEFINITION_LEN,
    ensures
        r == offset_cell(col as int, row as int),
{
    let h = hexx::Hex::from_offset_coordinates([col, row], hexx::OffsetHexMode::Odd, hexx::HexOrientation::Flat);
    Hex { x: h.x, y: h.y }
}

fn terrain_of_letter(c: u8) -> (r: Option<Terrain>)
    ensures
        r == terrain_letter(c),
{
    if c == 87 {
        Some(Terrain::Water)
    } else if c == 68 {
        Some(Terrain::Desert)
    } else if c == 77 {
        Some(Terrain::Mountain)
    } else if c == 70 {
        Some(Terrain::Forest)
    } else if c == 83 {
        Some(Terrain::Swamp)
    } else {
        None
    }
}

fn animal_of_letter(c: u8) -> (r: Option<Animal>)
    ensures
        r == animal_letter(c),
{
    if c == 98 {
        Some(Animal::Bear)
    } else if c == 99 {
        Some(Animal::Cougar)
    } else {
        None
    }
}

/// `p` turned by 180° about the middle of a piece: `(5, 0) - p`.
pub open spec fn rotated(p: Hex) -> Hex {
    Hex { x: (5 - p.x) as i32, y: (0 - p.y) as i32 }
}

/// `p` moved by `t`.
pub open spec fn shifted(p: Hex, t: Hex) -> Hex {
    Hex { x: (p.x + t.x) as i32, y: (p.y + t.y) as i32 }
}

/// Once an error is met, the rest of the definition keeps it.
proof fn lemma_parse_error_sticks(b: Seq<u8>, k: int, n: int)
    requires
        0 <= k <= n,
        parse_prefix(b, k) is Err,
    ensures
        parse_prefix(b, n) == parse_prefix(b, k),
    decreases n - k,
{
    if k < n {
        lemma_parse_error_sticks(b, k, n - 1);
    }
}

/// The tiles of one piece.
pub struct ParsedPiece(pub Vec<Tile>);

impl ParsedPiece {
    /// Reads a piece definition: one line per row of the piece, two
    /// letters per tile, the terrain (`W`ater, `D`esert, `M`ountain,
    /// `F`orest, `S`wamp) and the animal (`b`ear, `c`ougar, anything else
    /// for none; a missing last letter is none). Lines end with a line feed,
    /// optionally after a carriage return. Returns the first letter that
    /// names no terrain as the error.
    pub fn parse(definition: &str) -> (r: Result<ParsedPiece, u8>)
        requires
            definition.spec_bytes().len() <= MAX_DEFINITION_LEN,
        ensures
            match (r, parse_prefix(definition.spec_bytes(), definition.spec_bytes().len() as int)) {
                (Ok(piece), Ok(cells)) => {
                    &&& piece.0@.len() == cells.len()
                    &&& forall|i: int|
                        0 <= i < cells.len() ==> {
                            &&& (#[trigger] piece.0@[i]).position == cells[i].0
                            &&& piece.0@[i].terrain == cells[i].1
                            &&& piece.0@[i].animal == cells[i].2
                            &&& piece.0@[i].structure is None
                            &&& !piece.0@[i].small
                            &&& piece.0@[i].answers@ == Map::<usize, crate::model::Answer>::empty()
                        }
                },
                (Err(c), Err(e)) => c == e,
                _ => false,
            },
    {
        let b = definition.as_bytes();
        let ghost bs = b@;
        let n = b.len();
        let mut tiles: Vec<Tile> = Vec::new();
        let mut row: usize = 0;
        let mut begin: usize = 0;
        let mut k: usize = 0;
        while k < n
            invariant
                bs == b@,
                bs == definition.spec_bytes(),
                n == bs.len(),
                n <= MAX_DEFINITION_LEN,
                k <= n,
                begin <= k,
                row <= k,
                begin == line_begin(bs, k as int),
                row == row_of(bs, k as int),
                parse_prefix(bs, k as int) is Ok,
                tiles@.len() == parse_prefix(bs, k as int)->Ok_0.len(),
                forall|i: int|
                    0 <= i < tiles@.len() ==> {
                        let cells = parse_prefix(bs, k as int)->Ok_0;
                        &&& (#[trigger] tiles@[i]).position == cells[i].0
                        &&& tiles@[i].terrain == cells[i].1
                        &&& tiles@[i].animal == cells[i].2
                        &&& tiles@[i].structure is None
                        &&& !tiles@[i].small
                        &&& tiles@[i].answers@ == Map::<usize, crate::model::Answer>::empty()
                    },
            decreases n - k,
        {
            let c = b[k];
            let content = c != 10 && !(c == 13 && k + 1 < n && b[k + 1] == 10);
            if content && (k - begin) % 2 == 0 {
                let terrain = match terrain_of_letter(c) {
                    Some(t) => t,
                    None => {
                        proof {
                            lemma_parse_error_sticks(bs, k as int + 1, n as int);
                        }
                        return Err(c);
                    },
                };
                let animal = if k + 1 < n && b[k + 1] != 10 && !(b[k + 1] == 13 && k + 2 < n && b[k + 2] == 10) {
                    animal_of_letter(b[k + 1])
                } else {
                    None
                };
                let position = from_offset(((k - begin) / 2) as i32, row as i32);
                tiles.push(Tile::new(position, terrain, animal, None));
            }
            if c == 10 {
                row += 1;
                begin = k + 1;
            }
            k += 1;
        }
        Ok(ParsedPiece(tiles))
    }

    /// Rotates this piece by 180°. The origin (0,0) is expected to be top
    /// left and is top left again after rotating: each tile moves from
    /// `p` to `(5, 0) - p`.
    pub fn rotate(&mut self)
        requires
            forall|i: int| 0 <= i < old(self).0@.len() ==> (#[trigger] old(self).0@[i]).position.in_range(),
        ensures
            final(self).0@.len() == old(self).0@.len(),
            forall|i: int|
                0 <= i < old(self).0@.len() ==> {
                    &&& (#[trigger] final(self).0@[i]).position == rotated(old(self).0@[i].position)
                    &&& final(self).0@[i].terrain == old(self).0@[i].terrain
                    &&& final(self).0@[i].animal == old(self).0@[i].animal
                    &&& final(self).0@[i].structure == old(self).0@[i].structure
                    &&& final(self).0@[i].small == old(self).0@[i].small
                    &&& final(self).0@[i].answers == old(self).0@[i].answers
                },
    {
        let mut i: usize = 0;
        while i < self.0.len()
            invariant
                i <= self.0@.len(),
                self.0@.len() == old(self).0@.len(),
                forall|j: int| i <= j < self.0@.len() ==> self.0@[j] == old(self).0@[j],
                forall|j: int| 0 <= j < old(self).0@.len() ==> (#[trigger] old(self).0@[j]).position.in_range(),
                forall|j: int|
                    0 <= j < i ==> {
                        &&& (#[trigger] self.0@[j]).position == rotated(old(self).0@[j].position)
                        &&& self.0@[j].terrain == old(self).0@[j].terrain
                        &&& self.0@[j].animal == old(self).0@[j].animal
                        &&& self.0@[j].structure == old(self).0@[j].structure
                        &&& self.0@[j].small == old(self).0@[j].small
                        &&& self.0@[j].answers == old(self).0@[j].answers
                    },
            decreases self.0@.len() - i,
        {
            let p = self.0[i].position;
            assert(p == old(self).0@[i as int].position);
            self.0[i].position = Hex { x: 5 - p.x, y: 0 - p.y };
            i += 1;
        }
    }

    /// Moves every tile of this piece by `t`.
    pub fn translate(&mut self, t: Hex)
        requires
            forall|i: int|
                0 <= i < old(self).0@.len() ==> -COORD_LIMIT <= (#[trigger] old(self).0@[i]).position.x + t.x
                    <= COORD_LIMIT && -COORD_LIMIT <= old(self).0@[i].position.y + t.y <= COORD_LIMIT,
        ensures
            final(self).0@.len() == old(self).0@.len(),
            forall|i: int|
                0 <= i < old(self).0@.len() ==> {
                    &&& (#[trigger] final(self).0@[i]).position == shifted(old(self).0@[i].position, t)
                    &&& final(self).0@[i].terrain == old(self).0@[i].terrain
                    &&& final(self).0@[i].animal == old(self).0@[i].animal
                    &&& final(self).0@[i].structure == old(self).0@[i].structure
                    &&& final(self).0@[i].small == old(self).0@[i].small
                    &&& final(self).0@[i].answers == old(self).0@[i].answers
                },
    {
        let mut i: usize = 0;
        while i < self.0.len()
            invariant
                i <= self.0@.len(),
                self.0@.len() == old(self).0@.len(),
                forall|j: int| i <= j < self.0@.len() ==> self.0@[j] == old(self).0@[j],
                forall|j: int|
                    0 <= j < old(self).0@.len() ==> -COORD_LIMIT <= (#[trigger] old(self).0@[j]).position.x + t.x
                        <= COORD_LIMIT && -COORD_LIMIT <= old(self).0@[j].position.y + t.y <= COORD_LIMIT,
                forall|j: int|
                    0 <= j < i ==> {
                        &&& (#[trigger] self.0@[j]).position == shifted(old(self).0@[j].position, t)
                        &&& self.0@[j].terrain == old(self).0@[j].terrain
                        &&& self.0@[j].animal == old(self).0@[j].animal
                        &&& self.0@[j].structure == old(self).0@[j].structure
                        &&& self.0@[j].small == old(self).0@[j].small
                        &&& self.0@[j].answers == old(self).0@[j].answers
                    },
            decreases self.0@.len() - i,
        {
            let p = self.0[i].position;
            assert(p == old(self).0@[i as int].position);
            self.0[i].position = Hex { x: p.x + t.x, y: p.y + t.y };
            i += 1;
        }
    }
}

/// A tile as plain values: place, terrain, animal.
pub type Cell = (Hex, Terrain, Option<Animal>);

/// The tiles a piece definition describes, or the first bad terrain letter.
pub open spec fn definition_cells(d: Seq<u8>) -> Result<Seq<Cell>, u8> {
    parse_prefix(d, d.len() as int)
}

/// Where the piece in board place `k` goes: places alternate between
/// offset columns 0 and 6, three rows per pair.
pub open spec fn place_of(k: int) -> Hex {
    offset_cell(
        if k % 2 == 0 {
            0
        } else {
            6
        },
        3 * (k / 2),
    )
}

/// A cell of a piece laid in board place `k`, turned if `turn`.
pub open spec fn laid(c: Cell, turn: bool, k: int) -> Cell {
    (
        shifted(
            if turn {
                rotated(c.0)
            } else {
                c.0
            },
            place_of(k),
        ),
        c.1,
        c.2,
    )
}

/// The tiles of the first `n` chosen pieces laid in their places, or the
/// first bad terrain letter. `defs[i]` defines the piece of index `i`.
pub open spec fn assembled(choices: Seq<PieceChoice>, defs: Seq<Seq<u8>>, n: int) -> Result<Seq<Cell>, u8>
    decreases n,
{
    if n <= 0 {
        Ok(seq![])
    } else {
        match assembled(choices, defs, n - 1) {
            Err(e) => Err(e),
            Ok(tiles) => {
                let choice = choices[n - 1];
                match definition_cells(defs[piece_index(choice.piece) as int]) {
                    Err(e) => Err(e),
                    Ok(cells) => Ok(tiles + cells.map_values(|c: Cell| laid(c, choice.rotated, n - 1))),
                }
            },
        }
    }
}

pub open spec fn definition_bytes(definitions: Seq<&str>) -> Seq<Seq<u8>> {
    definitions.map_values(|d: &str| d.spec_bytes())
}

/// `tiles` are fresh tiles holding `cells`.
pub open spec fn holds_cells(tiles: Seq<Tile>, cells: Seq<Cell>) -> bool {
    &&& tiles.len() == cells.len()
    &&& forall|i: int|
        0 <= i < cells.len() ==> {
            &&& (#[trigger] tiles[i]).position == cells[i].0
            &&& tiles[i].terrain == cells[i].1
            &&& tiles[i].animal == cells[i].2
            &&& tiles[i].structure is None
            &&& !tiles[i].small
            &&& tiles[i].answers@ == Map::<usize, crate::model::Answer>::empty()
        }
}

proof fn lemma_line_begin(b: Seq<u8>, k: int)
    requires
        0 <= k,
    ensures
        0 <= line_begin(b, k) <= k,
        0 <= row_of(b, k) <= k,
    decreases k,
{
    if k > 0 {
        lemma_line_begin(b, k - 1);
    }
}

/// Every cell of a definition lies within its length of the origin.
proof fn lemma_cells_bounded(b: Seq<u8>, n: int)
    requires
        0 <= n <= b.len() <= MAX_DEFINITION_LEN,
        parse_prefix(b, n) is Ok,
    ensures
        forall|i: int|
            0 <= i < parse_prefix(b, n)->Ok_0.len() ==> {
                let p = (#[trigger] parse_prefix(b, n)->Ok_0[i]).0;
                &&& 0 <= p.x <= n
                &&& -n <= p.y <= n
            },
    decreases n,
{
    if n > 0 {
        lemma_cells_bounded(b, n - 1);
        lemma_line_begin(b, n - 1);
    }
}

proof fn lemma_assembly_error_sticks(choices: Seq<PieceChoice>, defs: Seq<Seq<u8>>, k: int, n: int)
    requires
        0 <= k <= n,
        assembled(choices, defs, k) is Err,
    ensures
        assembled(choices, defs, n) == assembled(choices, defs, k),
    decreases n - k,
{
    if k < n {
        lemma_assembly_error_sticks(choices, defs, k, n - 1);
    }
}

/// Lays the chosen pieces in their board places, in order: each parsed
/// from the definition of its piece (`definitions` in piece order), turned
/// if chosen so, and moved to its place. Returns the first letter of a
/// definition that names no terrain as the error.
pub fn assemble(choices: &[PieceChoice], definitions: &[&str]) -> (r: Result<Vec<Tile>, u8>)
    requires
        choices@.len() <= 6,
        definitions@.len() == 6,
        forall|i: int| 0 <= i < 6 ==> (#[trigger] definitions@[i]).spec_bytes().len() <= MAX_DEFINITION_LEN,
    ensures
        match (r, assembled(choices@, definition_bytes(definitions@), choices@.len() as int)) {
            (Ok(tiles), Ok(cells)) => holds_cells(tiles@, cells),
            (Err(c), Err(e)) => c == e,
            _ => false,
        },
{
    let ghost defs = definition_bytes(definitions@);
    let mut tiles: Vec<Tile> = Vec::new();
    let mut k: usize = 0;
    while k < choices.len()
        invariant
            defs == definition_bytes(definitions@),
            choices@.len() <= 6,
            definitions@.len() == 6,
            forall|i: int| 0 <= i < 6 ==> (#[trigger] definitions@[i]).spec_bytes().len() <= MAX_DEFINITION_LEN,
            k <= choices@.len(),
            assembled(choices@, defs, k as int) is Ok,
            holds_cells(tiles@, assembled(choices@, defs, k as int)->Ok_0),
        decreases choices@.len() - k,
    {
        let choice = choices[k];
        let definition = definitions[index_of_piece(choice.piece)];
        assert(defs[piece_index(choice.piece) as int] == definition.spec_bytes());
        let mut piece = match ParsedPiece::parse(definition) {
            Ok(p) => p,
            Err(e) => {
                proof {
                    lemma_assembly_error_sticks(choices@, defs, k as int + 1, choices@.len() as int);
                }
                return Err(e);
            },
        };
        let ghost cells = definition_cells(definition.spec_bytes())->Ok_0;
        proof {
            lemma_cells_bounded(definition.spec_bytes(), definition.spec_bytes().len() as int);
            assert forall|i: int| 0 <= i < piece.0@.len() implies (#[trigger] piece.0@[i]).position.in_range() by {
                assert(cells[i].0 == piece.0@[i].position);
            }
        }
        if choice.rotated {
            piece.rotate();
        }
        let col: i32 = if k % 2 == 0 {
            0
        } else {
            6
        };
        let offset = from_offset(col, (3 * (k / 2)) as i32);
        assert(offset == place_of(k as int));
        piece.translate(offset);
        let ghost before = tiles@;
        let ghost done = assembled(choices@, defs, k as int)->Ok_0;
        tiles.append(&mut piece.0);
        proof {
            let laid_cells = cells.map_values(|c: Cell| laid(c, choice.rotated, k as int));
            assert(assembled(choices@, defs, k as int + 1)->Ok_0 == done + laid_cells);
            assert forall|i: int| 0 <= i < laid_cells.len() implies {
                &&& (#[trigger] tiles@[before.len() + i]).position == laid_cells[i].0
                &&& tiles@[before.len() + i].terrain == laid_cells[i].1
                &&& tiles@[before.len() + i].animal == laid_cells[i].2
            } by {
                assert(tiles@[before.len() + i].position == laid_cells[i].0);
            }
            assert(holds_cells(tiles@, done + laid_cells));
        }
        k += 1;
    }
    Ok(tiles)
}

} // verus!
