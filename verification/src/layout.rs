//! The laying out of a level from rows of marks: one row of marks for each
//! row of tiles, one mark for each tile.

use vstd::prelude::*;
use crate::entity::{EntityType, TILE_SZ};
use crate::geom::{SpecVec2, Vec2};
use crate::level::{starts_view, Level, SpecLevel, SpecStart, Start, TileData};
use crate::rows::{lemma_flatten_even, lemma_flatten_index};
use crate::sprite::SheetRegion;

verus! {

/// The mark of open ground: a blank.
pub const OPEN_MARK: u8 = 32;

/// The mark of a solid tile: `#`.
pub const WALL_MARK: u8 = 35;

/// The mark of the start of the first player: `1`.
pub const PLAYER1_MARK: u8 = 49;

/// The mark of the start of the second player: `2`.
pub const PLAYER2_MARK: u8 = 50;

/// The mark of a door: `d`.
pub const DOOR_MARK: u8 = 100;

/// The mark of the start of an enemy: `e`.
pub const ENEMY_MARK: u8 = 101;

/// The depth at which tiles are drawn.
pub const TILE_DEPTH: u16 = 2;

/// Models of the rows of marks, in order.
pub open spec fn rows_view(rows: Seq<Vec<u8>>) -> Seq<Seq<u8>> {
    rows.map_values(|row: Vec<u8>| row@)
}

/// The length of the longest row.
pub open spec fn widest(rows: Seq<Seq<u8>>) -> nat
    decreases rows.len(),
{
    if rows.len() == 0 {
        0
    } else if rows.last().len() > widest(rows.drop_last()) {
        rows.last().len()
    } else {
        widest(rows.drop_last())
    }
}

/// The mark in column `col` of row `row`. Where a row ends before the longest
/// does, there is open ground.
pub open spec fn mark_at(rows: Seq<Seq<u8>>, col: int, row: int) -> u8 {
    if 0 <= row < rows.len() && 0 <= col < rows[row].len() {
        rows[row][col]
    } else {
        OPEN_MARK
    }
}

/// The tile that a mark stands for: a wall is solid and shown as one, and
/// everything else is open ground.
pub open spec fn tile_of(mark: u8) -> TileData {
    if mark == WALL_MARK {
        TileData {
            solid: true,
            sheet_region: SheetRegion {
                sheet: 0,
                depth: TILE_DEPTH,
                x: TILE_SZ,
                y: 0,
                w: TILE_SZ as i16,
                h: TILE_SZ as i16,
            },
        }
    } else {
        TileData {
            solid: false,
            sheet_region: SheetRegion {
                sheet: 0,
                depth: TILE_DEPTH,
                x: 0,
                y: 0,
                w: TILE_SZ as i16,
                h: TILE_SZ as i16,
            },
        }
    }
}

/// The kind of entity that a mark starts, if it starts one.
pub open spec fn kind_of(mark: u8) -> Option<EntityType> {
    if mark == PLAYER1_MARK {
        Some(EntityType::Player1)
    } else if mark == PLAYER2_MARK {
        Some(EntityType::Player2)
    } else if mark == ENEMY_MARK {
        Some(EntityType::Enemy)
    } else if mark == DOOR_MARK {
        Some(EntityType::Door)
    } else {
        None
    }
}

/// The start that a mark in column `col` of row `row` stands for, if it
/// stands for one: at the centre of its tile.
pub open spec fn start_at(mark: u8, col: int, row: int) -> Option<SpecStart> {
    match kind_of(mark) {
        Some(etype) => Some(
            SpecStart {
                etype,
                pos: SpecVec2 {
                    x: col * TILE_SZ + TILE_SZ / 2,
                    y: row * TILE_SZ + TILE_SZ / 2,
                },
            },
        ),
        None => None,
    }
}

/// The tiles of row `row`, from the left, as far as the level is wide.
pub open spec fn row_tiles(rows: Seq<Seq<u8>>, row: int, width: nat) -> Seq<TileData> {
    Seq::new(width, |col: int| tile_of(mark_at(rows, col, row)))
}

/// What the marks of row `row` start, from the left.
pub open spec fn row_marks(rows: Seq<Seq<u8>>, row: int, width: nat) -> Seq<Option<SpecStart>> {
    Seq::new(width, |col: int| start_at(mark_at(rows, col, row), col, row))
}

/// The starts among what marks start, in order.
pub open spec fn started(marks: Seq<Option<SpecStart>>) -> Seq<SpecStart> {
    marks.filter_map(|start: Option<SpecStart>| start)
}

/// The tiles of each row, from the top.
pub open spec fn tile_rows(rows: Seq<Seq<u8>>, width: nat) -> Seq<Seq<TileData>> {
    Seq::new(rows.len(), |row: int| row_tiles(rows, row, width))
}

/// The starts of each row, from the top.
pub open spec fn start_rows(rows: Seq<Seq<u8>>, width: nat) -> Seq<Seq<SpecStart>> {
    Seq::new(rows.len(), |row: int| started(row_marks(rows, row, width)))
}

/// The level that rows of marks describe. It is as wide as the longest row
/// and as high as there are rows; its starts are in the order of reading,
/// row by row and from the left.
pub open spec fn laid_out(rows: Seq<Seq<u8>>) -> SpecLevel {
    SpecLevel {
        width: widest(rows) as int,
        height: rows.len() as int,
        tiles: tile_rows(rows, widest(rows)).flatten(),
        starts: start_rows(rows, widest(rows)).flatten(),
    }
}

/// The tile that a mark stands for.
fn tile_for(mark: u8) -> (r: TileData)
    ensures
        r == tile_of(mark),
{
    if mark == WALL_MARK {
        TileData {
            solid: true,
            sheet_region: SheetRegion::rect(TILE_SZ, 0, TILE_SZ as i16, TILE_SZ as i16).with_depth(
                TILE_DEPTH,
            ),
        }
    } else {
        TileData {
            solid: false,
            sheet_region: SheetRegion::rect(0, 0, TILE_SZ as i16, TILE_SZ as i16).with_depth(
                TILE_DEPTH,
            ),
        }
    }
}

/// The start that a mark in a cell of the grid stands for.
fn start_for(mark: u8, col: u16, row: u16) -> (r: Option<Start>)
    ensures
        match r {
            Some(start) => start_at(mark, col as int, row as int) == Some(start@),
            None => start_at(mark, col as int, row as int) is None,
        },
{
    let side: i32 = TILE_SZ as i32;
    let half: i32 = side / 2;
    let left: i32 = col as i32 * side;
    let top: i32 = row as i32 * side;
    let pos = Vec2 { x: left + half, y: top + half };
    if mark == PLAYER1_MARK {
        Some(Start { etype: EntityType::Player1, pos })
    } else if mark == PLAYER2_MARK {
        Some(Start { etype: EntityType::Player2, pos })
    } else if mark == ENEMY_MARK {
        Some(Start { etype: EntityType::Enemy, pos })
    } else if mark == DOOR_MARK {
        Some(Start { etype: EntityType::Door, pos })
    } else {
        None
    }
}

/// The length of the longest row.
fn widest_of(rows: &Vec<Vec<u8>>) -> (width: usize)
    ensures
        width == widest(rows_view(rows@)),
{
    let ghost marks = rows_view(rows@);
    let mut width: usize = 0;
    let mut i: usize = 0;
    proof {
        assert(marks.take(0) =~= Seq::empty());
    }
    while i < rows.len()
        invariant
            i <= rows.len(),
            marks == rows_view(rows@),
            width == widest(marks.take(i as int)),
        decreases rows.len() - i,
    {
        proof {
            assert(marks.take(i as int + 1).drop_last() =~= marks.take(i as int));
            assert(marks.take(i as int + 1).last() == rows@[i as int]@);
        }
        if rows[i].len() > width {
            width = rows[i].len();
        }
        i += 1;
    }
    proof {
        assert(marks.take(rows.len() as int) =~= marks);
    }
    width
}

/// Lays out the level that rows of marks describe. There is none where
/// there are more rows, or more marks in a row, than a level can have.
pub fn lay_out(rows: &Vec<Vec<u8>>) -> (r: Option<Level>)
    ensures
        r is Some <==> rows.len() <= u16::MAX && widest(rows_view(rows@)) <= u16::MAX,
        r matches Some(level) ==> level@ == laid_out(rows_view(rows@)) && level@.wf(),
{
    let ghost marks = rows_view(rows@);
    let width = widest_of(rows);
    if rows.len() > u16::MAX as usize || width > u16::MAX as usize {
        return None;
    }
    let ghost all_tiles = tile_rows(marks, width as nat);
    let ghost all_starts = start_rows(marks, width as nat);
    let mut tiles: Vec<TileData> = Vec::new();
    let mut starts: Vec<Start> = Vec::new();
    let mut row: usize = 0;
    proof {
        assert(all_tiles.take(0) =~= Seq::empty());
        assert(all_starts.take(0) =~= Seq::empty());
        assert(starts_view(starts@) =~= Seq::empty());
    }
    while row < rows.len()
        invariant
            row <= rows.len() <= u16::MAX,
            width <= u16::MAX,
            marks == rows_view(rows@),
            all_tiles == tile_rows(marks, width as nat),
            all_starts == start_rows(marks, width as nat),
            tiles@ == all_tiles.take(row as int).flatten(),
            starts_view(starts@) == all_starts.take(row as int).flatten(),
        decreases rows.len() - row,
    {
        let ghost tiles_before = tiles@;
        let ghost starts_before = starts_view(starts@);
        let ghost here = row_tiles(marks, row as int, width as nat);
        let ghost found = row_marks(marks, row as int, width as nat);
        let mut col: usize = 0;
        proof {
            assert(here.take(0) =~= Seq::empty());
            assert(found.take(0) =~= Seq::empty());
            assert(tiles_before + here.take(0) =~= tiles_before);
            assert(starts_before + started(found.take(0)) =~= starts_before);
        }
        while col < width
            invariant
                col <= width <= u16::MAX,
                row < rows.len() <= u16::MAX,
                marks == rows_view(rows@),
                here == row_tiles(marks, row as int, width as nat),
                found == row_marks(marks, row as int, width as nat),
                tiles@ == tiles_before + here.take(col as int),
                starts_view(starts@) == starts_before + started(found.take(col as int)),
            decreases width - col,
        {
            let mark = if col < rows[row].len() {
                rows[row][col]
            } else {
                OPEN_MARK
            };
            proof {
                assert(marks[row as int] == rows@[row as int]@);
                assert(mark == mark_at(marks, col as int, row as int));
                assert(here.take(col as int + 1) =~= here.take(col as int).push(tile_of(mark)));
                found.lemma_filter_map_take_succ(|start: Option<SpecStart>| start, col as int);
            }
            tiles.push(tile_for(mark));
            if let Some(start) = start_for(mark, col as u16, row as u16) {
                proof {
                    assert(starts_view(starts@.push(start)) =~= starts_view(starts@).push(start@));
                }
                starts.push(start);
            }
            col += 1;
        }
        proof {
            assert(here.take(width as int) =~= here);
            assert(found.take(width as int) =~= found);
            assert(all_tiles.take(row as int + 1) =~= all_tiles.take(row as int).push(here));
            all_tiles.take(row as int).lemma_flatten_push(here);
            assert(all_starts.take(row as int + 1) =~= all_starts.take(row as int).push(
                started(found),
            ));
            all_starts.take(row as int).lemma_flatten_push(started(found));
        }
        row += 1;
    }
    proof {
        assert(all_tiles.take(rows.len() as int) =~= all_tiles);
        assert(all_starts.take(rows.len() as int) =~= all_starts);
        lemma_flatten_even(all_tiles, width as nat);
        assert(all_tiles.len() * width == width * rows.len()) by (nonlinear_arith)
            requires
                all_tiles.len() == rows.len(),
        ;
    }
    Level::new(width as u16, rows.len() as u16, tiles, starts)
}

/// A level that is laid out holds, in each of its cells, the tile of the mark
/// of that cell.
pub proof fn lemma_laid_out_cell(rows: Seq<Seq<u8>>, col: int, row: int)
    requires
        0 <= row < rows.len(),
        0 <= col < widest(rows),
    ensures
        laid_out(rows).tiles.len() == widest(rows) * rows.len(),
        laid_out(rows).cell(col, row).data == tile_of(mark_at(rows, col, row)),
{
    let width = widest(rows);
    let all_tiles = tile_rows(rows, width);
    lemma_flatten_even(all_tiles, width);
    lemma_flatten_index(all_tiles, width, row, col);
    assert(all_tiles.len() * width == width * rows.len()) by (nonlinear_arith)
        requires
            all_tiles.len() == rows.len(),
    ;
    assert(row * width == row * (width as int));
}

} // verus!
