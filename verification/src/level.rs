//! The level: a grid of square tiles, some of them solid, and the query for
//! the tiles near a shape.

use vstd::prelude::*;
use crate::contact::{
    contacts_view, first_indices_below, lemma_present_order, lemma_present_origin, pair_contact,
    present, shapes_view, Contact, SpecContact,
};
use crate::entity::{EntityType, TILE_SZ};
use crate::geom::{greater, lesser, Rect, Shape, SpecRect, SpecShape, SpecVec2, Vec2};
use crate::rows::{
    lemma_flatten_even, lemma_flatten_holds, lemma_flatten_order, lemma_flatten_origin,
};
use crate::sprite::SheetRegion;

verus! {

/// What a tile is: whether it blocks movement, and which part of the sprite
/// sheet shows it. Only the first matters to collisions.
#[derive(Clone, Copy, PartialEq, Eq, Structural, Debug)]
pub struct TileData {
    pub solid: bool,
    pub sheet_region: SheetRegion,
}

/// A tile in its place: the box that it fills and what it is.
#[derive(Clone, Copy, PartialEq, Eq, Structural, Debug)]
pub struct TileCell {
    pub rect: Rect,
    pub data: TileData,
}

/// Model of a [`TileCell`].
pub struct SpecTileCell {
    pub rect: SpecRect,
    pub data: TileData,
}

impl View for TileCell {
    type V = SpecTileCell;

    open spec fn view(&self) -> SpecTileCell {
        SpecTileCell { rect: self.rect@, data: self.data }
    }
}

/// Models of the cells of a sequence, in order.
pub open spec fn cells_view(s: Seq<TileCell>) -> Seq<SpecTileCell> {
    s.map_values(|c: TileCell| c@)
}

/// How many whole numbers lie between `lo` and `hi`, both counted.
pub open spec fn span(lo: int, hi: int) -> nat {
    if hi >= lo {
        (hi - lo + 1) as nat
    } else {
        0
    }
}

/// Where the level puts an entity when it is entered.
#[derive(Clone, Copy, PartialEq, Eq, Structural, Debug)]
pub struct Start {
    pub etype: EntityType,
    pub pos: Vec2,
}

/// Model of a [`Start`].
pub struct SpecStart {
    pub etype: EntityType,
    pub pos: SpecVec2,
}

impl View for Start {
    type V = SpecStart;

    open spec fn view(&self) -> SpecStart {
        SpecStart { etype: self.etype, pos: self.pos@ }
    }
}

/// Models of the starts of a sequence, in order.
pub open spec fn starts_view(s: Seq<Start>) -> Seq<SpecStart> {
    s.map_values(|t: Start| t@)
}

/// Model of a [`Level`]: the tiles row by row, the first row at the top, and
/// the places at which entities start.
pub struct SpecLevel {
    pub width: int,
    pub height: int,
    pub tiles: Seq<TileData>,
    pub starts: Seq<SpecStart>,
}

impl SpecLevel {
    /// A grid holds one tile for each of its cells.
    pub open spec fn wf(self) -> bool {
        &&& 0 <= self.width <= u16::MAX
        &&& 0 <= self.height <= u16::MAX
        &&& self.tiles.len() == self.width * self.height
    }

    /// The tile in column `col` of row `row`, with the box that it fills. The
    /// grid starts at the origin of the world.
    pub open spec fn cell(self, col: int, row: int) -> SpecTileCell {
        SpecTileCell {
            rect: SpecRect {
                x: col * TILE_SZ,
                y: row * TILE_SZ,
                w: TILE_SZ as int,
                h: TILE_SZ as int,
            },
            data: self.tiles[row * self.width + col],
        }
    }

    /// The first column that a box reaches.
    pub open spec fn first_col(self, bounds: SpecRect) -> int {
        greater(0, bounds.x / (TILE_SZ as int))
    }

    /// The last column that a box reaches. A box that ends on the edge
    /// between two columns reaches both.
    pub open spec fn last_col(self, bounds: SpecRect) -> int {
        lesser(self.width - 1, bounds.right() / (TILE_SZ as int))
    }

    /// The first row that a box reaches.
    pub open spec fn first_row(self, bounds: SpecRect) -> int {
        greater(0, bounds.y / (TILE_SZ as int))
    }

    /// The last row that a box reaches.
    pub open spec fn last_row(self, bounds: SpecRect) -> int {
        lesser(self.height - 1, bounds.bottom() / (TILE_SZ as int))
    }

    /// The tiles of row `row` from column `first` to column `last`.
    pub open spec fn row_cells(self, row: int, first: int, last: int) -> Seq<SpecTileCell> {
        Seq::new(span(first, last), |c: int| self.cell(first + c, row))
    }

    /// For each row that the box reaches, from the top, the tiles of that row
    /// that the box reaches.
    pub open spec fn rows_within(self, bounds: SpecRect) -> Seq<Seq<SpecTileCell>> {
        Seq::new(
            span(self.first_row(bounds), self.last_row(bounds)),
            |r: int|
                self.row_cells(
                    self.first_row(bounds) + r,
                    self.first_col(bounds),
                    self.last_col(bounds),
                ),
        )
    }

    /// The tiles that a shape may touch: those that the smallest box around
    /// the shape reaches, row by row from the top and from left to right
    /// within a row. Their number depends on the size of the shape, not on
    /// that of the grid.
    pub open spec fn tiles_within(self, shape: SpecShape) -> Seq<SpecTileCell> {
        self.rows_within(shape.bounds()).flatten()
    }
}

/// Whether the start at `k` is the first of kind `etype`.
pub open spec fn first_start(starts: Seq<SpecStart>, etype: EntityType, k: int) -> bool {
    &&& 0 <= k < starts.len()
    &&& starts[k].etype == etype
    &&& forall|j: int| 0 <= j < k ==> (#[trigger] starts[j]).etype != etype
}

/// The whole part of `v` over the side of a tile, rounded down.
fn tile_index(v: i64) -> (r: i64)
    requires
        -0x1_0000_0000 <= v <= 0x1_0000_0000,
    ensures
        r == (v as int) / (TILE_SZ as int),
{
    let side: i64 = TILE_SZ as i64;
    if v >= 0 {
        v / side
    } else {
        -((side - 1 - v) / side)
    }
}

/// The corners of the smallest box around a shape: left, top, right, bottom.
fn bounds_of(shape: &Shape) -> (r: (i64, i64, i64, i64))
    ensures
        r.0 == shape@.bounds().x,
        r.1 == shape@.bounds().y,
        r.2 == shape@.bounds().right(),
        r.3 == shape@.bounds().bottom(),
{
    match shape {
        Shape::Circle(c) => (
            c.x as i64 - c.r as i64,
            c.y as i64 - c.r as i64,
            c.x as i64 + c.r as i64,
            c.y as i64 + c.r as i64,
        ),
        Shape::Rect(b) => (
            b.x as i64,
            b.y as i64,
            b.x as i64 + b.w as i64,
            b.y as i64 + b.h as i64,
        ),
    }
}

/// A grid of tiles, and the places at which entities start in it.
pub struct Level {
    width: u16,
    height: u16,
    tiles: Vec<TileData>,
    starts: Vec<Start>,
}

impl View for Level {
    type V = SpecLevel;

    closed spec fn view(&self) -> SpecLevel {
        SpecLevel {
            width: self.width as int,
            height: self.height as int,
            tiles: self.tiles@,
            starts: starts_view(self.starts@),
        }
    }
}

impl Level {
    #[verifier::type_invariant]
    spec fn inv(self) -> bool {
        self.tiles.len() == self.width * self.height
    }

    /// A grid of `width` by `height` tiles, given row by row, with the
    /// places at which entities start. There is none when `tiles` does not
    /// hold one tile for each cell.
    pub fn new(width: u16, height: u16, tiles: Vec<TileData>, starts: Vec<Start>) -> (r: Option<
        Level,
    >)
        ensures
            r is Some <==> tiles.len() == width * height,
            r matches Some(level) ==> level@ == (SpecLevel {
                width: width as int,
                height: height as int,
                tiles: tiles@,
                starts: starts_view(starts@),
            }) && level@.wf(),
    {
        assert(width * height <= 0xffff * 0xffff) by (nonlinear_arith)
            requires
                0 <= width <= 0xffff,
                0 <= height <= 0xffff,
        ;
        if tiles.len() as u64 == width as u64 * height as u64 {
            Some(Level { width, height, tiles, starts })
        } else {
            None
        }
    }

    /// The number of columns.
    pub fn width(&self) -> (r: u16)
        ensures
            r == self@.width,
            self@.wf(),
    {
        proof {
            use_type_invariant(self);
        }
        self.width
    }

    /// The number of rows.
    pub fn height(&self) -> (r: u16)
        ensures
            r == self@.height,
            self@.wf(),
    {
        proof {
            use_type_invariant(self);
        }
        self.height
    }

    /// The places at which entities start, in the order in which the level
    /// was given them.
    pub fn starts(&self) -> (r: &Vec<Start>)
        ensures
            starts_view(r@) == self@.starts,
    {
        &self.starts
    }

    /// The place at which the first entity of kind `etype` starts, if the
    /// level has one.
    pub fn start_of(&self, etype: EntityType) -> (r: Option<Vec2>)
        ensures
            match r {
                Some(pos) => exists|k: int|
                    0 <= k < self@.starts.len() && first_start(self@.starts, etype, k)
                        && self@.starts[k].pos == pos@,
                None => forall|k: int|
                    0 <= k < self@.starts.len() ==> (#[trigger] self@.starts[k]).etype != etype,
            },
    {
        let mut i: usize = 0;
        while i < self.starts.len()
            invariant
                i <= self.starts.len(),
                forall|k: int| 0 <= k < i ==> (#[trigger] self.starts@[k]).etype != etype,
            decreases self.starts.len() - i,
        {
            if self.starts[i].etype == etype {
                proof {
                    let all = self@.starts;
                    assert(all[i as int] == self.starts@[i as int]@);
                    assert forall|j: int| 0 <= j < i implies (#[trigger] all[j]).etype
                        != etype by {
                        assert(all[j] == self.starts@[j]@);
                    }
                    assert(first_start(all, etype, i as int));
                }
                return Some(self.starts[i].pos);
            }
            i += 1;
        }
        proof {
            let all = self@.starts;
            assert forall|k: int| 0 <= k < all.len() implies (#[trigger] all[k]).etype
                != etype by {
                assert(all[k] == self.starts@[k]@);
            }
        }
        None
    }

    /// The tile in column `col` of row `row`, if the grid has such a cell.
    pub fn get_tile(&self, col: u16, row: u16) -> (r: Option<TileCell>)
        ensures
            self@.wf(),
            r is Some <==> col < self@.width && row < self@.height,
            r matches Some(cell) ==> cell@ == self@.cell(col as int, row as int),
    {
        proof {
            use_type_invariant(self);
        }
        if col < self.width && row < self.height {
            Some(self.cell_at(col, row))
        } else {
            None
        }
    }

    /// The tile of a cell of the grid.
    fn cell_at(&self, col: u16, row: u16) -> (r: TileCell)
        requires
            col < self@.width,
            row < self@.height,
        ensures
            r@ == self@.cell(col as int, row as int),
    {
        proof {
            use_type_invariant(self);
            assert(row * self.width + col < self.width * self.height) by (nonlinear_arith)
                requires
                    0 <= col < self.width,
                    0 <= row < self.height,
            ;
            assert(0 <= row * self.width <= 0xffff * 0xffff) by (nonlinear_arith)
                requires
                    0 <= row <= 0xffff,
                    0 <= self.width <= 0xffff,
            ;
        }
        let index: usize = row as usize * self.width as usize + col as usize;
        TileCell {
            rect: Rect {
                x: col as i32 * TILE_SZ as i32,
                y: row as i32 * TILE_SZ as i32,
                w: TILE_SZ,
                h: TILE_SZ,
            },
            data: self.tiles[index],
        }
    }

    /// The tiles that `shape` may touch: those that the smallest box around
    /// it reaches, whether solid or not.
    pub fn tiles_within(&self, shape: Shape) -> (cells: Vec<TileCell>)
        ensures
            self@.wf(),
            cells_view(cells@) == self@.tiles_within(shape@),
            cells.len() <= (shape@.bounds().w / (TILE_SZ as int) + 2) * (shape@.bounds().h / (
            TILE_SZ as int) + 2),
    {
        proof {
            use_type_invariant(self);
        }
        let ghost bounds = shape@.bounds();
        let ghost rows = self@.rows_within(bounds);
        let (left, top, right, bottom) = bounds_of(&shape);
        let first_col: i64 = if tile_index(left) > 0 {
            tile_index(left)
        } else {
            0
        };
        let last_col: i64 = if tile_index(right) < self.width as i64 - 1 {
            tile_index(right)
        } else {
            self.width as i64 - 1
        };
        let first_row: i64 = if tile_index(top) > 0 {
            tile_index(top)
        } else {
            0
        };
        let last_row: i64 = if tile_index(bottom) < self.height as i64 - 1 {
            tile_index(bottom)
        } else {
            self.height as i64 - 1
        };
        let mut cells: Vec<TileCell> = Vec::new();
        let mut row: i64 = first_row;
        proof {
            assert(rows.take(0) =~= Seq::empty());
            assert(cells_view(cells@) =~= Seq::empty());
        }
        while row <= last_row
            invariant
                first_row == self@.first_row(bounds),
                last_row == self@.last_row(bounds),
                first_col == self@.first_col(bounds),
                last_col == self@.last_col(bounds),
                rows == self@.rows_within(bounds),
                first_row <= row <= last_row + 1 || (row == first_row && last_row < first_row),
                cells_view(cells@) == rows.take(row - first_row).flatten(),
            decreases last_row + 1 - row,
        {
            let ghost before = rows.take(row - first_row).flatten();
            let ghost here = self@.row_cells(row as int, first_col as int, last_col as int);
            let mut col: i64 = first_col;
            proof {
                assert(here.take(0) =~= Seq::empty());
                assert(before + here.take(0) =~= before);
            }
            while col <= last_col
                invariant
                    0 <= first_col,
                    last_col < self@.width,
                    0 <= row < self@.height,
                    here == self@.row_cells(row as int, first_col as int, last_col as int),
                    first_col <= col <= last_col + 1 || (col == first_col && last_col < first_col),
                    cells_view(cells@) == before + here.take(col - first_col),
                decreases last_col + 1 - col,
            {
                let cell = self.cell_at(col as u16, row as u16);
                proof {
                    assert(here.take(col - first_col + 1) =~= here.take(col - first_col).push(
                        cell@,
                    ));
                    assert(cells_view(cells@.push(cell)) =~= cells_view(cells@).push(cell@));
                }
                cells.push(cell);
                col += 1;
            }
            proof {
                assert(here.take(col - first_col) =~= here);
                assert(rows[row - first_row] == here);
                assert(rows.take(row - first_row + 1) =~= rows.take(row - first_row).push(here));
                rows.take(row - first_row).lemma_flatten_push(here);
            }
            row += 1;
        }
        proof {
            assert(rows.take(row - first_row) =~= rows);
            lemma_tiles_within_len(self@, shape@);
        }
        cells
    }
}

/// The number of tiles near a shape is bounded by the size of the shape in
/// tiles, whatever the size of the grid.
pub proof fn lemma_tiles_within_len(level: SpecLevel, shape: SpecShape)
    requires
        shape.bounds().w >= 0,
        shape.bounds().h >= 0,
    ensures
        level.tiles_within(shape).len() == span(
            level.first_row(shape.bounds()),
            level.last_row(shape.bounds()),
        ) * span(level.first_col(shape.bounds()), level.last_col(shape.bounds())),
        level.tiles_within(shape).len() <= (shape.bounds().w / (TILE_SZ as int) + 2) * (
        shape.bounds().h / (TILE_SZ as int) + 2),
{
    let bounds = shape.bounds();
    let cols = span(level.first_col(bounds), level.last_col(bounds));
    let rows = span(level.first_row(bounds), level.last_row(bounds));
    lemma_flatten_even(level.rows_within(bounds), cols);
    let wide = bounds.w / (TILE_SZ as int) + 2;
    let high = bounds.h / (TILE_SZ as int) + 2;
    assert(cols <= wide);
    assert(rows <= high);
    assert(rows * cols <= wide * high) by (nonlinear_arith)
        requires
            0 <= cols <= wide,
            0 <= rows <= high,
    ;
}

/// Whether the cell in column `col` of row `row` is one of the grid and the
/// box reaches it: the box and the cell have a point in common, if only on
/// an edge.
pub open spec fn cell_reached(level: SpecLevel, bounds: SpecRect, col: int, row: int) -> bool {
    &&& 0 <= col < level.width
    &&& 0 <= row < level.height
    &&& col * TILE_SZ <= bounds.right()
    &&& bounds.x < (col + 1) * TILE_SZ
    &&& row * TILE_SZ <= bounds.bottom()
    &&& bounds.y < (row + 1) * TILE_SZ
}

/// Every tile that the level gives for a shape is a tile of the grid that
/// the box around the shape reaches.
pub proof fn lemma_tiles_within_sound(level: SpecLevel, shape: SpecShape, k: int) -> (at: (
    int,
    int,
))
    requires
        0 <= k < level.tiles_within(shape).len(),
    ensures
        cell_reached(level, shape.bounds(), at.0, at.1),
        level.tiles_within(shape)[k] == level.cell(at.0, at.1),
{
    let bounds = shape.bounds();
    let (r, c) = lemma_flatten_origin(level.rows_within(bounds), k);
    (level.first_col(bounds) + c, level.first_row(bounds) + r)
}

/// Every tile of the grid that the box around a shape reaches is among the
/// tiles that the level gives for the shape.
pub proof fn lemma_tiles_within_complete(level: SpecLevel, shape: SpecShape, col: int, row: int)
    requires
        cell_reached(level, shape.bounds(), col, row),
    ensures
        level.tiles_within(shape).contains(level.cell(col, row)),
{
    let bounds = shape.bounds();
    let r = row - level.first_row(bounds);
    let c = col - level.first_col(bounds);
    lemma_flatten_holds(level.rows_within(bounds), r, c);
}

/// What shape `sa`, found at index `i`, gives against each of the cells, in
/// their order: a contact with a solid tile that it overlaps, and nothing
/// with any other. The contact names the place of the cell among `cells`.
pub open spec fn tile_row(i: int, sa: SpecShape, cells: Seq<SpecTileCell>) -> Seq<
    Option<SpecContact>,
> {
    cells.map(
        |j: int, t: SpecTileCell|
            if t.data.solid {
                pair_contact(i, sa, j, SpecShape::Rect(t.rect))
            } else {
                None
            },
    )
}

/// For each shape of `a`, in order, its contacts with the solid tiles among
/// those that the level gives for it.
pub open spec fn level_rows(a: Seq<SpecShape>, level: SpecLevel) -> Seq<Seq<SpecContact>> {
    a.map(|i: int, sa: SpecShape| present(tile_row(i, sa, level.tiles_within(sa))))
}

/// All contacts between the shapes of `a` and the solid tiles of the level,
/// ordered by the index in `a` and then by the place of the tile among those
/// that the level gives for that shape.
pub open spec fn gathered_level(a: Seq<SpecShape>, level: SpecLevel) -> Seq<SpecContact> {
    level_rows(a, level).flatten()
}

/// Adds to `contacts` the contacts of one shape with the solid tiles among
/// `cells`, in the order of `cells`. `a_idx` is the index by which the
/// contacts name the shape.
pub fn gather_tile_contacts(
    a_idx: usize,
    a_shape: Shape,
    cells: &Vec<TileCell>,
    contacts: &mut Vec<Contact>,
)
    ensures
        contacts_view(final(contacts)@) == contacts_view(old(contacts)@) + present(
            tile_row(a_idx as int, a_shape@, cells_view(cells@)),
        ),
{
    let ghost before = contacts_view(contacts@);
    let ghost row = tile_row(a_idx as int, a_shape@, cells_view(cells@));
    let mut b_idx: usize = 0;
    proof {
        assert(row.take(0) =~= Seq::empty());
        assert(before + present(row.take(0)) =~= before);
    }
    while b_idx < cells.len()
        invariant
            b_idx <= cells.len(),
            row == tile_row(a_idx as int, a_shape@, cells_view(cells@)),
            contacts_view(contacts@) == before + present(row.take(b_idx as int)),
        decreases cells.len() - b_idx,
    {
        let cell = cells[b_idx];
        let b_shape = Shape::Rect(cell.rect);
        proof {
            row.lemma_filter_map_take_succ(|c: Option<SpecContact>| c, b_idx as int);
            assert(cells_view(cells@)[b_idx as int] == cell@);
        }
        if cell.data.solid {
            if let Some(overlap) = a_shape.overlap(b_shape) {
                let contact = Contact {
                    a_i: a_idx,
                    a_r: a_shape,
                    b_i: b_idx,
                    b_r: b_shape,
                    displacement: overlap,
                };
                proof {
                    assert(contacts_view(contacts@.push(contact)) =~= contacts_view(
                        contacts@,
                    ).push(contact@));
                }
                contacts.push(contact);
            }
        }
        b_idx += 1;
    }
    proof {
        assert(row.take(cells.len() as int) =~= row);
    }
}

/// Finds every overlap of a shape with a solid tile. For each shape the level
/// is asked for the tiles near it, and only those are tested. Each contact
/// holds the index of its shape in `objs` and the place of its tile among the
/// tiles that the level gave for that shape.
pub fn gather_level_contacts(objs: &Vec<Shape>, level: &Level) -> (contacts: Vec<Contact>)
    ensures
        contacts_view(contacts@) == gathered_level(shapes_view(objs@), level@),
        first_indices_below(contacts_view(contacts@), objs.len() as int),
{
    let ghost a = shapes_view(objs@);
    let ghost rows = level_rows(a, level@);
    let mut contacts: Vec<Contact> = Vec::new();
    let mut a_idx: usize = 0;
    proof {
        assert(rows.take(0) =~= Seq::empty());
        assert(contacts_view(contacts@) =~= Seq::empty());
    }
    while a_idx < objs.len()
        invariant
            a_idx <= objs.len(),
            a == shapes_view(objs@),
            rows == level_rows(a, level@),
            contacts_view(contacts@) == rows.take(a_idx as int).flatten(),
        decreases objs.len() - a_idx,
    {
        let a_shape = objs[a_idx];
        let cells = level.tiles_within(a_shape);
        gather_tile_contacts(a_idx, a_shape, &cells, &mut contacts);
        proof {
            assert(rows[a_idx as int] == present(
                tile_row(a_idx as int, a_shape@, cells_view(cells@)),
            ));
            assert(rows.take(a_idx as int + 1) =~= rows.take(a_idx as int).push(
                rows[a_idx as int],
            ));
            rows.take(a_idx as int).lemma_flatten_push(rows[a_idx as int]);
        }
        a_idx += 1;
    }
    proof {
        assert(rows.take(objs.len() as int) =~= rows);
        lemma_gathered_level_sound(a, level@);
    }
    contacts
}

/// Whether `c` is the contact of a shape of `a` with a solid tile near it
/// that it overlaps: it names the index of the shape and the place of the
/// tile among those that the level gives for the shape, holds the shape and
/// the box of the tile, and its displacement is their penetration.
pub open spec fn is_level_contact_of(c: SpecContact, a: Seq<SpecShape>, level: SpecLevel) -> bool {
    &&& 0 <= c.a_i < a.len()
    &&& 0 <= c.b_i < level.tiles_within(a[c.a_i]).len()
    &&& level.tiles_within(a[c.a_i])[c.b_i].data.solid
    &&& pair_contact(
        c.a_i,
        a[c.a_i],
        c.b_i,
        SpecShape::Rect(level.tiles_within(a[c.a_i])[c.b_i].rect),
    ) == Some(c)
}

/// Every contact gathered against the level is the contact of a shape with a
/// solid tile that it overlaps.
pub proof fn lemma_gathered_level_sound(a: Seq<SpecShape>, level: SpecLevel)
    ensures
        forall|k: int|
            0 <= k < gathered_level(a, level).len() ==> is_level_contact_of(
                #[trigger] gathered_level(a, level)[k],
                a,
                level,
            ),
        first_indices_below(gathered_level(a, level), a.len() as int),
{
    assert forall|k: int| 0 <= k < gathered_level(a, level).len() implies is_level_contact_of(
        #[trigger] gathered_level(a, level)[k],
        a,
        level,
    ) by {
        let (i, at) = lemma_flatten_origin(level_rows(a, level), k);
        let j = lemma_present_origin(tile_row(i, a[i], level.tiles_within(a[i])), at);
    }
}

/// The contacts gathered against the level are ordered by the index of the
/// shape, and those of one shape by the place of the tile among the tiles
/// that the level gives for it.
pub proof fn lemma_gathered_level_ordered(a: Seq<SpecShape>, level: SpecLevel, k: int, l: int)
    requires
        0 <= k < l < gathered_level(a, level).len(),
    ensures
        gathered_level(a, level)[k].a_i < gathered_level(a, level)[l].a_i || (gathered_level(
            a,
            level,
        )[k].a_i == gathered_level(a, level)[l].a_i && gathered_level(a, level)[k].b_i
            < gathered_level(a, level)[l].b_i),
{
    let ((row_k, place_k), (row_l, place_l)) = lemma_flatten_order(level_rows(a, level), k, l);
    if row_k < row_l {
        let cells_k = level.tiles_within(a[row_k]);
        let cells_l = level.tiles_within(a[row_l]);
        let from_k = lemma_present_origin(tile_row(row_k, a[row_k], cells_k), place_k);
        let from_l = lemma_present_origin(tile_row(row_l, a[row_l], cells_l), place_l);
    } else {
        let (from_k, from_l) = lemma_present_order(
            tile_row(row_k, a[row_k], level.tiles_within(a[row_k])),
            place_k,
            place_l,
        );
    }
}

} // verus!
