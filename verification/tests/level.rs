use engine::contact::Contact;
use engine::entity::EntityType;
use engine::geom::{Circle, Rect, Shape, Vec2};
use engine::level::{gather_level_contacts, gather_tile_contacts, Level, Start, TileCell, TileData};
use engine::sprite::SheetRegion;

const OPEN: TileData = TileData {
    solid: false,
    sheet_region: SheetRegion { sheet: 0, depth: 0, x: 0, y: 0, w: 16, h: 16 },
};
const WALL: TileData = TileData {
    solid: true,
    sheet_region: SheetRegion { sheet: 0, depth: 0, x: 16, y: 0, w: 16, h: 16 },
};

fn grid(width: u16, height: u16, walls: &[(u16, u16)]) -> Level {
    let mut tiles = Vec::new();
    for row in 0..height {
        for col in 0..width {
            tiles.push(if walls.contains(&(col, row)) { WALL } else { OPEN });
        }
    }
    match Level::new(width, height, tiles, Vec::new()) {
        Some(level) => level,
        None => panic!("one tile for each cell"),
    }
}

fn cell(col: i32, row: i32, data: TileData) -> TileCell {
    TileCell { rect: Rect { x: col * 16, y: row * 16, w: 16, h: 16 }, data }
}

fn boxed(x: i32, y: i32, w: u16, h: u16) -> Shape {
    Shape::Rect(Rect { x, y, w, h })
}

#[test]
fn level_needs_one_tile_for_each_cell() {
    assert!(Level::new(2, 2, vec![OPEN; 4], Vec::new()).is_some());
    assert!(Level::new(2, 2, vec![OPEN; 3], Vec::new()).is_none());
    assert!(Level::new(2, 2, vec![OPEN; 5], Vec::new()).is_none());
    assert!(Level::new(0, 9, Vec::new(), Vec::new()).is_some());
    assert!(Level::new(0, 0, vec![OPEN], Vec::new()).is_none());
}

#[test]
fn level_knows_its_size_and_tiles() {
    let level = grid(4, 3, &[(1, 0), (3, 2)]);
    assert_eq!(level.width(), 4);
    assert_eq!(level.height(), 3);
    assert_eq!(level.get_tile(1, 0), Some(cell(1, 0, WALL)));
    assert_eq!(level.get_tile(0, 1), Some(cell(0, 1, OPEN)));
    assert_eq!(level.get_tile(3, 2), Some(cell(3, 2, WALL)));
    assert_eq!(level.get_tile(4, 0), None);
    assert_eq!(level.get_tile(0, 3), None);
}

#[test]
fn tiles_within_gives_the_cells_that_the_box_reaches() {
    let level = grid(4, 3, &[(1, 0)]);
    assert_eq!(
        level.tiles_within(boxed(6, 6, 12, 12)),
        vec![cell(0, 0, OPEN), cell(1, 0, WALL), cell(0, 1, OPEN), cell(1, 1, OPEN)]
    );
    assert_eq!(level.tiles_within(boxed(17, 1, 3, 3)), vec![cell(1, 0, WALL)]);
    assert_eq!(
        level.tiles_within(boxed(40, 20, 30, 1)),
        vec![cell(2, 1, OPEN), cell(3, 1, OPEN)]
    );
}

#[test]
fn tiles_within_counts_a_box_on_an_edge_for_both_sides() {
    let level = grid(4, 3, &[]);
    assert_eq!(
        level.tiles_within(boxed(0, 0, 16, 16)),
        vec![cell(0, 0, OPEN), cell(1, 0, OPEN), cell(0, 1, OPEN), cell(1, 1, OPEN)]
    );
    assert_eq!(level.tiles_within(boxed(0, 0, 15, 15)), vec![cell(0, 0, OPEN)]);
}

#[test]
fn tiles_within_stays_inside_the_grid() {
    let level = grid(4, 3, &[(0, 0)]);
    assert_eq!(level.tiles_within(boxed(-20, -20, 10, 10)), Vec::new());
    assert_eq!(level.tiles_within(boxed(-20, -20, 21, 21)), vec![cell(0, 0, WALL)]);
    assert_eq!(level.tiles_within(boxed(64, 0, 10, 10)), Vec::new());
    assert_eq!(level.tiles_within(boxed(0, 48, 10, 10)), Vec::new());
    assert_eq!(
        level.tiles_within(boxed(50, 40, 500, 500)),
        vec![cell(3, 2, OPEN)]
    );
    assert_eq!(level.tiles_within(boxed(i32::MIN, i32::MIN, 10, 10)), Vec::new());
    assert_eq!(level.tiles_within(boxed(i32::MAX, i32::MAX, u16::MAX, u16::MAX)), Vec::new());
    assert_eq!(grid(0, 0, &[]).tiles_within(boxed(0, 0, 10, 10)), Vec::new());
}

#[test]
fn tiles_within_of_everything_is_the_grid_row_by_row() {
    let level = grid(2, 2, &[(1, 1)]);
    assert_eq!(
        level.tiles_within(boxed(-100, -100, 1000, 1000)),
        vec![cell(0, 0, OPEN), cell(1, 0, OPEN), cell(0, 1, OPEN), cell(1, 1, WALL)]
    );
}

#[test]
fn tiles_within_goes_by_the_box_around_a_circle() {
    let level = grid(4, 3, &[]);
    let circle = Shape::Circle(Circle { x: 24, y: 24, r: 8 });
    assert_eq!(
        level.tiles_within(circle),
        vec![cell(1, 1, OPEN), cell(2, 1, OPEN), cell(1, 2, OPEN), cell(2, 2, OPEN)]
    );
    let small = Shape::Circle(Circle { x: 24, y: 24, r: 7 });
    assert_eq!(level.tiles_within(small), vec![cell(1, 1, OPEN)]);
}

#[test]
fn level_contacts_are_with_solid_tiles_only() {
    let level = grid(4, 3, &[(1, 0), (3, 2)]);
    let objs = vec![boxed(100, 100, 5, 5), boxed(6, 6, 12, 12), boxed(40, 30, 12, 12)];
    assert_eq!(
        gather_level_contacts(&objs, &level),
        vec![
            Contact {
                a_i: 1,
                a_r: objs[1],
                b_i: 1,
                b_r: boxed(16, 0, 16, 16),
                displacement: Vec2 { x: 2, y: 10 },
            },
            Contact {
                a_i: 2,
                a_r: objs[2],
                b_i: 3,
                b_r: boxed(48, 32, 16, 16),
                displacement: Vec2 { x: 4, y: 10 },
            },
        ]
    );
}

#[test]
fn level_contacts_of_a_box_in_a_corner() {
    let level = grid(3, 3, &[(0, 0), (1, 0), (2, 0), (0, 1), (0, 2)]);
    let objs = vec![boxed(14, 12, 12, 12)];
    assert_eq!(
        gather_level_contacts(&objs, &level),
        vec![
            Contact {
                a_i: 0,
                a_r: objs[0],
                b_i: 0,
                b_r: boxed(0, 0, 16, 16),
                displacement: Vec2 { x: 2, y: 4 },
            },
            Contact {
                a_i: 0,
                a_r: objs[0],
                b_i: 1,
                b_r: boxed(16, 0, 16, 16),
                displacement: Vec2 { x: 10, y: 4 },
            },
            Contact {
                a_i: 0,
                a_r: objs[0],
                b_i: 2,
                b_r: boxed(0, 16, 16, 16),
                displacement: Vec2 { x: 2, y: 8 },
            },
        ]
    );
}

#[test]
fn tile_contacts_are_added_behind_what_is_there() {
    let first = Contact {
        a_i: 9,
        a_r: boxed(0, 0, 1, 1),
        b_i: 9,
        b_r: boxed(0, 0, 1, 1),
        displacement: Vec2 { x: 1, y: 1 },
    };
    let mut contacts = vec![first];
    let cells = vec![cell(0, 0, OPEN), cell(1, 0, WALL), cell(5, 5, WALL), cell(0, 1, WALL)];
    let body = boxed(6, 6, 12, 12);
    gather_tile_contacts(4, body, &cells, &mut contacts);
    assert_eq!(
        contacts,
        vec![
            first,
            Contact {
                a_i: 4,
                a_r: body,
                b_i: 1,
                b_r: boxed(16, 0, 16, 16),
                displacement: Vec2 { x: 2, y: 10 },
            },
            Contact {
                a_i: 4,
                a_r: body,
                b_i: 3,
                b_r: boxed(0, 16, 16, 16),
                displacement: Vec2 { x: 10, y: 2 },
            },
        ]
    );
}

#[test]
fn starts_are_found_by_kind() {
    let starts = vec![
        Start { etype: EntityType::Enemy, pos: Vec2 { x: 1, y: 1 } },
        Start { etype: EntityType::Player2, pos: Vec2 { x: 2, y: 2 } },
        Start { etype: EntityType::Enemy, pos: Vec2 { x: 3, y: 3 } },
        Start { etype: EntityType::Player1, pos: Vec2 { x: 4, y: 4 } },
    ];
    let level = match Level::new(1, 1, vec![OPEN], starts.clone()) {
        Some(level) => level,
        None => panic!("one tile for each cell"),
    };
    assert_eq!(level.starts(), &starts);
    assert_eq!(level.start_of(EntityType::Enemy), Some(Vec2 { x: 1, y: 1 }));
    assert_eq!(level.start_of(EntityType::Player1), Some(Vec2 { x: 4, y: 4 }));
    assert_eq!(level.start_of(EntityType::Player2), Some(Vec2 { x: 2, y: 2 }));
    assert_eq!(level.start_of(EntityType::Door), None);
    assert_eq!(level.start_of(EntityType::PProjectile), None);
}
