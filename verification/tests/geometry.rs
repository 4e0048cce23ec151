use engine::geom::{saturate, Circle, Rect, Shape, Vec2};

fn boxed(x: i32, y: i32, w: u16, h: u16) -> Rect {
    Rect { x, y, w, h }
}

fn round(x: i32, y: i32, r: u16) -> Circle {
    Circle { x, y, r }
}

#[test]
fn box_box_overlap_is_exact() {
    let a = boxed(0, 0, 10, 10);
    assert_eq!(a.overlap(boxed(5, 0, 10, 10)), Some(Vec2 { x: 5, y: 10 }));
    assert_eq!(a.overlap(boxed(3, 4, 2, 2)), Some(Vec2 { x: 2, y: 2 }));
    assert_eq!(a.overlap(boxed(-5, -7, 10, 10)), Some(Vec2 { x: 5, y: 3 }));
}

#[test]
fn boxes_that_touch_overlap_by_nothing_on_one_axis() {
    let a = boxed(0, 0, 10, 10);
    assert_eq!(a.overlap(boxed(10, 0, 10, 10)), Some(Vec2 { x: 0, y: 10 }));
    assert_eq!(a.overlap(boxed(0, 10, 10, 10)), Some(Vec2 { x: 10, y: 0 }));
    assert_eq!(a.overlap(boxed(10, 10, 10, 10)), Some(Vec2 { x: 0, y: 0 }));
}

#[test]
fn boxes_apart_do_not_overlap() {
    let a = boxed(0, 0, 10, 10);
    assert_eq!(a.overlap(boxed(11, 0, 10, 10)), None);
    assert_eq!(a.overlap(boxed(0, -11, 10, 10)), None);
    assert_eq!(a.overlap(boxed(-30, -30, 5, 5)), None);
}

#[test]
fn box_overlap_at_the_ends_of_the_range() {
    let low = boxed(i32::MIN, i32::MIN, 10, 10);
    let high = boxed(i32::MAX, i32::MAX, u16::MAX, u16::MAX);
    assert_eq!(low.overlap(high), None);
    assert_eq!(high.overlap(high), Some(Vec2 { x: 65535, y: 65535 }));
    assert_eq!(low.overlap(boxed(i32::MIN + 4, i32::MIN, 10, 3)), Some(Vec2 { x: 6, y: 3 }));
}

#[test]
fn circle_circle_overlap_leads_to_the_midpoint() {
    let a = round(0, 0, 5);
    let b = round(6, 0, 5);
    assert_eq!(a.overlap(b), Some(Vec2 { x: 3, y: 0 }));
    assert_eq!(b.overlap(a), Some(Vec2 { x: -3, y: 0 }));
    assert_eq!(round(0, 0, 5).overlap(round(4, -8, 5)), Some(Vec2 { x: 2, y: -4 }));
}

#[test]
fn circle_circle_halves_round_down() {
    assert_eq!(round(-3, 0, 2).overlap(round(0, 0, 2)), Some(Vec2 { x: 1, y: 0 }));
    assert_eq!(round(0, 0, 2).overlap(round(-3, 0, 2)), Some(Vec2 { x: -2, y: 0 }));
    assert_eq!(round(0, 0, 2).overlap(round(3, 1, 2)), Some(Vec2 { x: 1, y: 0 }));
}

#[test]
fn circles_that_touch_do_not_overlap() {
    assert_eq!(round(0, 0, 5).overlap(round(10, 0, 5)), None);
    assert_eq!(round(0, 0, 5).overlap(round(6, 8, 5)), None);
    assert_eq!(round(0, 0, 5).overlap(round(6, 7, 5)), Some(Vec2 { x: 3, y: 3 }));
}

#[test]
fn circles_far_apart_do_not_overflow() {
    let a = round(i32::MIN, i32::MIN, u16::MAX);
    let b = round(i32::MAX, i32::MAX, u16::MAX);
    assert_eq!(a.overlap(b), None);
    assert_eq!(b.overlap(a), None);
    assert_eq!(b.overlap(b), Some(Vec2 { x: 0, y: 0 }));
}

#[test]
fn circle_box_overlap_is_radius_less_offset() {
    let b = boxed(0, 0, 10, 10);
    assert_eq!(round(5, 5, 3).overlap_rect(b), Some(Vec2 { x: 3, y: 3 }));
    assert_eq!(round(-2, 5, 3).overlap_rect(b), Some(Vec2 { x: 5, y: 3 }));
    assert_eq!(round(13, 5, 3).overlap_rect(b), Some(Vec2 { x: 0, y: 3 }));
    assert_eq!(round(13, 14, 5).overlap_rect(b), Some(Vec2 { x: 2, y: 1 }));
}

#[test]
fn circle_beyond_its_radius_does_not_overlap_a_box() {
    let b = boxed(0, 0, 10, 10);
    assert_eq!(round(14, 5, 3).overlap_rect(b), None);
    assert_eq!(round(13, 14, 4).overlap_rect(b), None);
    assert_eq!(round(i32::MIN, i32::MAX, u16::MAX).overlap_rect(b), None);
}

#[test]
fn shape_overlap_picks_the_rule_by_kind() {
    let b = Shape::Rect(boxed(0, 0, 10, 10));
    let c = Shape::Circle(round(-2, 5, 3));
    let d = Shape::Circle(round(0, 5, 3));
    assert_eq!(b.overlap(Shape::Rect(boxed(5, 0, 10, 10))), Some(Vec2 { x: 5, y: 10 }));
    assert_eq!(c.overlap(b), Some(Vec2 { x: 5, y: 3 }));
    assert_eq!(c.overlap(d), Some(Vec2 { x: 1, y: 0 }));
}

#[test]
fn circle_and_box_mirror_each_other() {
    let b = Shape::Rect(boxed(0, 0, 10, 10));
    let circles =
        [round(5, 5, 3), round(-2, 5, 3), round(13, 14, 5), round(14, 5, 3), round(40, 40, 1)];
    for c in circles {
        let c = Shape::Circle(c);
        assert_eq!(c.overlap(b), b.overlap(c));
    }
}

#[test]
fn overlap_is_symmetric_in_whether_it_exists() {
    let shapes = [
        Shape::Rect(boxed(0, 0, 10, 10)),
        Shape::Rect(boxed(10, 0, 10, 10)),
        Shape::Rect(boxed(25, 25, 1, 1)),
        Shape::Rect(boxed(3, 3, 0, 5)),
        Shape::Circle(round(0, 0, 5)),
        Shape::Circle(round(12, 12, 4)),
        Shape::Circle(round(5, 5, 0)),
        Shape::Circle(round(-40, 7, 9)),
    ];
    for s1 in shapes {
        for s2 in shapes {
            assert_eq!(s1.overlap(s2).is_some(), s2.overlap(s1).is_some());
        }
    }
}

#[test]
fn empty_shapes_overlap_nothing() {
    let empties = [
        Shape::Rect(boxed(0, 0, 0, 10)),
        Shape::Rect(boxed(0, 0, 10, 0)),
        Shape::Rect(boxed(5, 5, 0, 0)),
        Shape::Circle(round(5, 5, 0)),
        Shape::Circle(Circle::new()),
    ];
    let others = [
        Shape::Rect(boxed(0, 0, 10, 10)),
        Shape::Rect(boxed(-100, -100, 300, 300)),
        Shape::Circle(round(5, 5, 50)),
    ];
    for e in empties {
        assert!(e.is_empty());
        assert_eq!(e.overlap(e), None);
        for o in others {
            assert!(!o.is_empty());
            assert_eq!(e.overlap(o), None);
            assert_eq!(o.overlap(e), None);
        }
        for f in empties {
            assert_eq!(e.overlap(f), None);
        }
    }
}

#[test]
fn empty_box_inside_a_box_does_not_overlap() {
    assert_eq!(boxed(0, 0, 10, 10).overlap(boxed(5, 5, 0, 3)), None);
    assert_eq!(boxed(5, 5, 3, 0).overlap(boxed(0, 0, 10, 10)), None);
    assert_eq!(round(5, 5, 0).overlap_rect(boxed(0, 0, 10, 10)), None);
    assert_eq!(round(5, 5, 3).overlap_rect(boxed(0, 0, 10, 0)), None);
    assert_eq!(round(5, 5, 0).overlap(round(5, 5, 3)), None);
}

#[test]
fn is_empty_looks_at_the_extent_only() {
    assert!(boxed(3, 4, 0, 1).is_empty());
    assert!(boxed(3, 4, 1, 0).is_empty());
    assert!(!boxed(3, 4, 1, 1).is_empty());
    assert!(round(3, 4, 0).is_empty());
    assert!(!round(0, 0, 1).is_empty());
    assert!(Circle::new().is_empty());
}

#[test]
fn the_new_circle_is_at_the_origin() {
    assert_eq!(Circle::new(), Circle { x: 0, y: 0, r: 0 });
}

#[test]
fn rect_to_pos_is_the_centre() {
    assert_eq!(boxed(16, 6, 16, 16).rect_to_pos(), Vec2 { x: 24, y: 14 });
    assert_eq!(boxed(0, 0, 5, 7).rect_to_pos(), Vec2 { x: 2, y: 3 });
    assert_eq!(boxed(-9, -9, 3, 1).rect_to_pos(), Vec2 { x: -8, y: -9 });
    assert_eq!(
        boxed(i32::MAX, i32::MAX - 1, 4, 2).rect_to_pos(),
        Vec2 { x: i32::MAX, y: i32::MAX }
    );
}

#[test]
fn origins_and_corners() {
    assert_eq!(boxed(7, -3, 4, 4).origin(), Vec2 { x: 7, y: -3 });
    assert_eq!(round(7, -3, 4).origin(), Vec2 { x: 7, y: -3 });
    assert_eq!(round(10, 10, 4).circ_to_pos(), Vec2 { x: 6, y: 6 });
    assert_eq!(round(i32::MIN, 0, 4).circ_to_pos(), Vec2 { x: i32::MIN, y: -4 });
}

#[test]
fn mag_sq_is_the_squared_length() {
    assert_eq!(Vec2 { x: 3, y: 4 }.mag_sq(), 25);
    assert_eq!(Vec2 { x: -3, y: 4 }.mag_sq(), 25);
    assert_eq!(Vec2 { x: 0, y: 0 }.mag_sq(), 0);
    assert_eq!(Vec2 { x: 2, y: 12 }.mag_sq(), 148);
    assert_eq!(Vec2 { x: i32::MIN, y: i32::MIN }.mag_sq(), 9223372036854775808);
    assert_eq!(Vec2 { x: i32::MAX, y: 0 }.mag_sq(), 4611686014132420609);
}

#[test]
fn vectors_add_and_saturate() {
    assert_eq!(Vec2 { x: 1, y: 2 } + Vec2 { x: 10, y: -20 }, Vec2 { x: 11, y: -18 });
    assert_eq!(Vec2 { x: i32::MAX, y: 0 } + Vec2 { x: 1, y: -1 }, Vec2 { x: i32::MAX, y: -1 });
    assert_eq!(
        Vec2 { x: i32::MIN, y: i32::MIN } + Vec2 { x: -1, y: 1 },
        Vec2 { x: i32::MIN, y: i32::MIN + 1 }
    );
}

#[test]
fn vectors_scale_and_saturate() {
    assert_eq!(Vec2 { x: 3, y: -4 } * 5, Vec2 { x: 15, y: -20 });
    assert_eq!(Vec2 { x: 3, y: -4 } * -1, Vec2 { x: -3, y: 4 });
    assert_eq!(Vec2 { x: 65536, y: 1 } * 65536, Vec2 { x: i32::MAX, y: 65536 });
    assert_eq!(Vec2 { x: i32::MIN, y: 7 } * -1, Vec2 { x: i32::MAX, y: -7 });
}

#[test]
fn add_assign_adds_in_place() {
    let mut v = Vec2 { x: 8, y: 8 };
    v += Vec2 { x: -2, y: 0 };
    assert_eq!(v, Vec2 { x: 6, y: 8 });
    v += Vec2 { x: i32::MAX, y: i32::MIN };
    assert_eq!(v, Vec2 { x: i32::MAX, y: i32::MIN + 8 });
}

#[test]
fn saturate_clamps_to_the_coordinate_range() {
    assert_eq!(saturate(5), 5);
    assert_eq!(saturate(-5), -5);
    assert_eq!(saturate(i32::MAX as i64 + 1), i32::MAX);
    assert_eq!(saturate(i32::MIN as i64 - 1), i32::MIN);
    assert_eq!(saturate(i64::MAX), i32::MAX);
    assert_eq!(saturate(i64::MIN), i32::MIN);
}
