use mycon::{Delta, Point};

#[test]
fn delta_reverse_twice() {
    for &d in [Delta { dx: 1, dy: 0 }, Delta { dx: -3, dy: 7 }, Delta { dx: i32::MIN, dy: i32::MAX }].iter() {
        assert_eq!(d, d.reverse().reverse());
    }
    assert_eq!(Delta { dx: -1, dy: 0 }, Delta { dx: 1, dy: 0 }.reverse());
}

#[test]
fn delta_rotations() {
    let d = Delta { dx: 1, dy: 0 };
    assert_eq!(Delta { dx: 0, dy: -1 }, d.rotate_left());
    assert_eq!(Delta { dx: 0, dy: 1 }, d.rotate_right());
    for &d in [Delta { dx: 2, dy: -5 }, Delta { dx: i32::MIN, dy: 3 }].iter() {
        assert_eq!(d, d.rotate_right().rotate_left());
        assert_eq!(d, d.rotate_left().rotate_right());
    }
}

#[test]
fn point_arithmetic_wraps() {
    let p = Point { x: i32::MAX, y: 0 };
    assert_eq!(Point { x: i32::MIN, y: 1 }, p.add(Delta { dx: 1, dy: 1 }));
    assert_eq!(p, p.add(Delta { dx: 1, dy: 1 }).sub(Delta { dx: 1, dy: 1 }));
    assert_eq!(Delta { dx: 6, dy: -9 }, Delta { dx: 2, dy: -3 }.mul(3));
}
