use mycon::{Point, Space};

const SPACE: i32 = 32;

#[test]
fn space_space_get_uninit() {
    let space = Space::new();

    assert_eq!(SPACE, space.get(Point { x: 0, y: 0 }));
}

#[test]
fn space_space_get_empty() {
    let mut space = Space::new();

    space.set(Point { x: 0, y: 0 }, 40);

    assert_eq!(SPACE, space.get(Point { x: 1, y: 0 }));
}

#[test]
fn space_space_set_get() {
    let mut space = Space::new();

    let position = Point { x: 3, y: 6 };
    let value = 45;

    space.set(position, value);

    assert_eq!(value, space.get(position));
}

#[test]
fn space_space_set_get_large() {
    let mut space = Space::new();

    let position = Point { x: 2147483647, y: -1029771328 };
    let value = 1307812;

    space.set(position, value);

    assert_eq!(value, space.get(position));
}

#[test]
fn space_space_set_get_multiple() {
    let mut space = Space::new();

    let data = [
        (Point { x: 0, y: 0 }, 12),
        (Point { x: 3, y: 2 }, 0),
        (Point { x: -2, y: -1 }, -42),
        (Point { x: 1, y: -3 }, 6),
    ];

    for &(p, v) in data.iter() {
        space.set(p, v);
    }

    for &(p, v) in data.iter() {
        assert_eq!(v, space.get(p));
    }
}

#[test]
fn space_space_init_bounds() {
    let mut space = Space::new();

    let (x, y) = (2, -3);

    space.set(Point { x, y }, 12);

    assert_eq!((x, y), space.min());
    assert_eq!((x, y), space.max());
}

#[test]
fn space_space_grow_bounds() {
    let mut space = Space::new();

    space.set(Point { x: 0, y: 0 }, 42);

    let (x0, y0) = (-3, 5);
    let (x1, y1) = (2, -1);

    space.set(Point { x: x0, y: y0 }, 1);
    space.set(Point { x: x1, y: y1 }, 2);

    assert_eq!((-3, -1), space.min());
    assert_eq!((2, 5), space.max());
}

#[test]
fn space_space_keep_bounds() {
    let mut space = Space::new();

    space.set(Point { x: 0, y: 0 }, 42);
    space.set(Point { x: -2, y: 3 }, SPACE);

    assert_eq!((0, 0), space.min());
    assert_eq!((0, 0), space.max());
}

#[test]
fn space_read() {
    let code = "123\n456\n789";
    let space = Space::read(code);

    for i in 0..9 {
        assert_eq!(i + '1' as i32, space.get(Point { x: i % 3, y: i / 3 }));
    }

    assert_eq!((2, 2), space.max());
}

#[test]
fn space_read_bounds() {
    let code = " a  b\nc d\n e";
    let space = Space::read(code);

    let nx: Vec<u64> = (0..5).map(|x| space.column_count(x)).collect();
    let ny: Vec<u64> = (0..3).map(|y| space.row_count(y)).collect();

    assert_eq!(vec![1, 2, 1, 0, 1], nx);
    assert_eq!(vec![2, 2, 1], ny);
}

#[test]
fn mod_space_get_uninit() {
    let space = Space::new();

    assert_eq!(SPACE, space.get(Point { x: 0, y: 0 }));
}

#[test]
fn mod_space_get_empty() {
    let mut space = Space::new();

    space.set(Point { x: 0, y: 0 }, 40);

    assert_eq!(SPACE, space.get(Point { x: 1, y: 0 }));
}

#[test]
fn mod_space_set_get() {
    let mut space = Space::new();

    let position = Point { x: 3, y: 6 };
    let value = 45;

    space.set(position, value);

    assert_eq!(value, space.get(position));
}

#[test]
fn mod_space_set_get_large() {
    let mut space = Space::new();

    let position = Point { x: 2147483647, y: -1029771328 };
    let value = 1307812;

    space.set(position, value);

    assert_eq!(value, space.get(position));
}

#[test]
fn mod_space_set_get_multiple() {
    let mut space = Space::new();

    let data = [
        (Point { x: 0, y: 0 }, 12),
        (Point { x: 3, y: 2 }, 0),
        (Point { x: -2, y: -1 }, -42),
        (Point { x: 1, y: -3 }, 6),
    ];

    for &(p, v) in data.iter() {
        space.set(p, v);
    }

    for &(p, v) in data.iter() {
        assert_eq!(v, space.get(p));
    }
}

// The bounding box spans exactly the occupied cells, so a single cell away
// from the origin is both corners of it.
#[test]
fn mod_space_init_bounds() {
    let mut space = Space::new();

    let (x, y) = (2, -3);

    space.set(Point { x, y }, 12);

    assert_eq!((x, y), space.min());
    assert_eq!((x, y), space.max());
}

#[test]
fn mod_space_grow_bounds() {
    let mut space = Space::new();

    space.set(Point { x: 0, y: 0 }, 42);

    let (x0, y0) = (-3, 5);
    let (x1, y1) = (2, -1);

    space.set(Point { x: x0, y: y0 }, 1);
    space.set(Point { x: x1, y: y1 }, 2);

    assert_eq!((-3, -1), space.min());
    assert_eq!((2, 5), space.max());
}

#[test]
fn mod_space_keep_bounds() {
    let mut space = Space::new();

    space.set(Point { x: 0, y: 0 }, 42);
    space.set(Point { x: -2, y: 3 }, SPACE);

    assert_eq!((0, 0), space.min());
    assert_eq!((0, 0), space.max());
}

#[test]
fn space_from() {
    let code = "123\n456\n789";
    let space = Space::read(code);

    for i in 0..9 {
        assert_eq!(i + '1' as i32, space.get(Point { x: i % 3, y: i / 3 }));
    }

    assert_eq!((2, 2), space.max());
}

#[test]
fn space_bounds_shrink_after_clearing() {
    let mut space = Space::new();

    space.set(Point { x: 0, y: 0 }, 42);
    space.set(Point { x: 5, y: 7 }, 43);
    assert_eq!((5, 7), space.max());

    space.set(Point { x: 5, y: 7 }, SPACE);
    assert_eq!((0, 0), space.min());
    assert_eq!((0, 0), space.max());

    space.set(Point { x: 0, y: 0 }, SPACE);
    assert_eq!((0, 0), space.min());
    assert_eq!((0, 0), space.max());
}

#[test]
fn space_write_space_to_empty_keeps_bounds() {
    let mut space = Space::new();

    space.set(Point { x: 1, y: 1 }, 65);
    space.set(Point { x: -100, y: 900 }, SPACE);

    assert_eq!((1, 1), space.min());
    assert_eq!((1, 1), space.max());
    assert_eq!(SPACE, space.get(Point { x: -100, y: 900 }));
}

#[test]
fn space_read_skips_form_feed_and_carriage_return() {
    let space = Space::read("a\x0cb\r\nc");

    assert_eq!('a' as i32, space.get(Point { x: 0, y: 0 }));
    assert_eq!('b' as i32, space.get(Point { x: 1, y: 0 }));
    assert_eq!(SPACE, space.get(Point { x: 2, y: 0 }));
    assert_eq!('c' as i32, space.get(Point { x: 0, y: 1 }));
}

#[test]
fn space_new_position_steps_inside() {
    let space = Space::read("abc\ndef");

    assert_eq!(Point { x: 1, y: 0 }, space.new_position(Point { x: 0, y: 0 }, mycon::Delta { dx: 1, dy: 0 }));
    assert!(!space.is_last(Point { x: 0, y: 0 }, mycon::Delta { dx: 1, dy: 0 }));
}

#[test]
fn space_new_position_wraps() {
    let space = Space::read("abc\ndef");

    assert!(space.is_last(Point { x: 2, y: 1 }, mycon::Delta { dx: 1, dy: 0 }));
    assert_eq!(Point { x: 0, y: 1 }, space.new_position(Point { x: 2, y: 1 }, mycon::Delta { dx: 1, dy: 0 }));
    assert_eq!(Point { x: 2, y: 0 }, space.new_position(Point { x: 0, y: 0 }, mycon::Delta { dx: -1, dy: 0 }));
    assert_eq!(Point { x: 1, y: 1 }, space.new_position(Point { x: 1, y: 0 }, mycon::Delta { dx: 0, dy: -1 }));
    assert_eq!(Point { x: 0, y: 0 }, space.new_position(Point { x: 2, y: 1 }, mycon::Delta { dx: 2, dy: 1 }));
}
