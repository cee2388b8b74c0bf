use plato::geom::{divide, halves, big_half, small_half, Point, Rectangle, Dir, Axis, rect_cmp};
use std::cmp::Ordering;

fn rect(x0: i32, y0: i32, x1: i32, y1: i32) -> Rectangle {
    Rectangle::new(Point::new(x0, y0), Point::new(x1, y1))
}

#[test]
fn overlaping_rectangles() {
    let a = rect(2, 2, 10, 10);
    let b = rect(2, 5, 3, 6);
    let c = rect(1, 3, 2, 7);
    let d = rect(9, 9, 12, 12);
    let e = rect(4, 3, 5, 6);
    assert!(b.overlaps(&a));
    assert!(!c.overlaps(&a));
    assert!(d.overlaps(&a));
    assert!(e.overlaps(&a));
    assert!(a.overlaps(&e));
}

#[test]
fn contained_rectangles() {
    let a = rect(2, 2, 10, 10);
    let b = rect(4, 3, 5, 6);
    let c = rect(4, 3, 12, 9);
    assert!(a.contains(&b));
    assert!(!b.contains(&a));
    assert!(!a.contains(&c));
    assert!(c.contains(&b));
}

#[test]
fn divide_integers() {
    let a: i32 = 73;
    let b: i32 = 23;
    let v = divide(a, b);
    let s: i32 = v.iter().sum();
    assert_eq!(v.len(), b as usize);
    assert_eq!(s, a);
    assert_eq!(v.iter().max(), Some(&4));
    assert_eq!(v.iter().min(), Some(&3));
}

#[test]
fn divide_spreads_the_remainder() {
    assert_eq!(divide(10, 4), vec![2, 3, 2, 3]);
    assert_eq!(divide(7, 7), vec![1; 7]);
    assert_eq!(divide(3, 0), Vec::<i32>::new());
    assert_eq!(divide(-7, 2), vec![-3, -3]);
    assert_eq!(divide(0, 3), vec![0, 0, 0]);
}

#[test]
fn halves_of_odd_and_negative_numbers() {
    assert_eq!(halves(7), (3, 4));
    assert_eq!(halves(-7), (-3, -4));
    assert_eq!(small_half(9), 4);
    assert_eq!(big_half(9), 5);
}

#[test]
fn directions() {
    assert_eq!(Dir::North.opposite(), Dir::South);
    assert_eq!(Dir::West.opposite().opposite(), Dir::West);
    assert!(matches!(Dir::East.axis(), Axis::Horizontal));
    assert!(matches!(Dir::South.axis(), Axis::Vertical));
    assert_eq!(Point::new(3, -1).dir(), Dir::East);
    assert_eq!(Point::new(-3, 1).dir(), Dir::West);
    assert_eq!(Point::new(1, 1).dir(), Dir::South);
    assert_eq!(Point::new(0, -2).dir(), Dir::North);
}

#[test]
fn distances_and_sizes() {
    assert_eq!(Point::new(1, 2).dist2(&Point::new(4, 6)), 25);
    let r = rect(1, 2, 4, 7);
    assert_eq!(r.width(), 3);
    assert_eq!(r.height(), 5);
    assert_eq!(r.area(), 15);
    assert!(!r.is_empty());
    assert!(rect(3, 3, 3, 5).is_empty());
    assert!(r.includes(&Point::new(1, 2)));
    assert!(!r.includes(&Point::new(4, 2)));
}

#[test]
fn growing_rectangles() {
    let mut r = Rectangle::from_point(&Point::new(2, 3));
    assert_eq!(r, rect(2, 3, 3, 4));
    r.merge(&Point::new(5, 1));
    assert_eq!(r, rect(2, 1, 6, 4));
    r.absorb(&rect(0, 0, 1, 10));
    assert_eq!(r, rect(0, 0, 6, 10));
    assert_eq!(Rectangle::from_disk(&Point::new(5, 5), 2), rect(3, 3, 7, 7));
}

#[test]
fn intersecting_rectangles() {
    let a = rect(0, 0, 10, 10);
    let b = rect(5, 5, 15, 15);
    assert_eq!(a.intersection(&b), Some(rect(5, 5, 10, 10)));
    assert_eq!(b.intersection(&a), Some(rect(5, 5, 10, 10)));
    assert_eq!(a.intersection(&rect(10, 0, 12, 5)), None);
}

#[test]
fn reading_order_of_rectangles() {
    let a = rect(0, 0, 10, 10);
    assert_eq!(rect_cmp(&a, &rect(0, 20, 5, 30)), Ordering::Less);
    assert_eq!(rect_cmp(&rect(0, 20, 5, 30), &a), Ordering::Greater);
    assert_eq!(rect_cmp(&a, &rect(20, 5, 25, 8)), Ordering::Less);
    assert_eq!(rect_cmp(&a, &rect(5, 5, 25, 8)), Ordering::Equal);
}
