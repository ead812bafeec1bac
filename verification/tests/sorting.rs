//! The stable ordering of elements by z-order key.

use vector_engine::elements::Color;
use vector_engine::elements::Elements;
use vector_engine::elements::Rect;
use vector_engine::elements::Vec2;
use vector_engine::sort::sort_by_order;

fn marked_rect(order: i64, mark: u8) -> Elements {
    Elements::Rect(Rect {
        position: Vec2 { x: mark as i64, y: 0 },
        origin: Vec2 { x: 0, y: 0 },
        size: Vec2 { x: 1, y: 1 },
        rotation: 0,
        color: Color { r: mark, g: 0, b: 0, a: 255 },
        radius: 0,
        order,
    })
}

fn orders(v: &[Elements]) -> Vec<i64> {
    v.iter().map(|e| e.get_order()).collect()
}

fn marks(v: &[Elements]) -> Vec<u8> {
    v.iter()
        .map(|e| match e {
            Elements::Rect(r) => r.color.r,
            _ => 0,
        })
        .collect()
}

#[test]
fn sorts_ascending_by_order() {
    let v = vec![marked_rect(3, 1), marked_rect(1, 2), marked_rect(2, 3)];
    let sorted = sort_by_order(v);
    assert_eq!(orders(&sorted), vec![1, 2, 3]);
    assert_eq!(marks(&sorted), vec![2, 3, 1]);
}

#[test]
fn sorting_twice_equals_sorting_once() {
    let v = vec![
        marked_rect(5, 1),
        marked_rect(-2, 2),
        marked_rect(5, 3),
        marked_rect(0, 4),
        marked_rect(-2, 5),
    ];
    let copy = v.iter().map(|e| e.clone()).collect::<Vec<_>>();
    let once = sort_by_order(v);
    let twice = sort_by_order(sort_by_order(copy));
    assert_eq!(once, twice);
}

#[test]
fn ties_keep_insertion_order() {
    let v = vec![
        marked_rect(1, 10),
        marked_rect(0, 20),
        marked_rect(1, 11),
        marked_rect(0, 21),
        marked_rect(1, 12),
    ];
    let sorted = sort_by_order(v);
    assert_eq!(orders(&sorted), vec![0, 0, 1, 1, 1]);
    assert_eq!(marks(&sorted), vec![20, 21, 10, 11, 12]);
}

#[test]
fn sorted_input_comes_back_unchanged() {
    let v = vec![marked_rect(1, 1), marked_rect(2, 2), marked_rect(3, 3)];
    let copy = v.iter().map(|e| e.clone()).collect::<Vec<_>>();
    assert_eq!(sort_by_order(v), copy);
}

#[test]
fn empty_and_singleton_sort() {
    assert_eq!(sort_by_order(vec![]), vec![]);
    let one = vec![marked_rect(9, 1)];
    let copy = one.iter().map(|e| e.clone()).collect::<Vec<_>>();
    assert_eq!(sort_by_order(one), copy);
}
