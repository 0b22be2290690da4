use engine3d::components::{ComponentStorage, DenseColumn, SparseColumn};
use engine3d::render::{Rect, Rgba, Vec2i};
use std::collections::HashMap;

#[test]
fn translate_moves_the_corner_and_keeps_the_extent() {
    let mut r = Rect { x: 10, y: -4, w: 100, h: 50 };
    r.translate(-12, 6);
    assert_eq!(r, Rect { x: -2, y: 2, w: 100, h: 50 });
}

#[test]
fn screen_value_types_compare_by_fields() {
    assert_eq!(Vec2i(3, -7), Vec2i(3, -7));
    assert_ne!(Vec2i(3, -7), Vec2i(3, 7));
    assert_eq!(Rgba(1, 2, 3, 255), Rgba(1, 2, 3, 255));
    assert_ne!(Rgba(1, 2, 3, 255), Rgba(1, 2, 3, 0));
}

#[test]
fn dense_columns_grow_by_one_empty_slot() {
    let mut col: DenseColumn<u32> = DenseColumn { kind: 3, taken: false, slots: vec![Some(7)] };
    col.push_none();
    assert_eq!(col.slots, vec![Some(7), None]);
    assert_eq!(col.kind, 3);
}

#[test]
fn sparse_columns_do_not_grow_per_entity() {
    let mut map: HashMap<usize, u32> = HashMap::new();
    map.insert(4, 9);
    let mut col: SparseColumn<u32> = SparseColumn { kind: 1, taken: false, map };
    col.push_none();
    assert_eq!(col.map.len(), 1);
    assert_eq!(col.map.get(&4), Some(&9));
}
