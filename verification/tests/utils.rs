use std::collections::BTreeMap;

use termesh::drawille::utils::btree_minmax;
use termesh::drawille::Canvas;

#[test]
fn an_empty_map_has_no_least_key() {
    let map: BTreeMap<i32, u8> = BTreeMap::new();
    assert_eq!(btree_minmax(&map), None);
}

#[test]
fn a_single_key_is_the_least_and_the_greatest() {
    let mut map = BTreeMap::new();
    map.insert(-7, "a");
    assert_eq!(btree_minmax(&map), Some((-7, -7)));
}

#[test]
fn keys_are_ordered_as_numbers() {
    let mut map = BTreeMap::new();
    for key in [3, -20, 11, 0, i32::MAX, -1, i32::MIN, 5] {
        map.insert(key, ());
    }
    assert_eq!(btree_minmax(&map), Some((i32::MIN, i32::MAX)));
    map.remove(&i32::MIN);
    map.remove(&i32::MAX);
    assert_eq!(btree_minmax(&map), Some((-20, 11)));
}

#[test]
fn the_background_is_the_fourth_gray() {
    assert_eq!(Canvas::background_color(), 3);
    let color = termion::color::AnsiValue::grayscale(Canvas::background_color());
    assert_eq!(format!("{}", termion::color::Bg(color)), "\u{1b}[48;5;235m");
}
