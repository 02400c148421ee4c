use typst_memtables::table_strokes::{resolve_sides, Sides};

fn sides<T>(left: T, top: T, right: T, bottom: T) -> Sides<T> {
    Sides { left, top, right, bottom }
}

#[test]
fn cell_attribute_is_omitted_when_it_matches_the_table() {
    assert_eq!(resolve_sides(sides(None, None, None, None), Some(1), Some(0)), None);
    assert_eq!(resolve_sides(sides(Some(1), None, Some(1), None), Some(1), Some(0)), None);
    assert_eq!(resolve_sides(sides(None, None, None, None), None, None), None);
}

#[test]
fn differing_side_fills_the_rest_with_the_default() {
    assert_eq!(
        resolve_sides(sides(Some(2), None, Some(1), None), Some(1), Some(0)),
        Some(sides(2, 0, 1, 0))
    );
}

#[test]
fn without_default_the_first_present_value_fills_the_rest() {
    assert_eq!(
        resolve_sides(sides(None, Some(3), None, Some(4)), None, None),
        Some(sides(3, 3, 3, 4))
    );
    assert_eq!(
        resolve_sides(sides(Some(5), Some(5), Some(5), Some(5)), Some(1), None),
        Some(sides(5, 5, 5, 5))
    );
}
