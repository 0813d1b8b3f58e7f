use linear_tui::palette::{click, Area};

#[test]
fn a_click_on_a_row_picks_it_and_one_outside_closes() {
    let area = Area { x: 10, y: 5, width: 20, height: 8 };
    assert_eq!(click(area, 3, 12, 7), Some(5));
    assert_eq!(click(area, 0, 10, 5), Some(0));
    assert_eq!(click(area, 0, 30, 7), None);
    assert_eq!(click(area, 0, 12, 13), None);
    assert_eq!(click(Area::default(), 0, 0, 0), None);
}
