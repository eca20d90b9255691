use trafmon::placement::{detail_position, work_area_or_fallback, WorkArea, FALLBACK_EXTENT};

fn screen() -> WorkArea {
    WorkArea { x: 0, y: 0, width: 1920, height: 1040 }
}

#[test]
fn opens_below_when_it_fits() {
    assert_eq!(detail_position(100, 100, 66, 4, screen(), 200, 150), Some((100, 170)));
}

#[test]
fn opens_above_near_the_bottom() {
    // widget docked in the bottom-right corner: above it, pulled left
    assert_eq!(detail_position(1800, 1000, 66, 4, screen(), 200, 150), Some((1720, 846)));
}

#[test]
fn picks_the_roomier_side_when_neither_fits() {
    let area = WorkArea { x: 0, y: 0, width: 800, height: 300 };
    // below: 300 - (100 + 66) - 4 = 130; above: 100 - 0 - 4 = 96; panel 250 fits neither
    assert_eq!(detail_position(10, 100, 66, 4, area, 100, 250), Some((10, 50)));
    // now above is roomier: below 300 - (180 + 66) - 4 = 50, above 176
    assert_eq!(detail_position(10, 180, 66, 4, area, 100, 250), Some((10, 0)));
}

#[test]
fn pulled_back_inside_the_left_edge() {
    let area = WorkArea { x: 0, y: 0, width: 1920, height: 1040 };
    assert_eq!(detail_position(-50, 100, 66, 4, area, 200, 150), Some((0, 170)));
}

#[test]
fn panel_wider_than_the_screen_sticks_to_the_left_edge() {
    let area = WorkArea { x: 10, y: 20, width: 100, height: 100 };
    assert_eq!(detail_position(50, 30, 10, 2, area, 300, 50), Some((10, 42)));
}

#[test]
fn fits_inside_when_small_enough() {
    let area = screen();
    for (mx, my) in [(0, 0), (1900, 0), (0, 1030), (1900, 1030), (960, 520)] {
        let (x, y) = detail_position(mx, my, 66, 4, area, 300, 200).unwrap();
        assert!(x >= 0 && x + 300 <= 1920);
        assert!(y >= 0 && y + 200 <= 1040);
    }
}

#[test]
fn overflowing_geometry_gives_none() {
    let area = WorkArea { x: i32::MAX - 10, y: 0, width: 100, height: 100 };
    assert_eq!(detail_position(0, 0, 10, 4, area, 10, 10), None);
}

#[test]
fn fallback_area_when_monitor_is_unknown() {
    assert_eq!(
        work_area_or_fallback(None, 5, 7),
        WorkArea { x: 5, y: 7, width: FALLBACK_EXTENT, height: FALLBACK_EXTENT }
    );
    assert_eq!(FALLBACK_EXTENT, 1 << 20);
    assert_eq!(work_area_or_fallback(Some(screen()), 5, 7), screen());
}
