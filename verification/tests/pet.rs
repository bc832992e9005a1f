use clawmon_core::pet::{can_park, fits, hit_test, hits, park, Area, Look};

const WINDOW: Area = Area {
    x: 100,
    y: 200,
    width: 110,
    height: 110,
};

fn look(dragging: bool, x: i32, y: i32) -> Look {
    Look {
        dragging,
        at: Some((WINDOW, x, y)),
    }
}

#[test]
fn the_rim_is_not_part_of_the_pet() {
    assert!(hits(WINDOW, 106, 206));
    assert!(hits(WINDOW, 203, 303));
    assert!(!hits(WINDOW, 105, 206));
    assert!(!hits(WINDOW, 106, 205));
    assert!(!hits(WINDOW, 204, 303));
    assert!(!hits(WINDOW, 203, 304));
    assert!(!hits(WINDOW, 100, 200));
}

#[test]
fn the_window_is_set_only_when_it_changes() {
    let (through, set) = hit_test(None, look(false, 0, 0));
    assert_eq!((through, set), (Some(true), Some(true)));
    let (through, set) = hit_test(through, look(false, 1, 1));
    assert_eq!((through, set), (Some(true), None));
    let (through, set) = hit_test(through, look(false, 150, 250));
    assert_eq!((through, set), (Some(false), Some(false)));
    // a hidden pet lets everything through
    let hidden = Look {
        dragging: false,
        at: None,
    };
    assert_eq!(hit_test(through, hidden), (Some(true), Some(true)));
}

#[test]
fn a_drag_changes_nothing() {
    assert_eq!(
        hit_test(Some(false), look(true, 0, 0)),
        (Some(false), None)
    );
    assert_eq!(hit_test(None, look(true, 150, 250)), (None, None));
}

#[test]
fn the_pet_is_parked_above_the_taskbar() {
    let monitor = Area {
        x: 0,
        y: 0,
        width: 1920,
        height: 1080,
    };
    assert!(can_park(monitor, 110, 110));
    assert_eq!(park(monitor, 110, 110), (1786, 874));
    let second = Area {
        x: -1280,
        y: 100,
        width: 1280,
        height: 720,
    };
    assert_eq!(park(second, 110, 110), (-134, 614));
}

#[test]
fn rectangles_beyond_the_screen_are_told() {
    assert!(fits(WINDOW));
    assert!(!fits(Area {
        x: i32::MAX,
        ..WINDOW
    }));
    assert!(!fits(Area {
        width: u32::MAX,
        ..WINDOW
    }));
    assert!(!can_park(
        Area {
            x: i32::MIN,
            y: 0,
            width: 10,
            height: 10
        },
        110,
        110
    ));
}
