use res_bot::error::AppError;
use res_bot::image::{Point, Rect};
use res_bot::input::{
    desktop_bounds, keep_inside_desktop, matches_commanded_path, mouse_idle_check,
    normalize_absolute_coordinate, plan_click, plan_movement, point_distance_exceeds,
    random_point_in_button, relocation_duration, send_outcome, ClickCancellation, ClickTiming,
    CommandedPath, IdleCheck,
};

#[test]
fn cursor_tolerance_detects_user_movement() {
    let start = Point { x: 100, y: 200 };

    assert!(!point_distance_exceeds(start, Point { x: 102, y: 198 }, 2));
    assert!(point_distance_exceeds(start, Point { x: 103, y: 200 }, 2));
}

#[test]
fn delayed_positions_from_own_commands_are_not_user_movement() {
    let commanded = [Point { x: 100, y: 200 }, Point { x: 120, y: 210 }, Point { x: 140, y: 220 }];

    assert!(matches_commanded_path(Point { x: 102, y: 199 }, &commanded, 8));
    assert!(matches_commanded_path(Point { x: 121, y: 212 }, &commanded, 8));
    assert!(!matches_commanded_path(Point { x: 170, y: 260 }, &commanded, 8));
}

#[test]
fn absolute_coordinates_cover_virtual_desktop_range() {
    assert_eq!(normalize_absolute_coordinate(-1_920, -1_920, 3_840), 0);
    assert_eq!(normalize_absolute_coordinate(1_919, -1_920, 3_840), 65_535);
    assert_eq!(normalize_absolute_coordinate(0, 0, 1_920), 0);
}

#[test]
fn coordinates_outside_the_desktop_are_held_at_its_edges() {
    assert_eq!(normalize_absolute_coordinate(-5_000, 0, 1_920), 0);
    assert_eq!(normalize_absolute_coordinate(5_000, 0, 1_920), 65_535);
    assert_eq!(normalize_absolute_coordinate(959, 0, 1_919), 32_767);
    assert_eq!(normalize_absolute_coordinate(7, 0, 1), 65_535);
    assert_eq!(normalize_absolute_coordinate(7, 0, 0), 65_535);
}

#[test]
fn negative_tolerance_reads_as_a_huge_unsigned_one() {
    assert!(!point_distance_exceeds(Point { x: 0, y: 0 }, Point { x: 1_000, y: -1_000 }, -1));
}

#[test]
fn random_click_points_stay_inside_the_button_margins() {
    let button = Rect { x: 310, y: 360, width: 110, height: 28 };
    let origin = Point { x: 1_000, y: 50 };
    for _ in 0..200 {
        let point = random_point_in_button(button, origin);
        assert!(point.x >= 1_000 + 310 + 15 && point.x < 1_000 + 420 - 15);
        assert!(point.y >= 50 + 360 + 5 && point.y < 50 + 388 - 5);
    }
    let small = Rect { x: 0, y: 0, width: 5, height: 5 };
    for _ in 0..50 {
        assert_eq!(random_point_in_button(small, Point { x: 0, y: 0 }), Point { x: 2, y: 2 });
    }
}

#[test]
fn click_plans_respect_the_timing_bounds() {
    let timing = ClickTiming { minimum_duration_ms: 280, maximum_duration_ms: 290 };
    let button = Rect { x: 0, y: 0, width: 70, height: 20 };
    for _ in 0..100 {
        let plan = plan_click(button, Point { x: 10, y: 10 }, timing);
        assert!((280..=290).contains(&plan.duration_ms));
        assert!(plan.target.x >= 12 && plan.target.x < 10 + 70 - 10);
    }
}

#[test]
fn movements_take_at_least_two_steps() {
    for _ in 0..50 {
        let timing = plan_movement(5);
        assert!((8..=14).contains(&timing.step_ms));
        assert_eq!(timing.steps, 2);
        let long = plan_movement(1_400);
        assert_eq!(long.steps, 1_400 / long.step_ms);
    }
}

#[test]
fn relocation_lasts_two_thirds_and_at_least_120_ms() {
    assert_eq!(relocation_duration(600), 400);
    assert_eq!(relocation_duration(100), 120);
    assert_eq!(relocation_duration(0), 120);
}

#[test]
fn desktops_without_area_are_refused() {
    assert_eq!(
        desktop_bounds(-1_920, 0, 3_840, 1_080),
        Ok(Rect { x: -1_920, y: 0, width: 3_840, height: 1_080 })
    );
    assert_eq!(
        desktop_bounds(0, 0, 0, 1_080),
        Err(AppError::InvalidVirtualDesktop { x: 0, y: 0, width: 0, height: 1_080 })
    );
}

#[test]
fn relocation_targets_are_held_inside_the_desktop() {
    let desktop = Rect { x: 0, y: 0, width: 1_000, height: 1_000 };
    assert_eq!(keep_inside_desktop(-50, 500, desktop), Point { x: 2, y: 500 });
    assert_eq!(keep_inside_desktop(1_200, 999, desktop), Point { x: 997, y: 997 });
    assert_eq!(keep_inside_desktop(500, 1, desktop), Point { x: 500, y: 2 });
}

#[test]
fn input_sends_are_classified() {
    assert_eq!(send_outcome("op", 3, 3, 5), Ok(()));
    assert_eq!(send_outcome("op", 3, 0, 5), Err(AppError::Win32 { operation: "op", code: 5 }));
    assert_eq!(send_outcome("op", 3, 0, 0), Err(AppError::PartialInput { requested: 3, sent: 0 }));
    assert_eq!(send_outcome("op", 3, 2, 5), Err(AppError::PartialInput { requested: 3, sent: 2 }));
}

#[test]
fn commanded_path_detects_the_user_moving_the_mouse() {
    let mut path = CommandedPath::new(Point { x: 100, y: 200 });
    path.push(Point { x: 120, y: 210 });
    assert_eq!(path.check(Point { x: 125, y: 214 }), Ok(()));
    assert_eq!(
        path.check(Point { x: 170, y: 260 }),
        Err(ClickCancellation::MouseMovedDuringApproach {
            expected: Point { x: 120, y: 210 },
            actual: Point { x: 170, y: 260 },
        })
    );
}

#[test]
fn idle_checks_restart_on_movement() {
    let a = Point { x: 10, y: 10 };
    assert_eq!(mouse_idle_check(a, Point { x: 13, y: 10 }, 500, 300), IdleCheck::Moved);
    assert_eq!(mouse_idle_check(a, Point { x: 12, y: 8 }, 300, 300), IdleCheck::Settled);
    assert_eq!(mouse_idle_check(a, a, 299, 300), IdleCheck::Resting);
}

#[test]
fn random_choices_vary() {
    let mut steps = std::collections::BTreeSet::new();
    let mut xs = std::collections::BTreeSet::new();
    let button = Rect { x: 0, y: 0, width: 300, height: 60 };
    for _ in 0..300 {
        steps.insert(plan_movement(1_000).step_ms);
        xs.insert(random_point_in_button(button, Point { x: 0, y: 0 }).x);
    }
    assert!(steps.len() >= 2);
    assert!(xs.len() >= 2);
}

#[test]
fn normalizing_keeps_the_order_of_coordinates() {
    let mut previous = 0;
    for coordinate in (-2_000..2_000).step_by(37) {
        let normalized = normalize_absolute_coordinate(coordinate, -1_920, 3_840);
        assert!(normalized >= previous);
        previous = normalized;
    }
}

#[test]
fn cursor_distance_is_symmetric_and_commanded_points_match() {
    let a = Point { x: 5, y: -7 };
    let b = Point { x: 9, y: 1 };
    for tolerance in [0, 3, 4, 8, 9] {
        assert_eq!(point_distance_exceeds(a, b, tolerance), point_distance_exceeds(b, a, tolerance));
    }
    let mut path = CommandedPath::new(a);
    path.push(b);
    assert_eq!(path.check(a), Ok(()));
    assert_eq!(path.check(b), Ok(()));
}
