use res_bot::detection::{find_player_panel_regions, find_resurrection_dialog, rectangles_overlap_significantly};
use res_bot::components::{collect_component, Component};
use res_bot::detection::pair_dialog;
use res_bot::image::{clamp_rect, Frame, Point, Rect};

fn frame_with_rectangles(rectangles: &[(Rect, [u8; 4])]) -> Frame {
    let width = 800_u32;
    let height = 600_u32;
    let mut pixels = vec![15_u8; width as usize * height as usize * 4];
    for alpha in pixels.iter_mut().skip(3).step_by(4) {
        *alpha = 255;
    }
    for (rect, color) in rectangles {
        for y in rect.y as u32..rect.bottom() as u32 {
            for x in rect.x as u32..rect.right() as u32 {
                let offset = (y as usize * width as usize + x as usize) * 4;
                pixels[offset..offset + 4].copy_from_slice(color);
            }
        }
    }
    Frame::new(Point { x: 0, y: 0 }, width, height, pixels).unwrap()
}

#[test]
fn finds_paired_dialog_buttons() {
    let frame = frame_with_rectangles(&[
        (Rect { x: 310, y: 360, width: 110, height: 28 }, [24, 70, 44, 255]),
        (Rect { x: 432, y: 360, width: 110, height: 28 }, [35, 35, 86, 255]),
    ]);

    let dialog = find_resurrection_dialog(&frame).unwrap();

    assert_eq!(dialog.accept_button.center(), Point { x: 365, y: 374 });
    assert_eq!(dialog.reject_button.center(), Point { x: 487, y: 374 });
    assert!(dialog.bounds.contains(dialog.accept_button.center()));
}

#[test]
fn finds_status_panel_from_blue_and_green_bars() {
    let frame = frame_with_rectangles(&[
        (Rect { x: 50, y: 70, width: 150, height: 7 }, [148, 110, 84, 255]),
        (Rect { x: 50, y: 82, width: 150, height: 7 }, [28, 134, 94, 255]),
    ]);

    let regions = find_player_panel_regions(&frame);

    assert_eq!(regions.len(), 1);
    assert!(regions[0].contains(Point { x: 70, y: 30 }));
}

#[test]
fn empty_frame_shows_no_dialog_and_no_panel() {
    let frame = frame_with_rectangles(&[]);
    assert!(find_resurrection_dialog(&frame).is_none());
    assert!(find_player_panel_regions(&frame).is_empty());
}

#[test]
fn buttons_in_the_wrong_order_make_no_dialog() {
    let frame = frame_with_rectangles(&[
        (Rect { x: 432, y: 360, width: 110, height: 28 }, [24, 70, 44, 255]),
        (Rect { x: 310, y: 360, width: 110, height: 28 }, [35, 35, 86, 255]),
    ]);
    assert!(find_resurrection_dialog(&frame).is_none());
}

#[test]
fn the_dialog_and_its_buttons_lie_inside_the_frame() {
    let frame = frame_with_rectangles(&[
        (Rect { x: 310, y: 360, width: 110, height: 28 }, [24, 70, 44, 255]),
        (Rect { x: 432, y: 360, width: 110, height: 28 }, [35, 35, 86, 255]),
    ]);
    let dialog = find_resurrection_dialog(&frame).unwrap();
    for rect in [dialog.bounds, dialog.accept_button, dialog.reject_button] {
        assert!(rect.x >= 0 && rect.y >= 0);
        assert!(rect.right() <= 800 && rect.bottom() <= 600);
    }
    assert_eq!(dialog.accept_button, Rect { x: 310, y: 360, width: 110, height: 28 });
}

#[test]
fn two_panels_are_ordered_top_to_bottom() {
    let frame = frame_with_rectangles(&[
        (Rect { x: 50, y: 370, width: 150, height: 7 }, [148, 110, 84, 255]),
        (Rect { x: 50, y: 382, width: 150, height: 7 }, [28, 134, 94, 255]),
        (Rect { x: 50, y: 70, width: 150, height: 7 }, [148, 110, 84, 255]),
        (Rect { x: 50, y: 82, width: 150, height: 7 }, [28, 134, 94, 255]),
    ]);
    let regions = find_player_panel_regions(&frame);
    assert_eq!(regions.len(), 2);
    assert!(regions[0].y < regions[1].y);
}

#[test]
fn overlap_is_measured_against_the_smaller_rectangle() {
    let big = Rect { x: 0, y: 0, width: 100, height: 100 };
    let small = Rect { x: 90, y: 90, width: 20, height: 20 };
    assert!(!rectangles_overlap_significantly(big, small));
    let inside = Rect { x: 10, y: 10, width: 20, height: 20 };
    assert!(rectangles_overlap_significantly(big, inside));
    assert!(rectangles_overlap_significantly(inside, big));
    let half = Rect { x: 90, y: 0, width: 20, height: 10 };
    assert!(rectangles_overlap_significantly(big, half));
}

#[test]
fn clamping_keeps_the_part_inside_the_bounds() {
    assert_eq!(
        clamp_rect(Rect { x: -10, y: 5, width: 30, height: 10 }, 15, 12),
        Some(Rect { x: 0, y: 5, width: 15, height: 7 })
    );
    assert_eq!(clamp_rect(Rect { x: 20, y: 0, width: 5, height: 5 }, 15, 12), None);
}

#[test]
fn any_two_components_can_frame_a_dialog() {
    let frame = frame_with_rectangles(&[]);
    let accept = Component { bounds: Rect { x: 10, y: 50, width: 20, height: 5 }, pixels: 3 };
    let reject = Component { bounds: Rect { x: 34, y: 50, width: 20, height: 5 }, pixels: 100 };
    let dialog = pair_dialog(&frame, accept, reject).unwrap();
    assert_eq!(dialog.bounds, Rect { x: 0, y: 24, width: 68, height: 34 });
    assert_eq!(dialog.accept_button, accept.bounds);
    assert_eq!(dialog.reject_button, reject.bounds);

    let too_close = Component { bounds: Rect { x: 33, y: 50, width: 20, height: 5 }, pixels: 100 };
    assert_eq!(pair_dialog(&frame, accept, too_close), None);
}

#[test]
fn a_component_is_collected_beside_a_partly_visited_one() {
    let mask = vec![true, true, false, true, true];
    let mut visited = vec![true, false, false, false, false];
    let component = collect_component(&mask, &mut visited, 5, 1, 3, 0);
    assert_eq!(component, Component { bounds: Rect { x: 3, y: 0, width: 2, height: 1 }, pixels: 2 });
    assert_eq!(visited, vec![true, false, false, true, true]);
}
