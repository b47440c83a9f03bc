use res_bot::error::AppError;
use res_bot::image::{Point, Rect};
use res_bot::window::{capture_size, client_bounds, retry_delay_ms, title_matches, GameWindow};

#[test]
fn titles_match_fragments_ignoring_case() {
    let fragments = vec!["LINEAGE".to_owned(), "Parsec".to_owned()];
    assert!(title_matches("Lineage II - Main", &fragments));
    assert!(title_matches("my parsec session", &fragments));
    assert!(!title_matches("Notepad", &fragments));
    assert!(!title_matches("Lineage", &Vec::new()));
    assert!(title_matches("anything", &vec![String::new()]));
}

#[test]
fn client_areas_never_have_negative_size() {
    assert_eq!(
        client_bounds(Point { x: 5, y: 6 }, 0, 0, 800, 600),
        Rect { x: 5, y: 6, width: 800, height: 600 }
    );
    assert_eq!(
        client_bounds(Point { x: 5, y: 6 }, 10, 10, 0, 0),
        Rect { x: 5, y: 6, width: 0, height: 0 }
    );
}

#[test]
fn captures_need_an_area() {
    assert_eq!(capture_size(Rect { x: 0, y: 0, width: 800, height: 600 }), Ok(1_920_000));
    assert_eq!(
        capture_size(Rect { x: 0, y: 0, width: 0, height: 600 }),
        Err(AppError::InvalidImage { width: 0, height: 600, bytes: 0 })
    );
}

#[test]
fn retries_wait_longer_each_time() {
    assert_eq!(retry_delay_ms(1), 80);
    assert_eq!(retry_delay_ms(3), 240);
}

#[test]
fn frames_start_at_the_client_corner() {
    let window = GameWindow {
        handle: 7,
        screen_bounds: Rect { x: -100, y: 40, width: 10, height: 10 },
        title: "Lineage II".to_owned(),
    };
    assert_eq!(window.frame_origin(), Point { x: -100, y: 40 });
}
