use media_serve::error::AppError;
use media_serve::queries::{
    contains_text, default_view, flag_from_query, plan_search, search_entry_matches, thumb_width,
    ThumbQuery,
};
use media_serve::watch::categorize_event;

#[test]
fn view_defaults_to_list() {
    assert_eq!(default_view(), "list");
}

#[test]
fn flags_from_text() {
    assert_eq!(flag_from_query(Some("yes")), Some(true));
    assert_eq!(flag_from_query(Some("1")), Some(true));
    assert_eq!(flag_from_query(Some("off")), Some(false));
    assert_eq!(flag_from_query(Some("")), Some(false));
    assert_eq!(flag_from_query(Some("maybe")), None);
    assert_eq!(flag_from_query(None), None);
}

#[test]
fn width_defaults() {
    assert_eq!(thumb_width(&ThumbQuery { w: Some(100) }, 320), 100);
    assert_eq!(thumb_width(&ThumbQuery { w: None }, 320), 320);
}

#[test]
fn search_plans() {
    assert!(matches!(plan_search("   ", None), Err(AppError::BadRequest(_))));
    let (needle, limit) = plan_search("  Cat Pics ", None).unwrap();
    assert_eq!(needle, "cat pics");
    assert_eq!(limit, 200);
    assert_eq!(plan_search("x", Some(50_000)).unwrap().1, 10_000);
    assert_eq!(plan_search("x", Some(7)).unwrap().1, 7);
}

#[test]
fn search_matching() {
    assert!(contains_text("holiday.jpg", "day"));
    assert!(!contains_text("holiday.jpg", "days"));
    assert!(contains_text("abc", ""));
    assert!(search_entry_matches("Holiday.JPG", "day.jpg", false));
    assert!(!search_entry_matches(".Holiday.jpg", "day", false));
    assert!(search_entry_matches(".Holiday.jpg", "day", true));
}

#[test]
fn watcher_event_sorting() {
    let ext = |v: &[Option<&str>]| v.iter().map(|e| e.map(|s| s.to_string())).collect::<Vec<_>>();
    assert_eq!(categorize_event(true, &ext(&[Some("html")])), (true, true));
    assert_eq!(categorize_event(true, &ext(&[Some("css"), None])), (true, false));
    assert_eq!(categorize_event(true, &ext(&[Some("rs")])), (false, false));
    assert_eq!(categorize_event(false, &ext(&[Some("html")])), (false, false));
}
