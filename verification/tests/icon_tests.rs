use lumberjack::iconhandler::{
    fallback_theme, find_icon, find_icon_helper, icon_basedirs, icon_query, look_up_icon, trim,
    IconLookup, IconSearch, Icons,
};
use std::path::PathBuf;

#[test]
fn trim_removes_surrounding_whitespace() {
    assert_eq!(trim("  Papirus\n"), "Papirus");
    assert_eq!(trim("\t\u{3000}a b\u{a0}"), "a b");
    assert_eq!(trim("   "), "");
    assert_eq!(trim(""), "");
    assert_eq!(trim("x"), "x");
}

#[test]
fn icons_take_the_trimmed_theme() {
    let icons = Icons::new(" Adwaita \n");
    assert_eq!(icons.theme, "Adwaita");
    assert_eq!(icons.theme(), "Adwaita");
}

#[test]
fn icon_of_a_mime_type_is_kept() {
    let mut icons = Icons::new("hicolor");
    assert_eq!(icons.get_icon("text/plain".to_string(), Some(4)), 4);
    assert_eq!(icons.get_icon("text/plain".to_string(), Some(9)), 4);
    assert_eq!(icons.get_icon("image/png".to_string(), None), 1);
    assert_eq!(icons.get_icon("image/png".to_string(), Some(5)), 1);
    assert_eq!(icons.get_icon("text/x-rust".to_string(), Some(6)), 6);
}

fn asks(q: &IconLookup, name: &str, size: u16, scale: u16, theme: &str) -> bool {
    q.name == name && q.size == size && q.scale == scale && q.theme == theme
}

#[test]
fn sizes_that_are_not_positive_find_no_icon() {
    assert!(look_up_icon("folder", 0, 1, "hicolor").is_none());
    assert!(look_up_icon("folder", 16, -1, "hicolor").is_none());
    assert!(find_icon_helper("folder", -16, 1, "hicolor").is_none());
    assert!(matches!(find_icon("folder", 16, 0, "hicolor", &vec![]), IconSearch::NotFound));
    assert!(matches!(
        find_icon("folder", 16, 0, "hicolor", &vec![Some(PathBuf::from("/x.png"))]),
        IconSearch::NotFound
    ));
}

#[test]
fn lookups_ask_for_the_icon_size_scale_and_theme() {
    let q = look_up_icon("folder", 16, 1, "Papirus").unwrap();
    assert!(asks(&q, "folder", 16, 1, "Papirus"));
    let q = find_icon_helper("text-x-generic", 48, 2, "Adwaita").unwrap();
    assert!(asks(&q, "text-x-generic", 48, 2, "Adwaita"));
}

#[test]
fn search_tries_the_theme_then_hicolor() {
    let found = Some(PathBuf::from("/icons/folder.png"));
    match find_icon("folder", 16, 1, "Papirus", &vec![]) {
        IconSearch::Lookup(q) => assert!(asks(&q, "folder", 16, 1, "Papirus")),
        other => panic!("expected a lookup, got {:?}", other),
    }
    assert!(matches!(find_icon("folder", 16, 1, "Papirus", &vec![found.clone()]), IconSearch::Found(0)));
    match find_icon("folder", 16, 1, "Papirus", &vec![None]) {
        IconSearch::Lookup(q) => assert!(asks(&q, "folder", 16, 1, "hicolor")),
        other => panic!("expected a lookup, got {:?}", other),
    }
    assert!(matches!(find_icon("folder", 16, 1, "Papirus", &vec![None, found]), IconSearch::Found(1)));
    assert!(matches!(find_icon("folder", 16, 1, "Papirus", &vec![None, None]), IconSearch::NotFound));
}

#[test]
fn icon_base_directories() {
    let dirs = icon_basedirs("/home/u".to_string(), "/usr/share".to_string());
    assert_eq!(dirs, vec!["/home/u/.icons".to_string(), "/usr/share/icons".to_string(), "/usr/share/pixmaps".to_string()]);
}

#[test]
fn icon_query_checks_size_and_scale() {
    assert_eq!(icon_query(16, 1), Some((16, 1)));
    assert_eq!(icon_query(48, 2), Some((48, 2)));
    assert_eq!(icon_query(0, 1), None);
    assert_eq!(icon_query(16, -2), None);
    assert_eq!(icon_query(300, 127), None);
    assert_eq!(icon_query(16384, 2), None);
    assert_eq!(icon_query(16383, 2), Some((16383, 2)));
}

#[test]
fn products_that_overflow_find_no_icon() {
    assert!(look_up_icon("folder", 300, 127, "hicolor").is_none());
    assert!(matches!(find_icon("folder", 16384, 2, "hicolor", &vec![]), IconSearch::NotFound));
}

#[test]
fn fallback_is_hicolor_only_when_nothing_found() {
    assert_eq!(fallback_theme(&None), Some("hicolor"));
    assert_eq!(fallback_theme(&Some(PathBuf::from("/x.png"))), None);
}
