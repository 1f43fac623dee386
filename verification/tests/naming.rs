use proto_jsx::naming::with_head;
use proto_jsx::text::{decimal_string, starts_with};
use proto_jsx::{capitalize, ImportMap, Layout, Route};

#[test]
fn capitalize_puts_the_first_character_in_upper_case() {
    assert_eq!(capitalize("home"), "Home");
    assert_eq!(capitalize("Home"), "Home");
    assert_eq!(capitalize("h"), "H");
    assert_eq!(capitalize("userProfile"), "UserProfile");
    assert_eq!(capitalize("9lives"), "9lives");
}

#[test]
fn capitalize_of_nothing_is_nothing() {
    assert_eq!(capitalize(""), "");
}

#[test]
fn capitalize_beyond_ascii() {
    assert_eq!(capitalize("élan"), "Élan");
    assert_eq!(capitalize("ßa"), "SSa");
}

#[test]
fn with_head_replaces_the_first_character() {
    assert_eq!(with_head("X".to_string(), "abc"), "Xbc");
    assert_eq!(with_head("XY".to_string(), "a"), "XY");
    assert_eq!(with_head("X".to_string(), ""), "X");
    assert_eq!(with_head(String::new(), "éa"), "a");
}

#[test]
fn decimal_string_writes_numbers() {
    assert_eq!(decimal_string(0), "0");
    assert_eq!(decimal_string(7), "7");
    assert_eq!(decimal_string(10), "10");
    assert_eq!(decimal_string(1234567890), "1234567890");
    assert_eq!(decimal_string(u128::MAX), u128::MAX.to_string());
}

#[test]
fn starts_with_tells_prefixes() {
    assert!(starts_with("http://x", "http://"));
    assert!(starts_with("abc", ""));
    assert!(starts_with("abc", "abc"));
    assert!(!starts_with("ab", "abc"));
    assert!(!starts_with("xhttp://", "http://"));
    assert!(!starts_with("", "a"));
}

#[test]
fn unique_name_of_a_free_base_is_the_base() {
    let names = ImportMap::new();
    assert_eq!(names.unique_name("Home"), "Home");
}

#[test]
fn unique_name_takes_the_first_free_number() {
    let mut names = ImportMap::new();
    assert_eq!(names.register("a", "Home"), "Home");
    assert_eq!(names.unique_name("Home"), "Home2");
    assert_eq!(names.register("b", "Home"), "Home2");
    assert_eq!(names.unique_name("Home"), "Home3");
    assert_eq!(names.register("c", "Home4"), "Home4");
    assert_eq!(names.register("d", "Home"), "Home3");
    assert_eq!(names.register("e", "Home"), "Home5");
    assert_eq!(names.unique_name("Other"), "Other");
}

#[test]
fn register_keeps_the_identifier_of_a_known_path() {
    let mut names = ImportMap::new();
    assert_eq!(names.register("views/Home", "Home"), "Home");
    assert_eq!(names.register("views/Home", "Start"), "Home");
    assert_eq!(names.get("views/Home").map(|s| s.as_str()), Some("Home"));
    assert_eq!(names.unique_name("Start"), "Start");
}

#[test]
fn get_of_an_unknown_path_is_none() {
    let names = ImportMap::new();
    assert_eq!(names.get("views/Home"), None);
}

#[test]
fn add_layout_appends_layout() {
    let mut names = ImportMap::new();
    let main = Layout { name: "main".to_string(), path: "layouts/Main".to_string() };
    assert_eq!(names.add_layout(&main), "MainLayout");
    assert_eq!(names.add_layout(&main), "MainLayout");
    let other = Layout { name: "main".to_string(), path: "layouts/Other".to_string() };
    assert_eq!(names.add_layout(&other), "MainLayout2");
    assert_eq!(names.get("layouts/Other").map(|s| s.as_str()), Some("MainLayout2"));
}

#[test]
fn add_route_capitalizes_the_name() {
    let mut names = ImportMap::new();
    let home = Route {
        name: "home".to_string(),
        url: "/".to_string(),
        proto: None,
        path: "views/Home".to_string(),
        layout: None,
    };
    assert_eq!(names.add_route(&home), "Home");
    let shell = Layout { name: "x".to_string(), path: "views/Home".to_string() };
    assert_eq!(names.add_layout(&shell), "Home");
}

#[test]
fn route_named_like_a_layout_identifier_gets_a_number() {
    let mut names = ImportMap::new();
    let main = Layout { name: "main".to_string(), path: "layouts/Main".to_string() };
    assert_eq!(names.add_layout(&main), "MainLayout");
    let route = Route {
        name: "mainLayout".to_string(),
        url: "/".to_string(),
        proto: None,
        path: "views/MainLayout".to_string(),
        layout: None,
    };
    assert_eq!(names.add_route(&route), "MainLayout2");
}
