use proto_jsx::{
    AssetDef, AssetDefs, AssetKind, ComponentDef, ComponentDefs, ContentDefs, ContentValue,
    ImportKind, OrderedMap, PropValue, Props, Record,
};

#[test]
fn new_map_is_empty() {
    let map: OrderedMap<String> = OrderedMap::new();
    assert_eq!(map.len(), 0);
    assert!(map.is_empty());
    assert_eq!(map.get("a"), None);
    assert!(!map.contains_key("a"));
    assert!(map.get_index(0).is_none());
}

#[test]
fn insert_keeps_the_order_of_first_setting() {
    let mut map: OrderedMap<String> = OrderedMap::new();
    map.insert("b".to_string(), "1".to_string());
    map.insert("a".to_string(), "2".to_string());
    map.insert("c".to_string(), "3".to_string());
    assert_eq!(map.len(), 3);
    assert!(!map.is_empty());
    let keys: Vec<&str> = (0..3).map(|i| map.get_index(i).unwrap().0.as_str()).collect();
    assert_eq!(keys, vec!["b", "a", "c"]);
    assert!(map.get_index(3).is_none());
}

#[test]
fn insert_of_a_known_key_replaces_in_place() {
    let mut map: OrderedMap<String> = OrderedMap::new();
    map.insert("b".to_string(), "1".to_string());
    map.insert("a".to_string(), "2".to_string());
    map.insert("b".to_string(), "9".to_string());
    assert_eq!(map.len(), 2);
    assert_eq!(map.get("b").map(|s| s.as_str()), Some("9"));
    assert_eq!(map.get("a").map(|s| s.as_str()), Some("2"));
    let (key, value) = map.get_index(0).unwrap();
    assert_eq!((key.as_str(), value.as_str()), ("b", "9"));
    assert!(map.contains_key("a"));
    assert!(!map.contains_key("c"));
}

#[test]
fn clone_keeps_keys_and_values() {
    let mut map: Props = OrderedMap::new();
    map.insert("x".to_string(), PropValue::Bool(true));
    map.insert("y".to_string(), PropValue::Str("s".to_string()));
    let copy = map.clone();
    assert_eq!(copy.len(), 2);
    assert!(matches!(copy.get("x"), Some(PropValue::Bool(true))));
    assert!(matches!(copy.get("y"), Some(PropValue::Str(s)) if s == "s"));
    assert_eq!(copy.get_index(1).unwrap().0, "y");
}

fn component(name: &str, tag: &str) -> ComponentDef {
    ComponentDef {
        name: name.to_string(),
        tag: tag.to_string(),
        class_name: None,
        default_props: OrderedMap::new(),
        required_props: vec![],
        children_template: None,
        import_path: None,
    }
}

#[test]
fn component_get_finds_the_first_of_a_name() {
    let defs = ComponentDefs {
        components: vec![component("a", "one"), component("b", "two"), component("a", "three")],
    };
    assert_eq!(defs.get("a").map(|c| c.tag.as_str()), Some("one"));
    assert_eq!(defs.get("b").map(|c| c.tag.as_str()), Some("two"));
    assert!(defs.get("c").is_none());
    assert!(defs.get("").is_none());
}

fn asset(name: &str, kind: AssetKind, url: &str) -> AssetDef {
    AssetDef { name: name.to_string(), kind, path: None, url: Some(url.to_string()) }
}

#[test]
fn asset_get_finds_the_first_of_a_name() {
    let defs = AssetDefs {
        assets: vec![
            asset("clip", AssetKind::Video, "u1"),
            asset("song", AssetKind::Audio, "u2"),
            asset("clip", AssetKind::Youtube, "u3"),
        ],
    };
    let clip = defs.get("clip").unwrap();
    assert_eq!(clip.kind, AssetKind::Video);
    assert_eq!(clip.url.as_deref(), Some("u1"));
    assert_eq!(defs.get("song").unwrap().kind, AssetKind::Audio);
    assert!(defs.get("none").is_none());
    let empty = AssetDefs { assets: vec![] };
    assert!(empty.get("clip").is_none());
}

fn library() -> ContentDefs {
    let mut record: Record = OrderedMap::new();
    record.insert("title".to_string(), "T".to_string());
    let mut content = OrderedMap::new();
    content.insert("greeting".to_string(), ContentValue::Str("hello".to_string()));
    content.insert(
        "items".to_string(),
        ContentValue::List(vec![ContentValue::Record(record.clone()), ContentValue::Str("x".to_string())]),
    );
    content.insert("card".to_string(), ContentValue::Record(record));
    ContentDefs { content }
}

#[test]
fn content_get_finds_values_of_each_kind() {
    let defs = library();
    assert!(matches!(defs.get("greeting"), Some(ContentValue::Str(s)) if s == "hello"));
    assert!(matches!(defs.get("items"), Some(ContentValue::List(l)) if l.len() == 2));
    assert!(matches!(defs.get("card"), Some(ContentValue::Record(_))));
    assert!(defs.get("missing").is_none());
}

#[test]
fn content_get_str_gives_strings_only() {
    let defs = library();
    assert_eq!(defs.get_str("greeting").map(|s| s.as_str()), Some("hello"));
    assert_eq!(defs.get_str("items"), None);
    assert_eq!(defs.get_str("card"), None);
    assert_eq!(defs.get_str("missing"), None);
}

#[test]
fn content_get_list_gives_lists_only() {
    let defs = library();
    assert_eq!(defs.get_list("items").map(|l| l.len()), Some(2));
    assert!(defs.get_list("greeting").is_none());
    assert!(defs.get_list("card").is_none());
    assert!(defs.get_list("missing").is_none());
}

#[test]
fn content_value_clone_keeps_the_value() {
    let defs = library();
    let copy = defs.get("items").unwrap().clone();
    match copy {
        ContentValue::List(items) => {
            assert_eq!(items.len(), 2);
            assert!(
                matches!(&items[0], ContentValue::Record(r) if r.get("title").map(|s| s.as_str()) == Some("T"))
            );
            assert!(matches!(&items[1], ContentValue::Str(s) if s == "x"));
        }
        _ => panic!("a list was cloned"),
    }
}

#[test]
fn import_kind_defaults_to_component() {
    assert_eq!(ImportKind::default(), ImportKind::Component);
}
