use proto_jsx::view_jsx::{external, merge_props};
use proto_jsx::{
    AssetDef, AssetDefs, AssetKind, ComponentDef, ComponentDefs, ContentDefs, ContentValue,
    Element, Import, ImportKind, OrderedMap, PropValue, Props, Record, ViewJsx, ViewProto,
};

fn props(entries: Vec<(&str, PropValue)>) -> Props {
    let mut map = OrderedMap::new();
    for (key, value) in entries {
        map.insert(key.to_string(), value);
    }
    map
}

fn record(entries: Vec<(&str, &str)>) -> Record {
    let mut map = OrderedMap::new();
    for (key, value) in entries {
        map.insert(key.to_string(), value.to_string());
    }
    map
}

fn s(text: &str) -> PropValue {
    PropValue::Str(text.to_string())
}

fn num(text: &str) -> PropValue {
    PropValue::Num(text.to_string())
}

fn asset_ref(name: &str) -> PropValue {
    PropValue::Asset(name.to_string())
}

fn node(tag: &str, p: Props, children: Vec<Element>) -> Element {
    Element::Node {
        tag: tag.to_string(),
        class_name: None,
        props: p,
        children: children.into_iter().map(Box::new).collect(),
    }
}

fn component_ref(name: &str, p: Props, children: Vec<Element>) -> Element {
    Element::ComponentRef {
        component: name.to_string(),
        props: p,
        children: children.into_iter().map(Box::new).collect(),
    }
}

fn text(t: &str) -> Element {
    Element::Text(t.to_string())
}

fn image(name: &str, path: Option<&str>) -> AssetDef {
    AssetDef {
        name: name.to_string(),
        kind: AssetKind::Image,
        path: path.map(|p| p.to_string()),
        url: None,
    }
}

fn media(name: &str, kind: AssetKind, url: Option<&str>) -> AssetDef {
    AssetDef { name: name.to_string(), kind, path: None, url: url.map(|u| u.to_string()) }
}

fn component(name: &str, tag: &str) -> ComponentDef {
    ComponentDef {
        name: name.to_string(),
        tag: tag.to_string(),
        class_name: None,
        default_props: OrderedMap::new(),
        required_props: vec![],
        children_template: None,
        import_path: None,
    }
}

fn page(tree: Element) -> ViewJsx {
    page_with(tree, vec![], vec![], OrderedMap::new())
}

fn page_with(
    tree: Element,
    components: Vec<ComponentDef>,
    assets: Vec<AssetDef>,
    content: OrderedMap<ContentValue>,
) -> ViewJsx {
    ViewJsx::new(
        ViewProto { name: "Page".to_string(), imports: vec![], observer: false, tree: Box::new(tree) },
        ComponentDefs { components },
        AssetDefs { assets },
        ContentDefs { content },
    )
}

fn count(text: &str, piece: &str) -> usize {
    text.matches(piece).count()
}

#[test]
fn plain_page() {
    let view = page(node("div", props(vec![]), vec![]));
    let expected = "import React from 'react';\n\
\n\
\n\
function Page() {\n\
\x20 return (\n\
\x20   <div />\n\
\x20 );\n\
}\n\
\n\
export default Page;\n";
    assert_eq!(view.to_string(), expected);
}

#[test]
fn observer_page() {
    let mut view = page(text("hello"));
    view.proto.observer = true;
    view.proto.name = "Home".to_string();
    let expected = "import React from 'react';\n\
import { observer } from \"mobx-react\";\n\
\n\
\n\
function Home() {\n\
\x20 return (\n\
\x20   hello\n\
\x20 );\n\
}\n\
\n\
export default observer(Home);\n";
    assert_eq!(view.to_string(), expected);
}

#[test]
fn manual_imports_come_all_and_in_order() {
    let mut view = page(text("x"));
    view.proto.imports = vec![
        Import { name: "useThing".to_string(), path: "./hooks".to_string(), kind: ImportKind::Hook },
        Import { name: "Card".to_string(), path: "./Card".to_string(), kind: ImportKind::Component },
        Import { name: "Card".to_string(), path: "./Card".to_string(), kind: ImportKind::Component },
    ];
    let out = view.to_string();
    assert!(out.contains(
        "\n\nimport useThing from './hooks';\nimport Card from './Card';\nimport Card from './Card';\n\nfunction Page() {"
    ));
}

#[test]
fn nested_nodes_indent_by_two() {
    let view = page(node(
        "div",
        props(vec![("id", s("root"))]),
        vec![node("span", props(vec![]), vec![text("hi")]), node("br", props(vec![]), vec![])],
    ));
    let out = view.to_string();
    assert!(out.contains(
        "    <div id=\"root\">\n      <span>\n        hi\n      </span>\n      <br />\n    </div>\n"
    ));
}

#[test]
fn attribute_forms() {
    let view = page(text("x"));
    assert_eq!(view.render_prop("a", &s("v"), None), "a=\"v\"");
    assert_eq!(view.render_prop("a", &s(""), None), "a=\"\"");
    assert_eq!(view.render_prop("a", &num("5"), None), "a={5}");
    assert_eq!(view.render_prop("a", &num("2.5"), None), "a={2.5}");
    assert_eq!(view.render_prop("a", &PropValue::Bool(true), None), "a");
    assert_eq!(view.render_prop("a", &PropValue::Bool(false), None), "a={false}");
    assert_eq!(view.render_prop("a", &PropValue::Var("count".to_string()), None), "a={count}");
}

#[test]
fn inline_text_forms() {
    let view = page(text("x"));
    assert_eq!(view.prop_value_to_string(&s("v"), None), "v");
    assert_eq!(view.prop_value_to_string(&num("5"), None), "5");
    assert_eq!(view.prop_value_to_string(&PropValue::Bool(true), None), "true");
    assert_eq!(view.prop_value_to_string(&PropValue::Bool(false), None), "false");
    assert_eq!(view.prop_value_to_string(&PropValue::Var("count".to_string()), None), "{count}");
}

fn asset_page() -> ViewJsx {
    page_with(
        text("x"),
        vec![],
        vec![
            image("logo", Some("./logo.png")),
            image("remote", Some("https://cdn.example/a.png")),
            image("plain", Some("http://cdn.example/a.png")),
            image("bare", None),
            media("clip", AssetKind::Youtube, Some("https://youtu.be/x")),
            media("film", AssetKind::Video, Some("movie.mp4")),
            media("song", AssetKind::Audio, None),
        ],
        OrderedMap::new(),
    )
}

#[test]
fn asset_attributes() {
    let view = asset_page();
    assert_eq!(view.render_prop("src", &asset_ref("logo"), None), "src={logo}");
    assert_eq!(
        view.render_prop("src", &asset_ref("remote"), None),
        "src=\"https://cdn.example/a.png\""
    );
    assert_eq!(
        view.render_prop("src", &asset_ref("plain"), None),
        "src=\"http://cdn.example/a.png\""
    );
    assert_eq!(view.render_prop("src", &asset_ref("bare"), None), "src={bare}");
    assert_eq!(view.render_prop("src", &asset_ref("clip"), None), "src=\"https://youtu.be/x\"");
    assert_eq!(view.render_prop("src", &asset_ref("film"), None), "src=\"movie.mp4\"");
    assert_eq!(view.render_prop("src", &asset_ref("song"), None), "src=\"\"");
    assert_eq!(view.render_prop("src", &asset_ref("unknown"), None), "src={unknown}");
}

#[test]
fn asset_inline_text() {
    let view = asset_page();
    assert_eq!(view.prop_value_to_string(&asset_ref("logo"), None), "{logo}");
    assert_eq!(
        view.prop_value_to_string(&asset_ref("remote"), None),
        "https://cdn.example/a.png"
    );
    assert_eq!(view.prop_value_to_string(&asset_ref("bare"), None), "{bare}");
    assert_eq!(view.prop_value_to_string(&asset_ref("clip"), None), "https://youtu.be/x");
    assert_eq!(view.prop_value_to_string(&asset_ref("song"), None), "");
    assert_eq!(view.prop_value_to_string(&asset_ref("unknown"), None), "{unknown}");
}

#[test]
fn youtube_asset_is_a_quoted_address_without_import() {
    let view = page_with(
        node("iframe", props(vec![("src", asset_ref("clip"))]), vec![]),
        vec![],
        vec![media("clip", AssetKind::Youtube, Some("https://youtu.be/x"))],
        OrderedMap::new(),
    );
    let out = view.to_string();
    assert!(out.contains("    <iframe src=\"https://youtu.be/x\" />\n"));
    assert_eq!(count(&out, "import "), 1);
    assert!(!out.contains("import clip"));
}

#[test]
fn image_of_the_project_is_imported_once() {
    let view = page_with(
        node(
            "div",
            props(vec![]),
            vec![
                node("img", props(vec![("src", asset_ref("logo"))]), vec![]),
                node("img", props(vec![("src", asset_ref("logo"))]), vec![]),
            ],
        ),
        vec![],
        vec![image("logo", Some("./logo.png"))],
        OrderedMap::new(),
    );
    let out = view.to_string();
    assert_eq!(count(&out, "import logo from './logo.png';\n"), 1);
    assert_eq!(count(&out, "<img src={logo} />"), 2);
}

#[test]
fn asset_imports_follow_first_use() {
    let view = page_with(
        node(
            "div",
            props(vec![("a", asset_ref("second")), ("b", asset_ref("first"))]),
            vec![node("img", props(vec![("src", asset_ref("third"))]), vec![])],
        ),
        vec![],
        vec![
            image("first", Some("./1.png")),
            image("second", Some("./2.png")),
            image("third", Some("./3.png")),
        ],
        OrderedMap::new(),
    );
    let out = view.to_string();
    assert!(out.contains(
        "import second from './2.png';\nimport first from './1.png';\nimport third from './3.png';\n"
    ));
}

#[test]
fn remote_images_and_unknown_assets_bring_no_import() {
    let view = page_with(
        node(
            "div",
            props(vec![
                ("a", asset_ref("remote")),
                ("b", asset_ref("bare")),
                ("c", asset_ref("unknown")),
            ]),
            vec![],
        ),
        vec![],
        vec![image("remote", Some("https://cdn.example/a.png")), image("bare", None)],
        OrderedMap::new(),
    );
    let out = view.to_string();
    assert_eq!(count(&out, "import "), 1);
}

#[test]
fn collected_refs_are_distinct_and_in_order() {
    let tree = node(
        "div",
        props(vec![("a", asset_ref("x")), ("t", s("plain"))]),
        vec![
            component_ref("Card", props(vec![("img", asset_ref("y"))]), vec![]),
            Element::ContentList {
                source: "items".to_string(),
                template: Box::new(component_ref(
                    "Row",
                    props(vec![("img", asset_ref("x"))]),
                    vec![component_ref("Card", props(vec![("i", asset_ref("z"))]), vec![])],
                )),
            },
        ],
    );
    let view = page(text("unused"));
    assert_eq!(view.collect_asset_refs(&tree), vec!["x", "y", "z"]);
    assert_eq!(view.collect_component_refs(&tree), vec!["Card", "Row"]);
    let mut assets = vec!["y".to_string()];
    let mut components = vec![];
    view.collect_refs_recursive(&tree, &mut assets, &mut components);
    assert_eq!(assets, vec!["y", "x", "z"]);
    assert_eq!(components, vec!["Card", "Row"]);
}

#[test]
fn unknown_component_renders_as_primitive() {
    let view = page(component_ref("Fancy", props(vec![("size", num("3"))]), vec![text("hi")]));
    let plain = page(node("Fancy", props(vec![("size", num("3"))]), vec![text("hi")]));
    let out = view.to_string();
    assert!(out.contains("    <Fancy size={3}>\n      hi\n    </Fancy>\n"));
    assert_eq!(out, plain.to_string());
}

#[test]
fn override_of_a_default_prop_renders_once() {
    let mut button = component("Button", "button");
    button.default_props = props(vec![("size", num("3"))]);
    let view = page_with(
        component_ref("Button", props(vec![("size", num("5"))]), vec![]),
        vec![button],
        vec![],
        OrderedMap::new(),
    );
    let out = view.to_string();
    assert!(out.contains("    <button size={5} />\n"));
    assert_eq!(count(&out, "size="), 1);
}

#[test]
fn merged_props_keep_defaults_first() {
    let defaults = props(vec![("a", num("1")), ("b", num("2"))]);
    let over = props(vec![("c", num("3")), ("a", num("9"))]);
    let merged = merge_props(&defaults, &over);
    assert_eq!(merged.len(), 3);
    let entry = |i: usize| {
        let (key, value) = merged.get_index(i).unwrap();
        match value {
            PropValue::Num(n) => (key.clone(), n.clone()),
            _ => panic!("a number was merged"),
        }
    };
    assert_eq!(entry(0), ("a".to_string(), "9".to_string()));
    assert_eq!(entry(1), ("b".to_string(), "2".to_string()));
    assert_eq!(entry(2), ("c".to_string(), "3".to_string()));
    assert_eq!(defaults.len(), 2);
    assert_eq!(over.len(), 2);
}

#[test]
fn component_gives_tag_class_and_import() {
    let mut card = component("Card", "CardView");
    card.class_name = Some("card".to_string());
    card.import_path = Some("./CardView".to_string());
    card.default_props = props(vec![("kind", s("plain"))]);
    let view = page_with(
        node(
            "div",
            props(vec![]),
            vec![
                component_ref("Card", props(vec![("id", s("a"))]), vec![]),
                component_ref("Card", props(vec![]), vec![text("inner")]),
            ],
        ),
        vec![card],
        vec![],
        OrderedMap::new(),
    );
    let out = view.to_string();
    assert_eq!(count(&out, "import CardView from './CardView';\n"), 1);
    assert!(out.contains("      <CardView className=\"card\" kind=\"plain\" id=\"a\" />\n"));
    assert!(out.contains(
        "      <CardView className=\"card\" kind=\"plain\">\n        inner\n      </CardView>\n"
    ));
}

#[test]
fn class_name_prop_wins_over_preset_class() {
    let mut card = component("Card", "div");
    card.class_name = Some("card".to_string());
    let view = page_with(
        component_ref("Card", props(vec![("className", s("mine"))]), vec![]),
        vec![card],
        vec![],
        OrderedMap::new(),
    );
    let out = view.to_string();
    assert!(out.contains("    <div className=\"mine\" />\n"));
    assert!(!out.contains("card"));
}

#[test]
fn node_class_name_is_an_attribute() {
    let view = page(Element::Node {
        tag: "div".to_string(),
        class_name: Some("box".to_string()),
        props: props(vec![("id", s("a"))]),
        children: vec![],
    });
    assert!(view.to_string().contains("    <div className=\"box\" id=\"a\" />\n"));
}

#[test]
fn text_prop_becomes_inner_text() {
    let view = page(node(
        "p",
        props(vec![("text", s("Hello")), ("id", s("a"))]),
        vec![node("br", props(vec![]), vec![])],
    ));
    let out = view.to_string();
    assert!(out.contains("    <p id=\"a\">\n      Hello\n      <br />\n    </p>\n"));
    assert!(!out.contains("text="));
}

#[test]
fn text_prop_alone_opens_the_element() {
    let view = page(node("p", props(vec![("text", num("7"))]), vec![]));
    assert!(view.to_string().contains("    <p>\n      7\n    </p>\n"));
}

fn content() -> OrderedMap<ContentValue> {
    let mut map = OrderedMap::new();
    map.insert("title".to_string(), ContentValue::Str("Welcome".to_string()));
    map.insert(
        "items".to_string(),
        ContentValue::List(vec![
            ContentValue::Record(record(vec![("label", "One"), ("href", "/1")])),
            ContentValue::Str("skipped".to_string()),
            ContentValue::Record(record(vec![("label", "Two")])),
            ContentValue::List(vec![]),
        ]),
    );
    map.insert("card".to_string(), ContentValue::Record(record(vec![("label", "x")])));
    map
}

#[test]
fn content_props() {
    let view = page_with(text("x"), vec![], vec![], content());
    let c = |name: &str| PropValue::Content(name.to_string());
    assert_eq!(view.render_prop("t", &c("title"), None), "t=\"Welcome\"");
    assert_eq!(view.render_prop("t", &c("items"), None), "t=\"\"");
    assert_eq!(view.render_prop("t", &c("missing"), None), "t=\"\"");
    assert_eq!(view.prop_value_to_string(&c("title"), None), "Welcome");
    assert_eq!(view.prop_value_to_string(&c("card"), None), "");
    assert_eq!(view.prop_value_to_string(&c("missing"), None), "");
}

#[test]
fn content_field_props() {
    let view = page(text("x"));
    let rec = record(vec![("label", "One")]);
    let f = |name: &str| PropValue::ContentField(name.to_string());
    assert_eq!(view.render_prop("t", &f("label"), Some(&rec)), "t=\"One\"");
    assert_eq!(view.render_prop("t", &f("href"), Some(&rec)), "t=\"\"");
    assert_eq!(view.render_prop("t", &f("label"), None), "t=\"\"");
    assert_eq!(view.prop_value_to_string(&f("label"), Some(&rec)), "One");
    assert_eq!(view.prop_value_to_string(&f("href"), Some(&rec)), "");
    assert_eq!(view.prop_value_to_string(&f("label"), None), "");
}

#[test]
fn content_list_renders_the_template_for_each_record() {
    let template = node(
        "a",
        props(vec![
            ("href", PropValue::ContentField("href".to_string())),
            ("text", PropValue::ContentField("label".to_string())),
        ]),
        vec![],
    );
    let view = page_with(
        node(
            "nav",
            props(vec![]),
            vec![Element::ContentList {
                source: "items".to_string(),
                template: Box::new(template),
            }],
        ),
        vec![],
        vec![],
        content(),
    );
    let out = view.to_string();
    assert!(out.contains(
        "    <nav>\n      <a href=\"/1\">\n        One\n      </a>\n      <a href=\"\">\n        Two\n      </a>\n    </nav>\n"
    ));
}

#[test]
fn content_list_of_a_missing_or_other_source_renders_nothing() {
    for source in ["missing", "title", "card"] {
        let view = page_with(
            node(
                "nav",
                props(vec![]),
                vec![Element::ContentList {
                    source: source.to_string(),
                    template: Box::new(text("row")),
                }],
            ),
            vec![],
            vec![],
            content(),
        );
        assert!(view.to_string().contains("    <nav>\n    </nav>\n"));
    }
}

#[test]
fn render_element_takes_the_indentation() {
    let view = page(text("x"));
    let tree = node("div", props(vec![]), vec![text("hi")]);
    assert_eq!(view.render_element(&tree, "", None), "<div>\n  hi\n</div>\n");
    assert_eq!(view.render_element(&tree, "  ", None), "  <div>\n    hi\n  </div>\n");
    assert_eq!(view.render_element(&text("t"), "\t", None), "\tt\n");
}

#[test]
fn external_tells_addresses_from_files() {
    assert!(external("http://a"));
    assert!(external("https://a"));
    assert!(external("https://"));
    assert!(!external("./a.png"));
    assert!(!external("ftp://a"));
    assert!(!external("HTTP://a"));
    assert!(!external(""));
    assert!(!external("http:/"));
}

#[test]
fn rendering_twice_gives_the_same_page() {
    let mut card = component("Card", "CardView");
    card.import_path = Some("./CardView".to_string());
    let view = page_with(
        node(
            "div",
            props(vec![("src", asset_ref("logo")), ("n", num("1"))]),
            vec![component_ref("Card", props(vec![]), vec![])],
        ),
        vec![card],
        vec![image("logo", Some("./logo.png"))],
        content(),
    );
    let first = view.to_string();
    assert_eq!(first, view.to_string());
    assert_eq!(first, view.clone().to_string());
}

#[test]
fn element_clone_keeps_the_tree() {
    let tree = node(
        "div",
        props(vec![("id", s("a"))]),
        vec![
            component_ref("Card", props(vec![("n", num("2"))]), vec![text("t")]),
            Element::ContentList { source: "items".to_string(), template: Box::new(text("row")) },
        ],
    );
    let view = page_with(text("x"), vec![], vec![], content());
    assert_eq!(
        view.render_element(&tree.clone(), "", None),
        view.render_element(&tree, "", None)
    );
}
