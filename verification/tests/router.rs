use proto_jsx::{Layout, ProtoIndex, Route, RouterJsx};

fn layout(name: &str, path: &str) -> Layout {
    Layout { name: name.to_string(), path: path.to_string() }
}

fn route(name: &str, url: &str, path: &str, layout: Option<&str>) -> Route {
    Route {
        name: name.to_string(),
        url: url.to_string(),
        proto: None,
        path: path.to_string(),
        layout: layout.map(|l| l.to_string()),
    }
}

fn count(text: &str, piece: &str) -> usize {
    text.matches(piece).count()
}

#[test]
fn one_layout_one_route() {
    let router = RouterJsx {
        layouts: vec![layout("main", "layouts/Main")],
        routes: vec![route("home", "/", "views/Home", Some("main"))],
    };
    let expected = "import { useRoutes } from \"react-router-dom\";\n\
import MainLayout from \"../layouts/Main\";\n\
\n\
import Home from \"../views/Home\";\n\
\n\
function Router() {\n\
\x20 const routes = [\n\
\x20   {\n\
\x20     path: \"/\",\n\
\x20     element: <MainLayout />,\n\
\x20     children: [\n\
\x20       {\n\
\x20         path: \"/\",\n\
\x20         element: <Home />,\n\
\x20       },\n\
\x20     ],\n\
\x20   },\n\
\x20 ];\n\
\n\
\x20 return useRoutes(routes);\n\
}\n\
\n\
export default Router;\n";
    assert_eq!(router.to_string(), expected);
}

#[test]
fn empty_router() {
    let router = RouterJsx { layouts: vec![], routes: vec![] };
    let expected = "import { useRoutes } from \"react-router-dom\";\n\
\n\
\n\
function Router() {\n\
\x20 const routes = [\n\
\x20 ];\n\
\n\
\x20 return useRoutes(routes);\n\
}\n\
\n\
export default Router;\n";
    assert_eq!(router.to_string(), expected);
}

#[test]
fn route_without_layout_stands_at_the_top() {
    let router = RouterJsx {
        layouts: vec![],
        routes: vec![route("login", "/login", "views/Login", None)],
    };
    let text = router.to_string();
    assert!(text.contains("import Login from \"../views/Login\";\n"));
    assert!(text.contains(
        "  const routes = [\n    {\n      path: \"/login\",\n      element: <Login />,\n    },\n  ];\n"
    ));
    assert!(!text.contains("children"));
}

#[test]
fn layout_without_routes_has_no_entry() {
    let router = RouterJsx {
        layouts: vec![layout("main", "layouts/Main"), layout("admin", "layouts/Admin")],
        routes: vec![route("home", "/", "views/Home", Some("admin"))],
    };
    let text = router.to_string();
    assert!(text.contains("import MainLayout from \"../layouts/Main\";\n"));
    assert!(text.contains("import AdminLayout from \"../layouts/Admin\";\n"));
    assert_eq!(count(&text, "element: <MainLayout />"), 0);
    assert_eq!(count(&text, "element: <AdminLayout />"), 1);
}

#[test]
fn same_name_different_paths_get_numbers() {
    let router = RouterJsx {
        layouts: vec![],
        routes: vec![
            route("home", "/a", "views/a/Home", None),
            route("home", "/b", "views/b/Home", None),
            route("home", "/c", "views/c/Home", None),
        ],
    };
    let text = router.to_string();
    assert!(text.contains("import Home from \"../views/a/Home\";\n"));
    assert!(text.contains("import Home2 from \"../views/b/Home\";\n"));
    assert!(text.contains("import Home3 from \"../views/c/Home\";\n"));
    assert!(text.contains("path: \"/b\",\n      element: <Home2 />"));
    assert!(text.contains("path: \"/c\",\n      element: <Home3 />"));
}

#[test]
fn two_layouts_of_one_name_get_numbers() {
    let router = RouterJsx {
        layouts: vec![layout("main", "layouts/A"), layout("main", "layouts/B")],
        routes: vec![],
    };
    let text = router.to_string();
    assert!(text.contains("import MainLayout from \"../layouts/A\";\n"));
    assert!(text.contains("import MainLayout2 from \"../layouts/B\";\n"));
}

#[test]
fn numbered_name_that_is_taken_is_passed_over() {
    let router = RouterJsx {
        layouts: vec![],
        routes: vec![
            route("home", "/a", "p/a", None),
            route("home2", "/b", "p/b", None),
            route("home", "/c", "p/c", None),
        ],
    };
    let text = router.to_string();
    assert!(text.contains("import Home from \"../p/a\";\n"));
    assert!(text.contains("import Home2 from \"../p/b\";\n"));
    assert!(text.contains("import Home3 from \"../p/c\";\n"));
}

#[test]
fn numbers_go_past_nine() {
    let mut routes = Vec::new();
    for i in 0..12 {
        routes.push(route("page", &format!("/{}", i), &format!("p/{}", i), None));
    }
    let router = RouterJsx { layouts: vec![], routes };
    let text = router.to_string();
    assert!(text.contains("import Page from \"../p/0\";\n"));
    assert!(text.contains("import Page9 from \"../p/8\";\n"));
    assert!(text.contains("import Page10 from \"../p/9\";\n"));
    assert!(text.contains("import Page12 from \"../p/11\";\n"));
}

#[test]
fn routes_sharing_a_path_import_once() {
    let router = RouterJsx {
        layouts: vec![],
        routes: vec![
            route("home", "/", "views/Home", None),
            route("start", "/start", "views/Home", None),
        ],
    };
    let text = router.to_string();
    assert_eq!(count(&text, "from \"../views/Home\";"), 1);
    assert_eq!(count(&text, "element: <Home />"), 2);
    assert!(!text.contains("Start"));
}

#[test]
fn layout_and_route_sharing_a_path_share_the_identifier() {
    let router = RouterJsx {
        layouts: vec![layout("main", "shared/Shell")],
        routes: vec![route("shell", "/", "shared/Shell", Some("main"))],
    };
    let text = router.to_string();
    assert!(text.contains("element: <MainLayout />,\n      children: [\n        {\n          path: \"/\",\n          element: <MainLayout />,"));
    assert!(!text.contains("import Shell "));
    assert_eq!(count(&text, "import MainLayout from \"../shared/Shell\";\n"), 1);
    assert_eq!(count(&text, "from \"../shared/Shell\""), 1);
}

#[test]
fn routes_keep_their_order_within_groups() {
    let router = RouterJsx {
        layouts: vec![layout("a", "l/A"), layout("b", "l/B")],
        routes: vec![
            route("one", "/1", "v/One", Some("b")),
            route("two", "/2", "v/Two", None),
            route("three", "/3", "v/Three", Some("a")),
            route("four", "/4", "v/Four", Some("b")),
            route("five", "/5", "v/Five", None),
        ],
    };
    let text = router.to_string();
    let at = |piece: &str| text.find(piece).unwrap();
    assert!(at("element: <ALayout />") < at("element: <Three />"));
    assert!(at("element: <Three />") < at("element: <BLayout />"));
    assert!(at("element: <BLayout />") < at("element: <One />"));
    assert!(at("element: <One />") < at("element: <Four />"));
    assert!(at("element: <Four />") < at("element: <Two />"));
    assert!(at("element: <Two />") < at("element: <Five />"));
    for name in ["One", "Two", "Three", "Four", "Five"] {
        assert_eq!(count(&text, &format!("element: <{} />", name)), 1);
    }
}

#[test]
fn route_of_unknown_layout_is_left_out() {
    let router = RouterJsx {
        layouts: vec![layout("main", "l/Main")],
        routes: vec![
            route("home", "/", "v/Home", Some("main")),
            route("lost", "/lost", "v/Lost", Some("nowhere")),
            route("free", "/free", "v/Free", None),
        ],
    };
    let text = router.to_string();
    assert!(text.contains("import Lost from \"../v/Lost\";\n"));
    assert_eq!(count(&text, "element: <Lost />"), 0);
    assert_eq!(count(&text, "element: <Home />"), 1);
    assert_eq!(count(&text, "element: <Free />"), 1);
    assert_eq!(router.orphaned_routes(), vec![1]);
}

#[test]
fn no_orphans_where_every_layout_is_known() {
    let router = RouterJsx {
        layouts: vec![layout("main", "l/Main")],
        routes: vec![
            route("home", "/", "v/Home", Some("main")),
            route("free", "/free", "v/Free", None),
        ],
    };
    assert_eq!(router.orphaned_routes(), Vec::<usize>::new());
}

#[test]
fn two_layouts_of_one_name_both_hold_the_route() {
    let router = RouterJsx {
        layouts: vec![layout("main", "l/A"), layout("main", "l/B")],
        routes: vec![route("home", "/", "v/Home", Some("main"))],
    };
    let text = router.to_string();
    assert_eq!(count(&text, "element: <Home />"), 2);
}

#[test]
fn from_proto_index_takes_layouts_and_routes() {
    let index = ProtoIndex {
        layouts: vec![layout("main", "layouts/Main")],
        routes: vec![route("home", "/", "views/Home", Some("main"))],
        partials: vec![],
    };
    let router = RouterJsx::from_proto_index(index);
    assert_eq!(router.layouts.len(), 1);
    assert_eq!(router.layouts[0].name, "main");
    assert_eq!(router.routes.len(), 1);
    assert_eq!(router.routes[0].url, "/");
}

#[test]
fn render_with_uses_the_names_given() {
    let router = RouterJsx {
        layouts: vec![layout("main", "layouts/Main")],
        routes: vec![route("home", "/", "views/Home", Some("main"))],
    };
    let names = router.assign_names();
    assert_eq!(names.get("layouts/Main").map(|s| s.as_str()), Some("MainLayout"));
    assert_eq!(names.get("views/Home").map(|s| s.as_str()), Some("Home"));
    assert_eq!(names.get("views/Other"), None);
    assert_eq!(router.render_with(&names), router.to_string());
}

#[test]
fn rendering_twice_gives_the_same_text() {
    let router = RouterJsx {
        layouts: vec![layout("a", "l/A")],
        routes: vec![route("one", "/1", "v/One", Some("a")), route("two", "/2", "v/Two", None)],
    };
    assert_eq!(router.to_string(), router.clone().to_string());
}
