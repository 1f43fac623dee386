use crate::naming::{
    ident, layout_base, lemma_distinct_paths_distinct_names, lemma_names_after,
    lemma_second_is_numbered, names_after, numbered, route_base, ImportMap, Names,
};
use crate::ordered_map::{first_index, lemma_first_index, lookup};
use crate::text::{
    every, joined, joined_at, kept, lemma_joined_is_kept, lemma_kept, lemma_kept_contains,
    same_text,
};
use crate::{layouts_view, routes_view, Layout, LayoutView, ProtoIndex, Route, RouteView};
use vstd::pervasive::unreached;
use vstd::prelude::*;

verus! {

/// What the layouts ask for, in order: each one's path and identifier.
pub open spec fn layout_entries(layouts: Seq<LayoutView>) -> Seq<(Seq<char>, Seq<char>)> {
    layouts.map_values(|l: LayoutView| (l.path, layout_base(l.name)))
}

/// What the routes ask for, in order: each one's path and identifier.
pub open spec fn route_entries(routes: Seq<RouteView>) -> Seq<(Seq<char>, Seq<char>)> {
    routes.map_values(|r: RouteView| (r.path, route_base(r.name)))
}

/// What the files of a router ask for: the layouts first, then the routes.
pub open spec fn entries(layouts: Seq<LayoutView>, routes: Seq<RouteView>) -> Seq<
    (Seq<char>, Seq<char>),
> {
    layout_entries(layouts) + route_entries(routes)
}

/// The identifiers of the files of a router.
pub open spec fn assigned_names(layouts: Seq<LayoutView>, routes: Seq<RouteView>) -> Names {
    names_after(entries(layouts, routes), layouts.len() + routes.len())
}

/// Every layout's and every route's file has an identifier.
pub open spec fn covers(names: Names, layouts: Seq<LayoutView>, routes: Seq<RouteView>) -> bool {
    &&& forall|i: int| 0 <= i < layouts.len() ==> lookup(names, #[trigger] layouts[i].path) is Some
    &&& forall|i: int| 0 <= i < routes.len() ==> lookup(names, #[trigger] routes[i].path) is Some
}

/// The line that imports the component `name` from the file at `path`.
pub open spec fn import_line(name: Seq<char>, path: Seq<char>) -> Seq<char> {
    "import "@ + name + " from \"../"@ + path + "\";\n"@
}

/// The import of the layout at each position.
pub open spec fn layout_import(names: Names, layouts: Seq<LayoutView>) -> spec_fn(int) -> Seq<
    char,
> {
    |i: int| import_line(ident(names, layouts[i].path), layouts[i].path)
}

/// The import of the route at each position.
pub open spec fn route_import(names: Names, routes: Seq<RouteView>) -> spec_fn(int) -> Seq<char> {
    |i: int| import_line(ident(names, routes[i].path), routes[i].path)
}

/// Whether the route at a position brings its file's import: it does where
/// no layout and no earlier route has its path.
pub open spec fn first_with_path(layouts: Seq<LayoutView>, routes: Seq<RouteView>) -> spec_fn(
    int,
) -> bool {
    |i: int|
        (forall|l: int| 0 <= l < layouts.len() ==> (#[trigger] layouts[l]).path != routes[i].path)
            && (forall|j: int| 0 <= j < i ==> (#[trigger] routes[j]).path != routes[i].path)
}

/// Whether the route at a position names the layout `name`.
pub open spec fn under_layout(routes: Seq<RouteView>, name: Seq<char>) -> spec_fn(int) -> bool {
    |i: int| routes[i].layout == Some(name)
}

/// Whether the route at a position names no layout.
pub open spec fn without_layout(routes: Seq<RouteView>) -> spec_fn(int) -> bool {
    |i: int| routes[i].layout is None
}

/// Whether some route names the layout at a position.
pub open spec fn has_routes(layouts: Seq<LayoutView>, routes: Seq<RouteView>) -> spec_fn(
    int,
) -> bool {
    |i: int|
        exists|j: int|
            0 <= j < routes.len() && (#[trigger] routes[j]).layout == Some(layouts[i].name)
}

/// Whether the route at a position names a layout that is not among the
/// layouts. Such a route stands nowhere in the array of routes.
pub open spec fn is_orphan(layouts: Seq<LayoutView>, routes: Seq<RouteView>) -> spec_fn(
    int,
) -> bool {
    |j: int|
        routes[j].layout is Some && forall|i: int|
            0 <= i < layouts.len() ==> Some((#[trigger] layouts[i]).name) != routes[j].layout
}

/// The entry of the route at each position, as a child of its layout.
pub open spec fn child_entry(names: Names, routes: Seq<RouteView>) -> spec_fn(int) -> Seq<char> {
    |i: int|
        "        {\n          path: \""@ + routes[i].url + "\",\n          element: <"@ + ident(
            names,
            routes[i].path,
        ) + " />,\n        },\n"@
}

/// The entry of the route at each position, at the top of the array.
pub open spec fn top_entry(names: Names, routes: Seq<RouteView>) -> spec_fn(int) -> Seq<char> {
    |i: int|
        "    {\n      path: \""@ + routes[i].url + "\",\n      element: <"@ + ident(
            names,
            routes[i].path,
        ) + " />,\n    },\n"@
}

/// The entries of the routes that name the layout `name`, in the routes'
/// order.
pub open spec fn children_text(names: Names, routes: Seq<RouteView>, name: Seq<char>) -> Seq<
    char,
> {
    joined(routes.len(), under_layout(routes, name), child_entry(names, routes))
}

/// The entry of the layout at each position, with its routes as children.
pub open spec fn layout_group(
    names: Names,
    layouts: Seq<LayoutView>,
    routes: Seq<RouteView>,
) -> spec_fn(int) -> Seq<char> {
    |i: int|
        "    {\n      path: \"/\",\n      element: <"@ + ident(names, layouts[i].path)
            + " />,\n      children: [\n"@ + children_text(names, routes, layouts[i].name)
            + "      ],\n    },\n"@
}

/// The imports of a router: the hook, each layout, a blank line, and each
/// route's file that no layout and no earlier route has brought.
pub open spec fn imports_text(
    names: Names,
    layouts: Seq<LayoutView>,
    routes: Seq<RouteView>,
) -> Seq<char> {
    "import { useRoutes } from \"react-router-dom\";\n"@ + joined(
        layouts.len(),
        every(),
        layout_import(names, layouts),
    ) + "\n"@ + joined(
        routes.len(),
        first_with_path(layouts, routes),
        route_import(names, routes),
    )
}

/// The array of routes: an entry for each layout that a route names, in the
/// layouts' order, then an entry for each route that names no layout.
pub open spec fn routes_text(
    names: Names,
    layouts: Seq<LayoutView>,
    routes: Seq<RouteView>,
) -> Seq<char> {
    "  const routes = [\n"@ + joined(
        layouts.len(),
        has_routes(layouts, routes),
        layout_group(names, layouts, routes),
    ) + joined(routes.len(), without_layout(routes), top_entry(names, routes)) + "  ];\n"@
}

/// The router's source, with the identifiers in `names`.
pub open spec fn router_text_with(
    names: Names,
    layouts: Seq<LayoutView>,
    routes: Seq<RouteView>,
) -> Seq<char> {
    imports_text(names, layouts, routes) + "\nfunction Router() {\n"@ + routes_text(
        names,
        layouts,
        routes,
    ) + "\n  return useRoutes(routes);\n}\n\nexport default Router;\n"@
}

/// The router's source.
pub open spec fn router_text(layouts: Seq<LayoutView>, routes: Seq<RouteView>) -> Seq<char> {
    router_text_with(assigned_names(layouts, routes), layouts, routes)
}

/// A router: the layouts and routes of a site.
#[derive(Debug, Clone)]
pub struct RouterJsx {
    pub layouts: Vec<Layout>,
    pub routes: Vec<Route>,
}

/// What a `RouterJsx` stands for.
pub struct RouterJsxView {
    pub layouts: Seq<LayoutView>,
    pub routes: Seq<RouteView>,
}

impl View for RouterJsx {
    type V = RouterJsxView;

    open spec fn view(&self) -> RouterJsxView {
        RouterJsxView { layouts: layouts_view(self.layouts@), routes: routes_view(self.routes@) }
    }
}

/// Appends to `out` the line that imports `name` from `path`.
fn push_import(out: &mut String, name: &str, path: &str)
    ensures
        final(out)@ == old(out)@ + import_line(name@, path@),
{
    let mut line = String::from_str("import ");
    line.append(name);
    line.append(" from \"../");
    line.append(path);
    line.append("\";\n");
    out.append(line.as_str());
}

impl RouterJsx {
    /// The router of a route table.
    pub fn from_proto_index(index: ProtoIndex) -> (r: Self)
        ensures
            r.layouts == index.layouts,
            r.routes == index.routes,
            r@.layouts == index@.layouts,
            r@.routes == index@.routes,
    {
        RouterJsx { layouts: index.layouts, routes: index.routes }
    }

    /// Gives every file its identifier: the layouts' files first, then the
    /// routes', each in its order.
    pub fn assign_names(&self) -> (names: ImportMap)
        ensures
            names@ == assigned_names(self@.layouts, self@.routes),
    {
        let ghost all = entries(self@.layouts, self@.routes);
        let mut names = ImportMap::new();
        let mut i: usize = 0;
        while i < self.layouts.len()
            invariant
                i <= self.layouts.len(),
                all == entries(self@.layouts, self@.routes),
                names@ == names_after(all, i as nat),
            decreases self.layouts.len() - i,
        {
            names.add_layout(&self.layouts[i]);
            assert(all[i as int] == (
                self.layouts[i as int]@.path,
                layout_base(self.layouts[i as int]@.name),
            ));
            i += 1;
        }
        let n = self.layouts.len();
        let mut j: usize = 0;
        while j < self.routes.len()
            invariant
                j <= self.routes.len(),
                n == self.layouts.len(),
                all == entries(self@.layouts, self@.routes),
                names@ == names_after(all, (n + j) as nat),
            decreases self.routes.len() - j,
        {
            names.add_route(&self.routes[j]);
            assert(all[n + j] == (
                self.routes[j as int]@.path,
                route_base(self.routes[j as int]@.name),
            ));
            j += 1;
        }
        names
    }

    /// The identifier of the file at `path`.
    fn name_of<'a>(names: &'a ImportMap, path: &str) -> (r: &'a str)
        requires
            lookup(names@, path@) is Some,
        ensures
            r@ == ident(names@, path@),
    {
        match names.get(path) {
            Some(name) => name.as_str(),
            None => unreached(),
        }
    }

    /// Whether no layout and no route before the one at `i` has its path.
    fn path_is_new(&self, i: usize) -> (r: bool)
        requires
            i < self.routes.len(),
        ensures
            r == first_with_path(self@.layouts, self@.routes)(i as int),
    {
        let path = self.routes[i].path.as_str();
        assert(path@ == self@.routes[i as int].path);
        let mut l: usize = 0;
        while l < self.layouts.len()
            invariant
                l <= self.layouts.len(),
                i < self.routes.len(),
                path@ == self@.routes[i as int].path,
                forall|k: int| 0 <= k < l ==> (#[trigger] self@.layouts[k]).path != path@,
            decreases self.layouts.len() - l,
        {
            if same_text(self.layouts[l].path.as_str(), path) {
                assert(self@.layouts[l as int].path == path@);
                return false;
            }
            l += 1;
        }
        let mut j: usize = 0;
        while j < i
            invariant
                j <= i < self.routes.len(),
                path@ == self@.routes[i as int].path,
                forall|k: int|
                    0 <= k < self.layouts.len() ==> (#[trigger] self@.layouts[k]).path != path@,
                forall|k: int| 0 <= k < j ==> (#[trigger] self@.routes[k]).path != path@,
            decreases i - j,
        {
            if same_text(self.routes[j].path.as_str(), path) {
                assert(self@.routes[j as int].path == path@);
                return false;
            }
            j += 1;
        }
        true
    }

    /// The entries of the routes that name `layout`, and whether there is
    /// any.
    fn render_children(&self, names: &ImportMap, layout: &str) -> (r: (String, bool))
        requires
            covers(names@, self@.layouts, self@.routes),
        ensures
            r.0@ == children_text(names@, self@.routes, layout@),
            r.1 == exists|j: int|
                0 <= j < self@.routes.len() && (#[trigger] self@.routes[j]).layout == Some(layout@),
    {
        let ghost keep = under_layout(self@.routes, layout@);
        let ghost line = child_entry(names@, self@.routes);
        let mut out = String::new();
        let mut any = false;
        let mut j: usize = 0;
        while j < self.routes.len()
            invariant
                j <= self.routes.len(),
                covers(names@, self@.layouts, self@.routes),
                keep == under_layout(self@.routes, layout@),
                line == child_entry(names@, self@.routes),
                out@ == joined(j as nat, keep, line),
                any == exists|k: int|
                    0 <= k < j && (#[trigger] self@.routes[k]).layout == Some(layout@),
            decreases self.routes.len() - j,
        {
            let route = &self.routes[j];
            assert(route@ == self@.routes[j as int]);
            assert(lookup(names@, self@.routes[j as int].path) is Some);
            let under = match &route.layout {
                Some(l) => same_text(l.as_str(), layout),
                None => false,
            };
            assert(under == keep(j as int));
            if under {
                let mut entry = String::from_str("        {\n          path: \"");
                entry.append(route.url.as_str());
                entry.append("\",\n          element: <");
                entry.append(Self::name_of(names, route.path.as_str()));
                entry.append(" />,\n        },\n");
                assert(entry@ == line(j as int));
                out.append(entry.as_str());
                any = true;
            }
            j += 1;
        }
        (out, any)
    }

    /// The router's source, with the identifiers in `names`.
    pub fn render_with(&self, names: &ImportMap) -> (r: String)
        requires
            covers(names@, self@.layouts, self@.routes),
        ensures
            r@ == router_text_with(names@, self@.layouts, self@.routes),
    {
        let ghost layouts = self@.layouts;
        let ghost routes = self@.routes;
        let mut imports = String::from_str("import { useRoutes } from \"react-router-dom\";\n");
        let ghost head = imports@;
        let mut i: usize = 0;
        while i < self.layouts.len()
            invariant
                i <= self.layouts.len(),
                layouts == self@.layouts,
                routes == self@.routes,
                covers(names@, layouts, routes),
                imports@ == head + joined(i as nat, every(), layout_import(names@, layouts)),
            decreases self.layouts.len() - i,
        {
            let layout = &self.layouts[i];
            assert(layout@ == layouts[i as int]);
            assert(lookup(names@, layouts[i as int].path) is Some);
            let name = Self::name_of(names, layout.path.as_str());
            push_import(&mut imports, name, layout.path.as_str());
            assert(imports@ =~= head + joined(
                (i + 1) as nat,
                every(),
                layout_import(names@, layouts),
            ));
            i += 1;
        }
        imports.append("\n");
        let ghost head = imports@;
        let mut j: usize = 0;
        while j < self.routes.len()
            invariant
                j <= self.routes.len(),
                layouts == self@.layouts,
                routes == self@.routes,
                covers(names@, layouts, routes),
                imports@ == head + joined(
                    j as nat,
                    first_with_path(layouts, routes),
                    route_import(names@, routes),
                ),
            decreases self.routes.len() - j,
        {
            if self.path_is_new(j) {
                let route = &self.routes[j];
                assert(route@ == routes[j as int]);
                assert(lookup(names@, routes[j as int].path) is Some);
            assert(lookup(names@, routes[j as int].path) is Some);
                let name = Self::name_of(names, route.path.as_str());
                push_import(&mut imports, name, route.path.as_str());
            }
            assert(imports@ =~= head + joined(
                (j + 1) as nat,
                first_with_path(layouts, routes),
                route_import(names@, routes),
            ));
            j += 1;
        }
        assert(imports@ == imports_text(names@, layouts, routes));

        let mut elements = String::from_str("  const routes = [\n");
        let ghost head = elements@;
        let mut i: usize = 0;
        while i < self.layouts.len()
            invariant
                i <= self.layouts.len(),
                layouts == self@.layouts,
                routes == self@.routes,
                covers(names@, layouts, routes),
                elements@ == head + joined(
                    i as nat,
                    has_routes(layouts, routes),
                    layout_group(names@, layouts, routes),
                ),
            decreases self.layouts.len() - i,
        {
            let layout = &self.layouts[i];
            assert(layout@ == layouts[i as int]);
            assert(lookup(names@, layouts[i as int].path) is Some);
            let (children, any) = self.render_children(names, layout.name.as_str());
            assert(any == has_routes(layouts, routes)(i as int));
            if any {
                let mut group = String::from_str("    {\n      path: \"/\",\n      element: <");
                group.append(Self::name_of(names, layout.path.as_str()));
                group.append(" />,\n      children: [\n");
                group.append(children.as_str());
                group.append("      ],\n    },\n");
                assert(group@ == layout_group(names@, layouts, routes)(i as int));
                elements.append(group.as_str());
            }
            assert(elements@ =~= head + joined(
                (i + 1) as nat,
                has_routes(layouts, routes),
                layout_group(names@, layouts, routes),
            ));
            i += 1;
        }
        let ghost head = elements@;
        let mut j: usize = 0;
        while j < self.routes.len()
            invariant
                j <= self.routes.len(),
                layouts == self@.layouts,
                routes == self@.routes,
                covers(names@, layouts, routes),
                elements@ == head + joined(
                    j as nat,
                    without_layout(routes),
                    top_entry(names@, routes),
                ),
            decreases self.routes.len() - j,
        {
            let route = &self.routes[j];
            assert(route@ == routes[j as int]);
            assert(lookup(names@, routes[j as int].path) is Some);
            if route.layout.is_none() {
                let mut entry = String::from_str("    {\n      path: \"");
                entry.append(route.url.as_str());
                entry.append("\",\n      element: <");
                entry.append(Self::name_of(names, route.path.as_str()));
                entry.append(" />,\n    },\n");
                assert(entry@ == top_entry(names@, routes)(j as int));
                elements.append(entry.as_str());
            }
            assert(elements@ =~= head + joined(
                (j + 1) as nat,
                without_layout(routes),
                top_entry(names@, routes),
            ));
            j += 1;
        }
        elements.append("  ];\n");
        assert(elements@ == routes_text(names@, layouts, routes));

        let mut out = imports;
        out.append("\nfunction Router() {\n");
        out.append(elements.as_str());
        out.append("\n  return useRoutes(routes);\n}\n\nexport default Router;\n");
        out
    }

    /// Whether a layout has the name `name`.
    fn has_layout(&self, name: &str) -> (r: bool)
        ensures
            r == exists|i: int|
                0 <= i < self@.layouts.len() && (#[trigger] self@.layouts[i]).name == name@,
    {
        let mut i: usize = 0;
        while i < self.layouts.len()
            invariant
                i <= self.layouts.len(),
                forall|k: int| 0 <= k < i ==> (#[trigger] self@.layouts[k]).name != name@,
            decreases self.layouts.len() - i,
        {
            if same_text(self.layouts[i].name.as_str(), name) {
                assert(self@.layouts[i as int].name == name@);
                return true;
            }
            i += 1;
        }
        false
    }

    /// The positions of the routes that name a layout which is not among
    /// the layouts, in increasing order. The router's source leaves these
    /// routes out.
    pub fn orphaned_routes(&self) -> (r: Vec<usize>)
        ensures
            r@.map_values(|j: usize| j as int) == kept(
                self@.routes.len(),
                is_orphan(self@.layouts, self@.routes),
            ),
    {
        let ghost keep = is_orphan(self@.layouts, self@.routes);
        let mut orphans: Vec<usize> = Vec::new();
        let mut j: usize = 0;
        while j < self.routes.len()
            invariant
                j <= self.routes.len(),
                keep == is_orphan(self@.layouts, self@.routes),
                orphans@.map_values(|j: usize| j as int) == kept(j as nat, keep),
            decreases self.routes.len() - j,
        {
            let ghost before = orphans@.map_values(|j: usize| j as int);
            assert(self@.routes[j as int] == self.routes[j as int]@);
            let orphan = match &self.routes[j].layout {
                Some(name) => !self.has_layout(name.as_str()),
                None => false,
            };
            assert(orphan == keep(j as int));
            if orphan {
                orphans.push(j);
                assert(orphans@.map_values(|j: usize| j as int) =~= before.push(j as int));
            }
            j += 1;
        }
        orphans
    }

    /// The router's source: the imports, then the function that holds the
    /// array of routes, then the export.
    pub fn to_string(&self) -> (r: String)
        ensures
            r@ == router_text(self@.layouts, self@.routes),
    {
        let names = self.assign_names();
        proof {
            lemma_assigned_covers(self@.layouts, self@.routes);
        }
        self.render_with(&names)
    }
}

/// Whether `path` is the path of a layout or of a route.
pub open spec fn is_path(
    layouts: Seq<LayoutView>,
    routes: Seq<RouteView>,
    path: Seq<char>,
) -> bool {
    ||| exists|i: int| 0 <= i < layouts.len() && (#[trigger] layouts[i]).path == path
    ||| exists|i: int| 0 <= i < routes.len() && (#[trigger] routes[i]).path == path
}

/// What a router's files ask for: each layout's entry at the layout's
/// position, each route's entry behind the layouts.
pub proof fn lemma_entries(layouts: Seq<LayoutView>, routes: Seq<RouteView>)
    ensures
        entries(layouts, routes).len() == layouts.len() + routes.len(),
        forall|i: int|
            0 <= i < layouts.len() ==> #[trigger] entries(layouts, routes)[i] == (
                layouts[i].path,
                layout_base(layouts[i].name),
            ),
        forall|i: int|
            0 <= i < routes.len() ==> #[trigger] entries(layouts, routes)[layouts.len() + i] == (
                routes[i].path,
                route_base(routes[i].name),
            ),
{
}

/// Every layout's and every route's file gets an identifier.
pub proof fn lemma_assigned_covers(layouts: Seq<LayoutView>, routes: Seq<RouteView>)
    ensures
        covers(assigned_names(layouts, routes), layouts, routes),
{
    let all = entries(layouts, routes);
    lemma_entries(layouts, routes);
    lemma_names_after(all, all.len());
    let names = assigned_names(layouts, routes);
    assert forall|i: int| 0 <= i < layouts.len() implies lookup(
        names,
        #[trigger] layouts[i].path,
    ) is Some by {
        assert(all[i].0 == layouts[i].path);
    }
    assert forall|i: int| 0 <= i < routes.len() implies lookup(names, #[trigger] routes[i].path)
        is Some by {
        assert(all[layouts.len() + i].0 == routes[i].path);
    }
}

/// Two files at different paths, of layouts or of routes, get different
/// identifiers.
pub proof fn lemma_names_distinct(
    layouts: Seq<LayoutView>,
    routes: Seq<RouteView>,
    p: Seq<char>,
    q: Seq<char>,
)
    requires
        is_path(layouts, routes, p),
        is_path(layouts, routes, q),
        p != q,
    ensures
        lookup(assigned_names(layouts, routes), p) is Some,
        lookup(assigned_names(layouts, routes), q) is Some,
        ident(assigned_names(layouts, routes), p) != ident(assigned_names(layouts, routes), q),
{
    let all = entries(layouts, routes);
    lemma_entries(layouts, routes);
    let a = if exists|i: int| 0 <= i < layouts.len() && (#[trigger] layouts[i]).path == p {
        choose|i: int| 0 <= i < layouts.len() && (#[trigger] layouts[i]).path == p
    } else {
        layouts.len() + choose|i: int| 0 <= i < routes.len() && (#[trigger] routes[i]).path == p
    };
    let b = if exists|i: int| 0 <= i < layouts.len() && (#[trigger] layouts[i]).path == q {
        choose|i: int| 0 <= i < layouts.len() && (#[trigger] layouts[i]).path == q
    } else {
        layouts.len() + choose|i: int| 0 <= i < routes.len() && (#[trigger] routes[i]).path == q
    };
    assert(all[a].0 == p);
    assert(all[b].0 == q);
    lemma_distinct_paths_distinct_names(all, a, b);
}

/// A layout and a route that name the same file have the same identifier,
/// and the route brings no import of its own. Where no other layout names
/// that file, the imports hold one line for it: the layout's.
pub proof fn lemma_shared_path_imported_once(
    layouts: Seq<LayoutView>,
    routes: Seq<RouteView>,
    i: int,
    j: int,
)
    requires
        0 <= i < layouts.len(),
        0 <= j < routes.len(),
        layouts[i].path == routes[j].path,
    ensures
        lookup(assigned_names(layouts, routes), layouts[i].path) is Some,
        ident(assigned_names(layouts, routes), layouts[i].path) == ident(
            assigned_names(layouts, routes),
            routes[j].path,
        ),
        kept(layouts.len(), every()).contains(i),
        forall|k: int|
            0 <= k < routes.len() && routes[k].path == routes[j].path ==> !(#[trigger] kept(
                routes.len(),
                first_with_path(layouts, routes),
            ).contains(k)),
        (forall|l: int| 0 <= l < layouts.len() && l != i ==> (#[trigger] layouts[l]).path
            != layouts[i].path) ==> forall|l: int|
            #[trigger] kept(layouts.len(), every()).contains(l) && layouts[l].path
                == layouts[i].path ==> l == i,
{
    lemma_assigned_covers(layouts, routes);
    lemma_kept_contains(layouts.len(), every(), i);
    assert forall|k: int|
        0 <= k < routes.len() && routes[k].path == routes[j].path implies !(#[trigger] kept(
        routes.len(),
        first_with_path(layouts, routes),
    ).contains(k)) by {
        lemma_kept_contains(routes.len(), first_with_path(layouts, routes), k);
        assert(layouts[i].path == routes[k].path);
    }
    assert forall|l: int| #[trigger] kept(layouts.len(), every()).contains(l) implies 0 <= l
        < layouts.len() by {
        lemma_kept_contains(layouts.len(), every(), l);
    }
}

/// Of two layouts with one name and different files, each the first entry to
/// name its file, the second gets the identifier with a number from 2 on
/// behind it.
pub proof fn lemma_layouts_sharing_name(
    layouts: Seq<LayoutView>,
    routes: Seq<RouteView>,
    i: int,
    j: int,
)
    requires
        0 <= i < j < layouts.len(),
        layouts[i].name == layouts[j].name,
        forall|k: int| 0 <= k < i ==> (#[trigger] layouts[k]).path != layouts[i].path,
        forall|k: int| 0 <= k < j ==> (#[trigger] layouts[k]).path != layouts[j].path,
    ensures
        exists|k: nat|
            k >= 2 && ident(assigned_names(layouts, routes), layouts[j].path) == numbered(
                layout_base(layouts[j].name),
                k,
            ),
        ident(assigned_names(layouts, routes), layouts[i].path) != ident(
            assigned_names(layouts, routes),
            layouts[j].path,
        ),
{
    let all = entries(layouts, routes);
    lemma_entries(layouts, routes);
    assert forall|k: int| 0 <= k < i implies (#[trigger] all[k]).0 != all[i].0 by {
        assert(layouts[k].path != layouts[i].path);
    }
    assert forall|k: int| 0 <= k < j implies (#[trigger] all[k]).0 != all[j].0 by {
        assert(layouts[k].path != layouts[j].path);
    }
    lemma_second_is_numbered(all, i, j);
    lemma_distinct_paths_distinct_names(all, i, j);
}

/// Of two routes with one name and different files, each the first entry to
/// name its file, the second gets the identifier with a number from 2 on
/// behind it.
pub proof fn lemma_routes_sharing_name(
    layouts: Seq<LayoutView>,
    routes: Seq<RouteView>,
    i: int,
    j: int,
)
    requires
        0 <= i < j < routes.len(),
        routes[i].name == routes[j].name,
        forall|k: int| 0 <= k < layouts.len() ==> (#[trigger] layouts[k]).path != routes[i].path,
        forall|k: int| 0 <= k < layouts.len() ==> (#[trigger] layouts[k]).path != routes[j].path,
        forall|k: int| 0 <= k < i ==> (#[trigger] routes[k]).path != routes[i].path,
        forall|k: int| 0 <= k < j ==> (#[trigger] routes[k]).path != routes[j].path,
    ensures
        exists|k: nat|
            k >= 2 && ident(assigned_names(layouts, routes), routes[j].path) == numbered(
                route_base(routes[j].name),
                k,
            ),
        ident(assigned_names(layouts, routes), routes[i].path) != ident(
            assigned_names(layouts, routes),
            routes[j].path,
        ),
{
    let all = entries(layouts, routes);
    let n = layouts.len() as int;
    lemma_entries(layouts, routes);
    assert forall|k: int| 0 <= k < n + i implies (#[trigger] all[k]).0 != all[n + i].0 by {
        if k < n {
            assert(layouts[k].path != routes[i].path);
        } else {
            assert(all[n + (k - n)].0 == routes[k - n].path);
            assert(routes[k - n].path != routes[i].path);
        }
    }
    assert forall|k: int| 0 <= k < n + j implies (#[trigger] all[k]).0 != all[n + j].0 by {
        if k < n {
            assert(layouts[k].path != routes[j].path);
        } else {
            assert(all[n + (k - n)].0 == routes[k - n].path);
            assert(routes[k - n].path != routes[j].path);
        }
    }
    lemma_second_is_numbered(all, n + i, n + j);
    lemma_distinct_paths_distinct_names(all, n + i, n + j);
}

/// The imports of the routes hold one line for each path that a route
/// names and no layout does: the line of the first route with that path.
pub proof fn lemma_route_imports_once(
    names: Names,
    layouts: Seq<LayoutView>,
    routes: Seq<RouteView>,
    j: int,
)
    requires
        0 <= j < routes.len(),
        forall|l: int| 0 <= l < layouts.len() ==> (#[trigger] layouts[l]).path != routes[j].path,
    ensures
        joined(routes.len(), first_with_path(layouts, routes), route_import(names, routes))
            == joined_at(
            kept(routes.len(), first_with_path(layouts, routes)),
            route_import(names, routes),
        ),
        kept(routes.len(), first_with_path(layouts, routes)).no_duplicates(),
        exists|i: int|
            0 <= i <= j && routes[i].path == routes[j].path && #[trigger] kept(
                routes.len(),
                first_with_path(layouts, routes),
            ).contains(i) && forall|k: int|
                kept(routes.len(), first_with_path(layouts, routes)).contains(k) && routes[k].path
                    == routes[j].path ==> k == i,
{
    let keep = first_with_path(layouts, routes);
    let at = kept(routes.len(), keep);
    let paths = routes.map_values(|r: RouteView| r.path);
    lemma_joined_is_kept(routes.len(), keep, route_import(names, routes));
    lemma_kept(routes.len(), keep);
    lemma_first_index(paths, routes[j].path);
    assert(paths[j] == routes[j].path);
    let i = first_index(paths, routes[j].path).unwrap();
    assert(paths[i] == routes[i].path);
    assert forall|k: int| 0 <= k < i implies (#[trigger] routes[k]).path != routes[i].path by {
        assert(paths[k] == routes[k].path);
    }
    assert(keep(i));
    lemma_kept_contains(routes.len(), keep, i);
    assert forall|k: int| at.contains(k) && routes[k].path == routes[j].path implies k == i by {
        lemma_kept_contains(routes.len(), keep, k);
        if i < k {
            assert(routes[i].path == routes[k].path);
        } else if k < i {
            assert(paths[k] == routes[k].path);
        }
    }
}

/// The routes under a layout's name are the routes that name it, each once,
/// in the routes' order; so are the routes at the top, of the routes that
/// name no layout. A layout has an entry where a route names it, and the
/// entries of the layouts stand in the layouts' order.
pub proof fn lemma_grouping(names: Names, layouts: Seq<LayoutView>, routes: Seq<RouteView>)
    ensures
        forall|name: Seq<char>| #[trigger]
            children_text(names, routes, name) == joined_at(
                kept(routes.len(), under_layout(routes, name)),
                child_entry(names, routes),
            ),
        forall|name: Seq<char>, j: int|
            0 <= j < routes.len() ==> (#[trigger] kept(
                routes.len(),
                under_layout(routes, name),
            ).contains(j) <==> routes[j].layout == Some(name)),
        forall|name: Seq<char>, a: int, b: int|
            0 <= a < b < kept(routes.len(), under_layout(routes, name)).len() ==> #[trigger] kept(
                routes.len(),
                under_layout(routes, name),
            )[a] < #[trigger] kept(routes.len(), under_layout(routes, name))[b],
        joined(routes.len(), without_layout(routes), top_entry(names, routes)) == joined_at(
            kept(routes.len(), without_layout(routes)),
            top_entry(names, routes),
        ),
        forall|j: int|
            0 <= j < routes.len() ==> (#[trigger] kept(routes.len(), without_layout(routes)).contains(
                j,
            ) <==> routes[j].layout is None),
        forall|a: int, b: int|
            0 <= a < b < kept(routes.len(), without_layout(routes)).len() ==> #[trigger] kept(
                routes.len(),
                without_layout(routes),
            )[a] < #[trigger] kept(routes.len(), without_layout(routes))[b],
        joined(
            layouts.len(),
            has_routes(layouts, routes),
            layout_group(names, layouts, routes),
        ) == joined_at(
            kept(layouts.len(), has_routes(layouts, routes)),
            layout_group(names, layouts, routes),
        ),
        forall|i: int|
            0 <= i < layouts.len() ==> (#[trigger] kept(
                layouts.len(),
                has_routes(layouts, routes),
            ).contains(i) <==> exists|j: int|
                0 <= j < routes.len() && (#[trigger] routes[j]).layout == Some(layouts[i].name)),
        forall|a: int, b: int|
            0 <= a < b < kept(layouts.len(), has_routes(layouts, routes)).len() ==> #[trigger] kept(
                layouts.len(),
                has_routes(layouts, routes),
            )[a] < #[trigger] kept(layouts.len(), has_routes(layouts, routes))[b],
{
    assert forall|name: Seq<char>| #[trigger]
        children_text(names, routes, name) == joined_at(
            kept(routes.len(), under_layout(routes, name)),
            child_entry(names, routes),
        ) by {
        lemma_joined_is_kept(routes.len(), under_layout(routes, name), child_entry(names, routes));
    }
    assert forall|name: Seq<char>, j: int| 0 <= j < routes.len() implies (#[trigger] kept(
        routes.len(),
        under_layout(routes, name),
    ).contains(j) <==> routes[j].layout == Some(name)) by {
        lemma_kept_contains(routes.len(), under_layout(routes, name), j);
    }
    assert forall|name: Seq<char>, a: int, b: int|
        0 <= a < b < kept(routes.len(), under_layout(routes, name)).len() implies #[trigger] kept(
            routes.len(),
            under_layout(routes, name),
        )[a] < #[trigger] kept(routes.len(), under_layout(routes, name))[b] by {
        lemma_kept(routes.len(), under_layout(routes, name));
    }
    lemma_joined_is_kept(routes.len(), without_layout(routes), top_entry(names, routes));
    lemma_kept(routes.len(), without_layout(routes));
    assert forall|j: int| 0 <= j < routes.len() implies (#[trigger] kept(
        routes.len(),
        without_layout(routes),
    ).contains(j) <==> routes[j].layout is None) by {
        lemma_kept_contains(routes.len(), without_layout(routes), j);
    }
    lemma_joined_is_kept(
        layouts.len(),
        has_routes(layouts, routes),
        layout_group(names, layouts, routes),
    );
    lemma_kept(layouts.len(), has_routes(layouts, routes));
    assert forall|i: int| 0 <= i < layouts.len() implies (#[trigger] kept(
        layouts.len(),
        has_routes(layouts, routes),
    ).contains(i) <==> exists|j: int|
        0 <= j < routes.len() && (#[trigger] routes[j]).layout == Some(layouts[i].name)) by {
        lemma_kept_contains(layouts.len(), has_routes(layouts, routes), i);
    }
}

/// Where no two layouts share a name, a route that names a layout stands
/// among the children of one layout and of no other.
pub proof fn lemma_one_group(layouts: Seq<LayoutView>, routes: Seq<RouteView>, i: int, j: int)
    requires
        forall|a: int, b: int|
            0 <= a < b < layouts.len() ==> (#[trigger] layouts[a]).name != (
            #[trigger] layouts[b]).name,
        0 <= i < layouts.len(),
        0 <= j < routes.len(),
        routes[j].layout == Some(layouts[i].name),
    ensures
        kept(layouts.len(), has_routes(layouts, routes)).contains(i),
        kept(routes.len(), under_layout(routes, layouts[i].name)).contains(j),
        !kept(routes.len(), without_layout(routes)).contains(j),
        forall|other: int|
            0 <= other < layouts.len() && other != i ==> !(#[trigger] kept(
                routes.len(),
                under_layout(routes, layouts[other].name),
            ).contains(j)),
{
    lemma_kept_contains(layouts.len(), has_routes(layouts, routes), i);
    lemma_kept_contains(routes.len(), under_layout(routes, layouts[i].name), j);
    lemma_kept_contains(routes.len(), without_layout(routes), j);
    assert forall|other: int| 0 <= other < layouts.len() && other != i implies !(#[trigger] kept(
        routes.len(),
        under_layout(routes, layouts[other].name),
    ).contains(j)) by {
        lemma_kept_contains(routes.len(), under_layout(routes, layouts[other].name), j);
        if other < i {
            assert(layouts[other].name != layouts[i].name);
        } else {
            assert(layouts[i].name != layouts[other].name);
        }
    }
}

/// A route stands in one place or in none: among the routes at the top if
/// it names no layout, among the children of the layouts of that name if
/// it names one that there is, and nowhere if it names one that there is
/// not.
pub proof fn lemma_route_places(layouts: Seq<LayoutView>, routes: Seq<RouteView>, j: int)
    requires
        0 <= j < routes.len(),
    ensures
        kept(routes.len(), without_layout(routes)).contains(j) <==> routes[j].layout is None,
        forall|i: int|
            0 <= i < layouts.len() ==> (#[trigger] kept(
                routes.len(),
                under_layout(routes, layouts[i].name),
            ).contains(j) <==> routes[j].layout == Some(layouts[i].name)),
        forall|i: int|
            0 <= i < layouts.len() && routes[j].layout == Some(layouts[i].name) ==> #[trigger] kept(
                layouts.len(),
                has_routes(layouts, routes),
            ).contains(i),
        kept(routes.len(), is_orphan(layouts, routes)).contains(j) <==> routes[j].layout is Some
            && forall|i: int|
            0 <= i < layouts.len() ==> !(#[trigger] kept(
                routes.len(),
                under_layout(routes, layouts[i].name),
            ).contains(j)),
{
    lemma_kept_contains(routes.len(), without_layout(routes), j);
    lemma_kept_contains(routes.len(), is_orphan(layouts, routes), j);
    assert forall|i: int| 0 <= i < layouts.len() implies (#[trigger] kept(
        routes.len(),
        under_layout(routes, layouts[i].name),
    ).contains(j) <==> routes[j].layout == Some(layouts[i].name)) by {
        lemma_kept_contains(routes.len(), under_layout(routes, layouts[i].name), j);
    }
    assert forall|i: int|
        0 <= i < layouts.len() && routes[j].layout == Some(
            layouts[i].name,
        ) implies #[trigger] kept(layouts.len(), has_routes(layouts, routes)).contains(i) by {
        lemma_kept_contains(layouts.len(), has_routes(layouts, routes), i);
    }
    if routes[j].layout is Some {
        if is_orphan(layouts, routes)(j) {
            assert forall|i: int| 0 <= i < layouts.len() implies !(#[trigger] kept(
                routes.len(),
                under_layout(routes, layouts[i].name),
            ).contains(j)) by {
                assert(Some(layouts[i].name) != routes[j].layout);
            }
        } else {
            let i = choose|i: int|
                0 <= i < layouts.len() && Some((#[trigger] layouts[i]).name) == routes[j].layout;
            assert(kept(routes.len(), under_layout(routes, layouts[i].name)).contains(j));
        }
    }
}

} // verus!
