use vstd::prelude::*;

pub mod naming;
pub mod ordered_map;
pub mod refs;
pub mod router_jsx;
pub mod text;
pub mod view_jsx;
pub mod view_proto;

pub use naming::{capitalize, ImportMap};
pub use ordered_map::OrderedMap;
pub use router_jsx::RouterJsx;
pub use view_jsx::ViewJsx;
pub use view_proto::{
    AssetDef, AssetDefs, AssetKind, ComponentDef, ComponentDefs, ContentDefs, ContentValue,
    Element, Import, ImportKind, PropValue, Props, Record, ViewProto,
};

verus! {

/// A layout: a component under which a group of routes renders.
#[derive(Debug, Clone)]
pub struct Layout {
    pub name: String,
    /// The file that holds the layout's component.
    pub path: String,
}

/// What a `Layout` stands for.
pub struct LayoutView {
    pub name: Seq<char>,
    pub path: Seq<char>,
}

impl View for Layout {
    type V = LayoutView;

    open spec fn view(&self) -> LayoutView {
        LayoutView { name: self.name@, path: self.path@ }
    }
}

/// A route: the page at an address, and the layout it renders under.
#[derive(Debug, Clone)]
pub struct Route {
    pub name: String,
    pub url: String,
    pub proto: Option<String>,
    /// The file that holds the page's component.
    pub path: String,
    /// The name of the route's layout, where it has one.
    pub layout: Option<String>,
}

/// What a `Route` stands for.
pub struct RouteView {
    pub name: Seq<char>,
    pub url: Seq<char>,
    pub proto: Option<Seq<char>>,
    pub path: Seq<char>,
    pub layout: Option<Seq<char>>,
}

impl View for Route {
    type V = RouteView;

    open spec fn view(&self) -> RouteView {
        RouteView {
            name: self.name@,
            url: self.url@,
            proto: view_proto::opt_text(self.proto),
            path: self.path@,
            layout: view_proto::opt_text(self.layout),
        }
    }
}

/// A partial: a named fragment and its file.
#[derive(Debug, Clone)]
pub struct Partial {
    pub name: String,
    pub path: String,
}

/// What a `Partial` stands for.
pub struct PartialView {
    pub name: Seq<char>,
    pub path: Seq<char>,
}

impl View for Partial {
    type V = PartialView;

    open spec fn view(&self) -> PartialView {
        PartialView { name: self.name@, path: self.path@ }
    }
}

/// The route table of a site.
#[derive(Debug, Clone)]
pub struct ProtoIndex {
    pub layouts: Vec<Layout>,
    pub routes: Vec<Route>,
    pub partials: Vec<Partial>,
}

/// What a `ProtoIndex` stands for.
pub struct ProtoIndexView {
    pub layouts: Seq<LayoutView>,
    pub routes: Seq<RouteView>,
    pub partials: Seq<PartialView>,
}

/// What each layout of a sequence stands for.
pub open spec fn layouts_view(layouts: Seq<Layout>) -> Seq<LayoutView> {
    layouts.map_values(|l: Layout| l@)
}

/// What each route of a sequence stands for.
pub open spec fn routes_view(routes: Seq<Route>) -> Seq<RouteView> {
    routes.map_values(|r: Route| r@)
}

impl View for ProtoIndex {
    type V = ProtoIndexView;

    open spec fn view(&self) -> ProtoIndexView {
        ProtoIndexView {
            layouts: layouts_view(self.layouts@),
            routes: routes_view(self.routes@),
            partials: self.partials@.map_values(|p: Partial| p@),
        }
    }
}

} // verus!
