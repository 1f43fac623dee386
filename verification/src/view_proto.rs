use crate::ordered_map::{
    first_index, inserted, keys_of, lemma_first_index, lemma_first_index_at, lemma_same_keys,
    lookup, overlaid, unique_keys, OrderedMap,
};
use crate::text::same_text;
use vstd::prelude::*;

verus! {

/// The characters of an optional string.
pub open spec fn opt_text(o: Option<String>) -> Option<Seq<char>> {
    match o {
        Some(s) => Some(s@),
        None => None,
    }
}

/// The characters of each string of a sequence.
pub open spec fn texts(v: Seq<String>) -> Seq<Seq<char>> {
    v.map_values(|s: String| s@)
}

/// The value of a prop.
#[derive(Debug)]
pub enum PropValue {
    /// A string literal.
    Str(String),
    /// A number, held as the decimal text that stands for it in the output.
    Num(String),
    /// A boolean.
    Bool(bool),
    /// A variable of the page, by its identifier.
    Var(String),
    /// An asset of the asset library, by its name.
    Asset(String),
    /// A string of the content library, by its name.
    Content(String),
    /// A field of the record that a content list is at, by its name.
    ContentField(String),
}

/// What a `PropValue` stands for.
pub enum PropValueView {
    Str(Seq<char>),
    Num(Seq<char>),
    Bool(bool),
    Var(Seq<char>),
    Asset(Seq<char>),
    Content(Seq<char>),
    ContentField(Seq<char>),
}

impl View for PropValue {
    type V = PropValueView;

    open spec fn view(&self) -> PropValueView {
        match self {
            PropValue::Str(s) => PropValueView::Str(s@),
            PropValue::Num(s) => PropValueView::Num(s@),
            PropValue::Bool(b) => PropValueView::Bool(*b),
            PropValue::Var(s) => PropValueView::Var(s@),
            PropValue::Asset(s) => PropValueView::Asset(s@),
            PropValue::Content(s) => PropValueView::Content(s@),
            PropValue::ContentField(s) => PropValueView::ContentField(s@),
        }
    }
}

impl Clone for PropValue {
    fn clone(&self) -> (r: Self)
        ensures
            r == *self,
    {
        match self {
            PropValue::Str(s) => PropValue::Str(s.clone()),
            PropValue::Num(s) => PropValue::Num(s.clone()),
            PropValue::Bool(b) => PropValue::Bool(*b),
            PropValue::Var(s) => PropValue::Var(s.clone()),
            PropValue::Asset(s) => PropValue::Asset(s.clone()),
            PropValue::Content(s) => PropValue::Content(s.clone()),
            PropValue::ContentField(s) => PropValue::ContentField(s.clone()),
        }
    }
}

/// The props of an element: from the name of each prop to its value, in the
/// order in which the props were set.
pub type Props = OrderedMap<PropValue>;

/// The view of a sequence of props.
pub type PropsView = Seq<(Seq<char>, PropValueView)>;

/// What the entries of a `Props` stand for.
pub open spec fn props_view(s: Seq<(Seq<char>, PropValue)>) -> PropsView {
    s.map_values(|e: (Seq<char>, PropValue)| (e.0, e.1@))
}

/// A lookup in what props stand for finds what the prop of that name
/// stands for.
pub proof fn lemma_lookup_props(s: Seq<(Seq<char>, PropValue)>, key: Seq<char>)
    ensures
        lookup(props_view(s), key) == match lookup(s, key) {
            Some(v) => Some(v@),
            None => None,
        },
        unique_keys(props_view(s)) == unique_keys(s),
{
    lemma_same_keys(s, props_view(s));
    lemma_first_index(keys_of(s), key);
}

/// Props that are merged stand for the merged props.
pub proof fn lemma_props_view_overlaid(
    base: Seq<(Seq<char>, PropValue)>,
    over: Seq<(Seq<char>, PropValue)>,
    n: nat,
)
    requires
        n <= over.len(),
    ensures
        props_view(overlaid(base, over, n)) == overlaid(props_view(base), props_view(over), n),
    decreases n,
{
    if n > 0 {
        let before = overlaid(base, over, (n - 1) as nat);
        lemma_props_view_overlaid(base, over, (n - 1) as nat);
        lemma_same_keys(before, props_view(before));
        lemma_first_index(keys_of(before), over[n - 1].0);
        assert(props_view(inserted(before, over[n - 1].0, over[n - 1].1)) =~= inserted(
            props_view(before),
            over[n - 1].0,
            over[n - 1].1@,
        ));
    }
}

/// A node of a page's tree.
#[derive(Debug)]
pub enum Element {
    /// A line of text.
    Text(String),
    /// A primitive markup node.
    Node { tag: String, class_name: Option<String>, props: Props, children: Vec<Box<Element>> },
    /// A use of a preset of the component library.
    ComponentRef { component: String, props: Props, children: Vec<Box<Element>> },
    /// The template, once for each record of a list of the content library.
    ContentList { source: String, template: Box<Element> },
}

/// What an `Element` stands for.
pub enum ElementView {
    Text(Seq<char>),
    Node {
        tag: Seq<char>,
        class_name: Option<Seq<char>>,
        props: PropsView,
        children: Seq<ElementView>,
    },
    ComponentRef { component: Seq<char>, props: PropsView, children: Seq<ElementView> },
    ContentList { source: Seq<char>, template: Box<ElementView> },
}

impl Element {
    /// The tree that this element stands for.
    pub open spec fn model(self) -> ElementView
        decreases self,
    {
        match self {
            Element::Text(s) => ElementView::Text(s@),
            Element::Node { tag, class_name, props, children } => ElementView::Node {
                tag: tag@,
                class_name: opt_text(class_name),
                props: props_view(props@),
                children: Seq::new(
                    children.len() as nat,
                    |i: int|
                        if 0 <= i < children.len() {
                            (*children[i]).model()
                        } else {
                            ElementView::Text(Seq::empty())
                        },
                ),
            },
            Element::ComponentRef { component, props, children } => ElementView::ComponentRef {
                component: component@,
                props: props_view(props@),
                children: Seq::new(
                    children.len() as nat,
                    |i: int|
                        if 0 <= i < children.len() {
                            (*children[i]).model()
                        } else {
                            ElementView::Text(Seq::empty())
                        },
                ),
            },
            Element::ContentList { source, template } => ElementView::ContentList {
                source: source@,
                template: Box::new((*template).model()),
            },
        }
    }
}

impl Element {
    /// A copy of the element that stands for the same tree.
    fn duplicate(&self) -> (r: Self)
        ensures
            r@ == self@,
        decreases self,
    {
        match self {
            Element::Text(s) => Element::Text(s.clone()),
            Element::Node { tag, class_name, props, children } => {
                let mut kids: Vec<Box<Element>> = Vec::new();
                let mut i: usize = 0;
                while i < children.len()
                    invariant
                        i <= children.len(),
                        kids.len() == i,
                        forall|j: int|
                            0 <= j < children.len() ==> decreases_to!(self => children[j]),
                        forall|j: int| 0 <= j < i ==> (*kids[j])@ == (*children[j])@,
                    decreases children.len() - i,
                {
                    kids.push(Box::new((*children[i]).duplicate()));
                    i += 1;
                }
                let class_name = match class_name {
                    Some(s) => Some(s.clone()),
                    None => None,
                };
                let props = props.clone();
                let r = Element::Node { tag: tag.clone(), class_name, props, children: kids };
                assert(r@->Node_props =~= self@->Node_props);
                assert(r@->Node_children =~= self@->Node_children);
                r
            },
            Element::ComponentRef { component, props, children } => {
                let mut kids: Vec<Box<Element>> = Vec::new();
                let mut i: usize = 0;
                while i < children.len()
                    invariant
                        i <= children.len(),
                        kids.len() == i,
                        forall|j: int|
                            0 <= j < children.len() ==> decreases_to!(self => children[j]),
                        forall|j: int| 0 <= j < i ==> (*kids[j])@ == (*children[j])@,
                    decreases children.len() - i,
                {
                    kids.push(Box::new((*children[i]).duplicate()));
                    i += 1;
                }
                let props = props.clone();
                let r = Element::ComponentRef {
                    component: component.clone(),
                    props,
                    children: kids,
                };
                assert(r@->ComponentRef_props =~= self@->ComponentRef_props);
                assert(r@->ComponentRef_children =~= self@->ComponentRef_children);
                r
            },
            Element::ContentList { source, template } => Element::ContentList {
                source: source.clone(),
                template: Box::new((**template).duplicate()),
            },
        }
    }
}

impl Clone for Element {
    fn clone(&self) -> (r: Self)
        ensures
            r@ == self@,
    {
        self.duplicate()
    }
}

impl View for Element {
    type V = ElementView;

    open spec fn view(&self) -> ElementView {
        self.model()
    }
}

/// What the children of a node stand for.
pub open spec fn elements_view(children: Seq<Box<Element>>) -> Seq<ElementView> {
    Seq::new(children.len(), |i: int| (*children[i])@)
}

/// A preset of the component library.
#[derive(Debug, Clone)]
pub struct ComponentDef {
    pub name: String,
    pub tag: String,
    pub class_name: Option<String>,
    pub default_props: Props,
    /// Props that a use of the preset is expected to set. Not enforced.
    pub required_props: Vec<String>,
    /// Reserved. Rendering does not read it.
    pub children_template: Option<Box<Element>>,
    /// The file that holds the component, where it has one of its own.
    pub import_path: Option<String>,
}

/// What a `ComponentDef` stands for.
pub struct ComponentDefView {
    pub name: Seq<char>,
    pub tag: Seq<char>,
    pub class_name: Option<Seq<char>>,
    pub default_props: PropsView,
    pub required_props: Seq<Seq<char>>,
    pub children_template: Option<ElementView>,
    pub import_path: Option<Seq<char>>,
}

impl View for ComponentDef {
    type V = ComponentDefView;

    open spec fn view(&self) -> ComponentDefView {
        ComponentDefView {
            name: self.name@,
            tag: self.tag@,
            class_name: opt_text(self.class_name),
            default_props: props_view(self.default_props@),
            required_props: texts(self.required_props@),
            children_template: match self.children_template {
                Some(t) => Some((*t)@),
                None => None,
            },
            import_path: opt_text(self.import_path),
        }
    }
}

/// The component library.
#[derive(Debug, Clone)]
pub struct ComponentDefs {
    pub components: Vec<ComponentDef>,
}

impl View for ComponentDefs {
    type V = Seq<ComponentDefView>;

    open spec fn view(&self) -> Seq<ComponentDefView> {
        self.components@.map_values(|c: ComponentDef| c@)
    }
}

/// The names of the presets of a component library, in order.
pub open spec fn component_names(defs: Seq<ComponentDefView>) -> Seq<Seq<char>> {
    defs.map_values(|c: ComponentDefView| c.name)
}

/// The first preset of the library that has the name.
pub open spec fn find_component(defs: Seq<ComponentDefView>, name: Seq<char>) -> Option<
    ComponentDefView,
> {
    match first_index(component_names(defs), name) {
        Some(i) => Some(defs[i]),
        None => None,
    }
}

impl ComponentDefs {
    /// The first preset of the library that has the name.
    pub fn get(&self, name: &str) -> (r: Option<&ComponentDef>)
        ensures
            match first_index(component_names(self@), name@) {
                Some(i) => r == Some(&self.components@[i]),
                None => r is None,
            },
            match r {
                Some(c) => find_component(self@, name@) == Some(c@),
                None => find_component(self@, name@) is None,
            },
    {
        let mut i: usize = 0;
        while i < self.components.len()
            invariant
                i <= self.components.len(),
                forall|j: int| 0 <= j < i ==> component_names(self@)[j] != name@,
            decreases self.components.len() - i,
        {
            if same_text(self.components[i].name.as_str(), name) {
                proof {
                    lemma_first_index_at(
                        component_names(self@),
                        name@,
                        i as int,
                    );
                }
                return Some(&self.components[i]);
            }
            i += 1;
        }
        proof {
            lemma_first_index(component_names(self@), name@);
        }
        None
    }
}

/// What kind of media an asset is.
#[derive(Debug, Clone, Copy, PartialEq, Eq, Structural)]
pub enum AssetKind {
    Image,
    Youtube,
    Video,
    Audio,
}

/// A media asset.
#[derive(Debug, Clone)]
pub struct AssetDef {
    pub name: String,
    pub kind: AssetKind,
    /// A file of the project, or the address of an image.
    pub path: Option<String>,
    /// The address of an asset that is not an image.
    pub url: Option<String>,
}

/// What an `AssetDef` stands for.
pub struct AssetDefView {
    pub name: Seq<char>,
    pub kind: AssetKind,
    pub path: Option<Seq<char>>,
    pub url: Option<Seq<char>>,
}

impl View for AssetDef {
    type V = AssetDefView;

    open spec fn view(&self) -> AssetDefView {
        AssetDefView {
            name: self.name@,
            kind: self.kind,
            path: opt_text(self.path),
            url: opt_text(self.url),
        }
    }
}

/// The asset library.
#[derive(Debug, Clone)]
pub struct AssetDefs {
    pub assets: Vec<AssetDef>,
}

impl View for AssetDefs {
    type V = Seq<AssetDefView>;

    open spec fn view(&self) -> Seq<AssetDefView> {
        self.assets@.map_values(|a: AssetDef| a@)
    }
}

/// The names of the assets of an asset library, in order.
pub open spec fn asset_names(defs: Seq<AssetDefView>) -> Seq<Seq<char>> {
    defs.map_values(|a: AssetDefView| a.name)
}

/// The first asset of the library that has the name.
pub open spec fn find_asset(defs: Seq<AssetDefView>, name: Seq<char>) -> Option<AssetDefView> {
    match first_index(asset_names(defs), name) {
        Some(i) => Some(defs[i]),
        None => None,
    }
}

impl AssetDefs {
    /// The first asset of the library that has the name.
    pub fn get(&self, name: &str) -> (r: Option<&AssetDef>)
        ensures
            match first_index(asset_names(self@), name@) {
                Some(i) => r == Some(&self.assets@[i]),
                None => r is None,
            },
            match r {
                Some(a) => find_asset(self@, name@) == Some(a@),
                None => find_asset(self@, name@) is None,
            },
    {
        let mut i: usize = 0;
        while i < self.assets.len()
            invariant
                i <= self.assets.len(),
                forall|j: int| 0 <= j < i ==> asset_names(self@)[j] != name@,
            decreases self.assets.len() - i,
        {
            if same_text(self.assets[i].name.as_str(), name) {
                proof {
                    lemma_first_index_at(asset_names(self@), name@, i as int);
                }
                return Some(&self.assets[i]);
            }
            i += 1;
        }
        proof {
            lemma_first_index(asset_names(self@), name@);
        }
        None
    }
}

/// An import that a page asks for by hand.
#[derive(Debug, Clone)]
pub struct Import {
    pub name: String,
    pub path: String,
    pub kind: ImportKind,
}

/// What an `Import` stands for.
pub struct ImportView {
    pub name: Seq<char>,
    pub path: Seq<char>,
    pub kind: ImportKind,
}

impl View for Import {
    type V = ImportView;

    open spec fn view(&self) -> ImportView {
        ImportView { name: self.name@, path: self.path@, kind: self.kind }
    }
}

/// What an import by hand brings in.
#[derive(Debug, Clone, Copy, PartialEq, Eq, Structural)]
pub enum ImportKind {
    Component,
    Asset,
    Hook,
}

impl Default for ImportKind {
    fn default() -> (r: Self)
        ensures
            r == ImportKind::Component,
    {
        ImportKind::Component
    }
}

/// A page: its name, the imports it asks for by hand, and its tree.
#[derive(Debug, Clone)]
pub struct ViewProto {
    /// The name of the function that the page becomes.
    pub name: String,
    pub imports: Vec<Import>,
    /// Whether the export is wrapped in the reactive observer.
    pub observer: bool,
    pub tree: Box<Element>,
}

/// What a `ViewProto` stands for.
pub struct ViewProtoView {
    pub name: Seq<char>,
    pub imports: Seq<ImportView>,
    pub observer: bool,
    pub tree: ElementView,
}

impl View for ViewProto {
    type V = ViewProtoView;

    open spec fn view(&self) -> ViewProtoView {
        ViewProtoView {
            name: self.name@,
            imports: self.imports@.map_values(|i: Import| i@),
            observer: self.observer,
            tree: (*self.tree)@,
        }
    }
}

/// A record of the content library: from the name of each field to its text.
pub type Record = OrderedMap<String>;

/// The view of a record.
pub type RecordView = Seq<(Seq<char>, Seq<char>)>;

/// What the entries of a `Record` stand for.
pub open spec fn record_view(s: Seq<(Seq<char>, String)>) -> RecordView {
    s.map_values(|e: (Seq<char>, String)| (e.0, e.1@))
}

/// A lookup in what a record stands for finds the text of the field of that
/// name.
pub proof fn lemma_lookup_record(s: Seq<(Seq<char>, String)>, key: Seq<char>)
    ensures
        lookup(record_view(s), key) == match lookup(s, key) {
            Some(v) => Some(v@),
            None => None,
        },
{
    lemma_same_keys(s, record_view(s));
    lemma_first_index(keys_of(s), key);
}

/// A value of the content library.
#[derive(Debug)]
pub enum ContentValue {
    Str(String),
    Record(Record),
    List(Vec<ContentValue>),
}

/// What a `ContentValue` stands for.
pub enum ContentValueView {
    Str(Seq<char>),
    Record(RecordView),
    List(Seq<ContentValueView>),
}

impl ContentValue {
    /// The value that this content value stands for.
    pub open spec fn model(self) -> ContentValueView
        decreases self,
    {
        match self {
            ContentValue::Str(s) => ContentValueView::Str(s@),
            ContentValue::Record(r) => ContentValueView::Record(record_view(r@)),
            ContentValue::List(items) => ContentValueView::List(
                Seq::new(
                    items.len() as nat,
                    |i: int|
                        if 0 <= i < items.len() {
                            items[i].model()
                        } else {
                            ContentValueView::Str(Seq::empty())
                        },
                ),
            ),
        }
    }
}

impl ContentValue {
    /// A copy of the value that stands for the same.
    fn duplicate(&self) -> (r: Self)
        ensures
            r@ == self@,
        decreases self,
    {
        match self {
            ContentValue::Str(s) => ContentValue::Str(s.clone()),
            ContentValue::Record(record) => {
                let r = ContentValue::Record(record.clone());
                assert(r@->Record_0 =~= self@->Record_0);
                r
            },
            ContentValue::List(items) => {
                let mut copies: Vec<ContentValue> = Vec::new();
                let mut i: usize = 0;
                while i < items.len()
                    invariant
                        i <= items.len(),
                        copies.len() == i,
                        forall|j: int| 0 <= j < items.len() ==> decreases_to!(self => items[j]),
                        forall|j: int| 0 <= j < i ==> copies[j]@ == items[j]@,
                    decreases items.len() - i,
                {
                    copies.push(items[i].duplicate());
                    i += 1;
                }
                let r = ContentValue::List(copies);
                assert(r@->List_0 =~= self@->List_0);
                r
            },
        }
    }
}

impl Clone for ContentValue {
    fn clone(&self) -> (r: Self)
        ensures
            r@ == self@,
    {
        self.duplicate()
    }
}

impl View for ContentValue {
    type V = ContentValueView;

    open spec fn view(&self) -> ContentValueView {
        self.model()
    }
}

/// What each value of a sequence stands for.
pub open spec fn values_view(items: Seq<ContentValue>) -> Seq<ContentValueView> {
    Seq::new(items.len(), |i: int| items[i]@)
}

/// The view of a content library.
pub type ContentView = Seq<(Seq<char>, ContentValueView)>;

/// What the entries of a content library stand for.
pub open spec fn content_view(s: Seq<(Seq<char>, ContentValue)>) -> ContentView {
    s.map_values(|e: (Seq<char>, ContentValue)| (e.0, e.1@))
}

/// The content library: from the name of each value to the value.
#[derive(Debug, Clone)]
pub struct ContentDefs {
    pub content: OrderedMap<ContentValue>,
}

impl View for ContentDefs {
    type V = ContentView;

    open spec fn view(&self) -> ContentView {
        content_view(self.content@)
    }
}

/// The string under `name`, if the library holds a string there.
pub open spec fn content_str(content: ContentView, name: Seq<char>) -> Option<Seq<char>> {
    match lookup(content, name) {
        Some(ContentValueView::Str(s)) => Some(s),
        _ => None,
    }
}

/// The list under `name`, if the library holds a list there.
pub open spec fn content_list(content: ContentView, name: Seq<char>) -> Option<
    Seq<ContentValueView>,
> {
    match lookup(content, name) {
        Some(ContentValueView::List(items)) => Some(items),
        _ => None,
    }
}

impl ContentDefs {
    /// The value under `name`.
    pub fn get(&self, name: &str) -> (r: Option<&ContentValue>)
        ensures
            match r {
                Some(v) => lookup(self.content@, name@) == Some(*v) && lookup(self@, name@)
                    == Some(v@),
                None => lookup(self.content@, name@) is None && lookup(self@, name@) is None,
            },
    {
        proof {
            lemma_same_keys(self.content@, self@);
            lemma_first_index(keys_of(self@), name@);
        }
        self.content.get(name)
    }

    /// The string under `name`, if the library holds a string there.
    pub fn get_str(&self, name: &str) -> (r: Option<&String>)
        ensures
            match r {
                Some(s) => lookup(self.content@, name@) == Some(ContentValue::Str(*s))
                    && content_str(self@, name@) == Some(s@),
                None => !(lookup(self.content@, name@) matches Some(ContentValue::Str(_)))
                    && content_str(self@, name@) is None,
            },
    {
        match self.get(name) {
            Some(ContentValue::Str(s)) => Some(s),
            _ => None,
        }
    }

    /// The list under `name`, if the library holds a list there.
    pub fn get_list(&self, name: &str) -> (r: Option<&Vec<ContentValue>>)
        ensures
            match r {
                Some(items) => lookup(self.content@, name@) == Some(ContentValue::List(*items))
                    && content_list(self@, name@) == Some(values_view(items@)),
                None => !(lookup(self.content@, name@) matches Some(ContentValue::List(_)))
                    && content_list(self@, name@) is None,
            },
    {
        match self.get(name) {
            Some(ContentValue::List(items)) => {
                assert(ContentValue::List(*items)@->List_0 =~= values_view(items@));
                Some(items)
            },
            _ => None,
        }
    }
}

} // verus!
