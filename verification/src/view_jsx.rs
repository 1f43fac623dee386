use crate::ordered_map::{lemma_merged, lookup, merged, overlaid, unique_keys};
use crate::refs::{
    asset_name, asset_refs, child_asset_refs, child_component_refs, component_refs, distinct,
    is_asset, lemma_distinct, lemma_with_all_new_concat, lemma_with_all_new_push, prop_assets,
    with_all_new, with_new,
};
use crate::text::{
    every, joined, joined_at, kept, lemma_joined_is_kept, lemma_kept, lemma_kept_contains,
    same_text, starts_with,
};
use crate::view_proto::{
    content_list, content_str, elements_view, find_asset, find_component, lemma_lookup_props,
    lemma_lookup_record, lemma_props_view_overlaid, props_view, record_view, texts, values_view,
    AssetDefView, AssetDefs, AssetKind, ComponentDefView, ComponentDefs, ContentDefs,
    ContentValue, ContentValueView, ContentView, Element, ElementView, ImportView, PropValue,
    PropValueView, Props, PropsView, Record, RecordView, ViewProto, ViewProtoView,
};
use vstd::prelude::*;

verus! {

/// A page with the libraries that its tree is read against.
#[derive(Debug, Clone)]
pub struct ViewJsx {
    pub proto: ViewProto,
    pub component_defs: ComponentDefs,
    pub asset_defs: AssetDefs,
    pub content_defs: ContentDefs,
}

/// What a `ViewJsx` stands for.
pub struct ViewJsxView {
    pub proto: ViewProtoView,
    pub components: Seq<ComponentDefView>,
    pub assets: Seq<AssetDefView>,
    pub content: ContentView,
}

impl View for ViewJsx {
    type V = ViewJsxView;

    open spec fn view(&self) -> ViewJsxView {
        ViewJsxView {
            proto: self.proto@,
            components: self.component_defs@,
            assets: self.asset_defs@,
            content: self.content_defs@,
        }
    }
}

/// What the record of a content list's step stands for.
pub open spec fn context_view(ctx: Option<&Record>) -> Option<RecordView> {
    match ctx {
        Some(record) => Some(record_view(record@)),
        None => None,
    }
}

/// Whether a path is an address on the web and no file of the project.
pub open spec fn is_external(path: Seq<char>) -> bool {
    "http://"@.is_prefix_of(path) || "https://"@.is_prefix_of(path)
}

/// What a prop's value comes to, once the libraries have been asked.
pub enum Resolved {
    /// A text, written as it is.
    Literal(Seq<char>),
    /// A number, by its decimal text.
    Number(Seq<char>),
    /// A boolean.
    Flag(bool),
    /// An identifier of the page's source.
    Reference(Seq<char>),
}

/// What an asset's name comes to: the address of an asset that has one, the
/// name itself for an image of the project and for a name that the library
/// does not hold.
pub open spec fn resolved_asset(assets: Seq<AssetDefView>, name: Seq<char>) -> Resolved {
    match find_asset(assets, name) {
        Some(asset) => match asset.kind {
            AssetKind::Image => match asset.path {
                Some(path) => if is_external(path) {
                    Resolved::Literal(path)
                } else {
                    Resolved::Reference(name)
                },
                None => Resolved::Reference(name),
            },
            _ => match asset.url {
                Some(url) => Resolved::Literal(url),
                None => Resolved::Literal(Seq::empty()),
            },
        },
        None => Resolved::Reference(name),
    }
}

/// What a prop's value comes to. A name that nothing answers to gives the
/// empty text, but for an asset's, which stays as a reference.
pub open spec fn resolved(
    env: ViewJsxView,
    value: PropValueView,
    ctx: Option<RecordView>,
) -> Resolved {
    match value {
        PropValueView::Str(s) => Resolved::Literal(s),
        PropValueView::Num(n) => Resolved::Number(n),
        PropValueView::Bool(b) => Resolved::Flag(b),
        PropValueView::Var(v) => Resolved::Reference(v),
        PropValueView::Asset(name) => resolved_asset(env.assets, name),
        PropValueView::Content(name) => match content_str(env.content, name) {
            Some(text) => Resolved::Literal(text),
            None => Resolved::Literal(Seq::empty()),
        },
        PropValueView::ContentField(name) => match ctx {
            Some(record) => match lookup(record, name) {
                Some(text) => Resolved::Literal(text),
                None => Resolved::Literal(Seq::empty()),
            },
            None => Resolved::Literal(Seq::empty()),
        },
    }
}

/// The attribute `key="text"`.
pub open spec fn quoted(key: Seq<char>, text: Seq<char>) -> Seq<char> {
    key + "=\""@ + text + "\""@
}

/// The attribute `key={expr}`.
pub open spec fn braced(key: Seq<char>, expr: Seq<char>) -> Seq<char> {
    key + "={"@ + expr + "}"@
}

/// A prop as an attribute of its element.
pub open spec fn attr_text(
    env: ViewJsxView,
    key: Seq<char>,
    value: PropValueView,
    ctx: Option<RecordView>,
) -> Seq<char> {
    match resolved(env, value, ctx) {
        Resolved::Literal(text) => quoted(key, text),
        Resolved::Number(n) => braced(key, n),
        Resolved::Flag(b) => if b {
            key
        } else {
            braced(key, "false"@)
        },
        Resolved::Reference(name) => braced(key, name),
    }
}

/// A prop's value as text inside its element.
pub open spec fn inline_text(
    env: ViewJsxView,
    value: PropValueView,
    ctx: Option<RecordView>,
) -> Seq<char> {
    match resolved(env, value, ctx) {
        Resolved::Literal(text) => text,
        Resolved::Number(n) => n,
        Resolved::Flag(b) => if b {
            "true"@
        } else {
            "false"@
        },
        Resolved::Reference(name) => "{"@ + name + "}"@,
    }
}

/// Whether the prop at a position is an attribute: each is, but `text`.
pub open spec fn is_attr(props: PropsView) -> spec_fn(int) -> bool {
    |i: int| props[i].0 != "text"@
}

/// The attribute of the prop at each position, with the space before it.
pub open spec fn attr_piece(env: ViewJsxView, props: PropsView, ctx: Option<RecordView>) -> spec_fn(
    int,
) -> Seq<char> {
    |i: int| " "@ + attr_text(env, props[i].0, props[i].1, ctx)
}

/// The `className` attribute that a preset gives its element, unless the
/// props set `className` themselves.
pub open spec fn class_attr(class_name: Option<Seq<char>>, props: PropsView) -> Seq<char> {
    match class_name {
        Some(name) => if lookup(props, "className"@) is Some {
            Seq::empty()
        } else {
            " className=\""@ + name + "\""@
        },
        None => Seq::empty(),
    }
}

/// An element's opening tag up to its last attribute.
pub open spec fn open_tag(
    env: ViewJsxView,
    pad: Seq<char>,
    tag: Seq<char>,
    class_name: Option<Seq<char>>,
    props: PropsView,
    ctx: Option<RecordView>,
) -> Seq<char> {
    pad + "<"@ + tag + class_attr(class_name, props) + joined(
        props.len(),
        is_attr(props),
        attr_piece(env, props, ctx),
    )
}

/// A primitive element behind the indentation `pad`: self-closing where it
/// has neither a `text` prop nor children, and else the opening tag, the
/// text, the children's lines `inner` and the closing tag.
pub open spec fn node_text(
    env: ViewJsxView,
    pad: Seq<char>,
    tag: Seq<char>,
    class_name: Option<Seq<char>>,
    props: PropsView,
    ctx: Option<RecordView>,
    childless: bool,
    inner: Seq<char>,
) -> Seq<char> {
    let head = open_tag(env, pad, tag, class_name, props, ctx);
    match lookup(props, "text"@) {
        Some(value) => head + ">\n"@ + pad + "  "@ + inline_text(env, value, ctx) + "\n"@ + inner
            + pad + "</"@ + tag + ">\n"@,
        None => if childless {
            head + " />\n"@
        } else {
            head + ">\n"@ + inner + pad + "</"@ + tag + ">\n"@
        },
    }
}

/// The lines of the child at each position.
pub open spec fn child_text(
    env: ViewJsxView,
    children: Seq<ElementView>,
    pad: Seq<char>,
    ctx: Option<RecordView>,
) -> spec_fn(int) -> Seq<char>
    decreases children, 0nat,
{
    |i: int|
        if 0 <= i < children.len() {
            element_text(env, children[i], pad, ctx)
        } else {
            Seq::empty()
        }
}

/// Whether the value at a position is a record.
pub open spec fn is_record(items: Seq<ContentValueView>) -> spec_fn(int) -> bool {
    |i: int| items[i] is Record
}

/// The lines of the template for the record at each position.
pub open spec fn item_text(
    env: ViewJsxView,
    template: ElementView,
    items: Seq<ContentValueView>,
    pad: Seq<char>,
) -> spec_fn(int) -> Seq<char>
    decreases template, 2nat,
{
    |i: int|
        match items[i] {
            ContentValueView::Record(record) => element_text(env, template, pad, Some(record)),
            _ => Seq::empty(),
        }
}

/// The lines of an element behind the indentation `pad`, with `ctx` the
/// record that a content list is at. Children stand two spaces further in.
pub open spec fn element_text(
    env: ViewJsxView,
    element: ElementView,
    pad: Seq<char>,
    ctx: Option<RecordView>,
) -> Seq<char>
    decreases element, 1nat,
{
    match element {
        ElementView::Text(text) => pad + text + "\n"@,
        ElementView::Node { tag, class_name, props, children } => node_text(
            env,
            pad,
            tag,
            class_name,
            props,
            ctx,
            children.len() == 0,
            joined(children.len(), every(), child_text(env, children, pad + "  "@, ctx)),
        ),
        ElementView::ComponentRef { component, props, children } => match find_component(
            env.components,
            component,
        ) {
            Some(def) => node_text(
                env,
                pad,
                def.tag,
                def.class_name,
                merged(def.default_props, props),
                ctx,
                children.len() == 0,
                joined(children.len(), every(), child_text(env, children, pad + "  "@, ctx)),
            ),
            None => node_text(
                env,
                pad,
                component,
                None,
                props,
                ctx,
                children.len() == 0,
                joined(children.len(), every(), child_text(env, children, pad + "  "@, ctx)),
            ),
        },
        ElementView::ContentList { source, template } => match content_list(env.content, source) {
            Some(items) => joined(
                items.len(),
                is_record(items),
                item_text(env, *template, items, pad),
            ),
            None => Seq::empty(),
        },
    }
}

/// The line that imports `name` from the file at `path`.
pub open spec fn import_of(name: Seq<char>, path: Seq<char>) -> Seq<char> {
    "import "@ + name + " from '"@ + path + "';\n"@
}

/// The import that an asset's name brings: one for an image at a file of
/// the project, none for any other asset nor for a name that the library
/// does not hold.
pub open spec fn asset_import_line(assets: Seq<AssetDefView>, name: Seq<char>) -> Option<
    Seq<char>,
> {
    match find_asset(assets, name) {
        Some(asset) => match (asset.kind, asset.path) {
            (AssetKind::Image, Some(path)) => if is_external(path) {
                None
            } else {
                Some(import_of(name, path))
            },
            _ => None,
        },
        None => None,
    }
}

/// The import that a component's name brings: one for a preset that has a
/// file of its own, under the preset's tag.
pub open spec fn component_import_line(
    components: Seq<ComponentDefView>,
    name: Seq<char>,
) -> Option<Seq<char>> {
    match find_component(components, name) {
        Some(def) => match def.import_path {
            Some(path) => Some(import_of(def.tag, path)),
            None => None,
        },
        None => None,
    }
}

/// Whether the asset's name at a position brings an import.
pub open spec fn imports_asset(assets: Seq<AssetDefView>, names: Seq<Seq<char>>) -> spec_fn(
    int,
) -> bool {
    |i: int| asset_import_line(assets, names[i]) is Some
}

/// The import that the asset's name at a position brings.
pub open spec fn asset_import(assets: Seq<AssetDefView>, names: Seq<Seq<char>>) -> spec_fn(
    int,
) -> Seq<char> {
    |i: int| asset_import_line(assets, names[i])->0
}

/// Whether the component's name at a position brings an import.
pub open spec fn imports_component(
    components: Seq<ComponentDefView>,
    names: Seq<Seq<char>>,
) -> spec_fn(int) -> bool {
    |i: int| component_import_line(components, names[i]) is Some
}

/// The import that the component's name at a position brings.
pub open spec fn component_import(
    components: Seq<ComponentDefView>,
    names: Seq<Seq<char>>,
) -> spec_fn(int) -> Seq<char> {
    |i: int| component_import_line(components, names[i])->0
}

/// The import by hand at each position.
pub open spec fn manual_import(imports: Seq<ImportView>) -> spec_fn(int) -> Seq<char> {
    |i: int| import_of(imports[i].name, imports[i].path)
}

/// The names of the assets that a tree refers to, each once, in the order
/// in which the tree first refers to them.
pub open spec fn used_assets(tree: ElementView) -> Seq<Seq<char>> {
    distinct(asset_refs(tree))
}

/// The names of the components that a tree refers to, each once, in the
/// order in which the tree first refers to them.
pub open spec fn used_components(tree: ElementView) -> Seq<Seq<char>> {
    distinct(component_refs(tree))
}

/// The imports of the assets that the page uses.
pub open spec fn asset_imports(page: ViewJsxView) -> Seq<char> {
    joined(
        used_assets(page.proto.tree).len(),
        imports_asset(page.assets, used_assets(page.proto.tree)),
        asset_import(page.assets, used_assets(page.proto.tree)),
    )
}

/// The imports of the components that the page uses.
pub open spec fn component_imports(page: ViewJsxView) -> Seq<char> {
    joined(
        used_components(page.proto.tree).len(),
        imports_component(page.components, used_components(page.proto.tree)),
        component_import(page.components, used_components(page.proto.tree)),
    )
}

/// The imports that the page asks for by hand, all of them.
pub open spec fn manual_imports(page: ViewJsxView) -> Seq<char> {
    joined(page.proto.imports.len(), every(), manual_import(page.proto.imports))
}

/// The import of the observer, where the page is wrapped in it.
pub open spec fn observer_import(observer: bool) -> Seq<char> {
    if observer {
        "import { observer } from \"mobx-react\";\n"@
    } else {
        Seq::empty()
    }
}

/// The line that exports the page's function, wrapped or as it is.
pub open spec fn export_line(observer: bool, name: Seq<char>) -> Seq<char> {
    if observer {
        "export default observer("@ + name + ");\n"@
    } else {
        "export default "@ + name + ";\n"@
    }
}

/// The source of a page: the imports, the function that returns the tree,
/// and the export.
pub open spec fn page_text(page: ViewJsxView) -> Seq<char> {
    "import React from 'react';\n"@ + observer_import(page.proto.observer) + "\n"@
        + asset_imports(page) + component_imports(page) + manual_imports(page) + "\n"@
        + "function "@ + page.proto.name + "() {\n"@ + "  return (\n"@ + element_text(
        page,
        page.proto.tree,
        "    "@,
        None,
    ) + "  );\n"@ + "}\n\n"@ + export_line(page.proto.observer, page.proto.name)
}

/// The characters of an optional string slice.
pub open spec fn opt_str(o: Option<&str>) -> Option<Seq<char>> {
    match o {
        Some(s) => Some(s@),
        None => None,
    }
}

/// Whether `path` is an address on the web.
pub fn external(path: &str) -> (r: bool)
    ensures
        r == is_external(path@),
{
    starts_with(path, "http://") || starts_with(path, "https://")
}

/// `key="text"`.
fn quote(key: &str, text: &str) -> (r: String)
    ensures
        r@ == quoted(key@, text@),
{
    let mut r = String::from_str(key);
    r.append("=\"");
    r.append(text);
    r.append("\"");
    r
}

/// `key={expr}`.
fn brace(key: &str, expr: &str) -> (r: String)
    ensures
        r@ == braced(key@, expr@),
{
    let mut r = String::from_str(key);
    r.append("={");
    r.append(expr);
    r.append("}");
    r
}

/// `{name}`.
fn reference(name: &str) -> (r: String)
    ensures
        r@ == "{"@ + name@ + "}"@,
{
    let mut r = String::from_str("{");
    r.append(name);
    r.append("}");
    r
}

/// The text of the field `name` of the record, if there is a record and it
/// has the field.
fn field<'a>(ctx: Option<&'a Record>, name: &str) -> (r: Option<&'a String>)
    ensures
        match r {
            Some(text) => context_view(ctx) is Some && lookup(context_view(ctx)->0, name@) == Some(
                text@,
            ),
            None => context_view(ctx) is None || lookup(context_view(ctx)->0, name@) is None,
        },
{
    match ctx {
        Some(record) => {
            proof {
                lemma_lookup_record(record@, name@);
            }
            record.get(name)
        },
        None => None,
    }
}

/// Adds `name` to `names`, unless it is among them.
fn insert_name(names: &mut Vec<String>, name: &str)
    ensures
        texts(final(names)@) == with_new(texts(old(names)@), name@),
{
    let mut i: usize = 0;
    while i < names.len()
        invariant
            i <= names.len(),
            *names == *old(names),
            forall|j: int| 0 <= j < i ==> texts(names@)[j] != name@,
        decreases names.len() - i,
    {
        if same_text(names[i].as_str(), name) {
            assert(texts(names@)[i as int] == name@);
            return ;
        }
        i += 1;
    }
    names.push(String::from_str(name));
    assert(texts(names@) =~= texts(old(names)@).push(name@));
}

/// Appends to `out` the line that imports `name` from `path`.
fn push_import(out: &mut String, name: &str, path: &str)
    ensures
        final(out)@ == old(out)@ + import_of(name@, path@),
{
    let mut line = String::from_str("import ");
    line.append(name);
    line.append(" from '");
    line.append(path);
    line.append("';\n");
    out.append(line.as_str());
}

impl ViewJsx {
    /// A page with its libraries.
    pub fn new(
        proto: ViewProto,
        component_defs: ComponentDefs,
        asset_defs: AssetDefs,
        content_defs: ContentDefs,
    ) -> (r: Self)
        ensures
            r.proto == proto,
            r.component_defs == component_defs,
            r.asset_defs == asset_defs,
            r.content_defs == content_defs,
    {
        ViewJsx { proto, component_defs, asset_defs, content_defs }
    }

    /// The source of the page.
    pub fn to_string(&self) -> (r: String)
        ensures
            r@ == page_text(self@),
    {
        let ghost page = self@;
        let used_assets = self.collect_asset_refs(&*self.proto.tree);
        let used_components = self.collect_component_refs(&*self.proto.tree);
        let ghost asset_names = texts(used_assets@);
        let ghost component_names = texts(used_components@);

        let mut asset_lines = String::new();
        let mut i: usize = 0;
        while i < used_assets.len()
            invariant
                i <= used_assets.len(),
                page == self@,
                asset_names == texts(used_assets@),
                asset_lines@ == joined(
                    i as nat,
                    imports_asset(page.assets, asset_names),
                    asset_import(page.assets, asset_names),
                ),
            decreases used_assets.len() - i,
        {
            let asset_name = &used_assets[i];
            assert(asset_names[i as int] == asset_name@);
            match self.asset_defs.get(asset_name.as_str()) {
                Some(asset) => {
                    match asset.kind {
                        AssetKind::Image => {
                            match &asset.path {
                                Some(path) => {
                                    if !external(path.as_str()) {
                                        push_import(
                                            &mut asset_lines,
                                            asset_name.as_str(),
                                            path.as_str(),
                                        );
                                    }
                                },
                                None => {},
                            }
                        },
                        _ => {},
                    }
                },
                None => {},
            }
            i += 1;
        }

        let mut component_lines = String::new();
        let mut i: usize = 0;
        while i < used_components.len()
            invariant
                i <= used_components.len(),
                page == self@,
                component_names == texts(used_components@),
                component_lines@ == joined(
                    i as nat,
                    imports_component(page.components, component_names),
                    component_import(page.components, component_names),
                ),
            decreases used_components.len() - i,
        {
            let component_name = &used_components[i];
            assert(component_names[i as int] == component_name@);
            match self.component_defs.get(component_name.as_str()) {
                Some(def) => {
                    match &def.import_path {
                        Some(import_path) => {
                            push_import(
                                &mut component_lines,
                                def.tag.as_str(),
                                import_path.as_str(),
                            );
                        },
                        None => {},
                    }
                },
                None => {},
            }
            i += 1;
        }

        let mut manual_lines = String::new();
        let mut i: usize = 0;
        while i < self.proto.imports.len()
            invariant
                i <= self.proto.imports.len(),
                page == self@,
                manual_lines@ == joined(i as nat, every(), manual_import(page.proto.imports)),
            decreases self.proto.imports.len() - i,
        {
            let import = &self.proto.imports[i];
            assert(page.proto.imports[i as int] == import@);
            push_import(&mut manual_lines, import.name.as_str(), import.path.as_str());
            i += 1;
        }

        let tree_jsx = self.render_element(&*self.proto.tree, "    ", None);

        let mut output = String::from_str("import React from 'react';\n");
        if self.proto.observer {
            output.append("import { observer } from \"mobx-react\";\n");
        }
        assert(output@ =~= "import React from 'react';\n"@ + observer_import(page.proto.observer));
        output.append("\n");
        output.append(asset_lines.as_str());
        output.append(component_lines.as_str());
        output.append(manual_lines.as_str());
        output.append("\n");
        output.append("function ");
        output.append(self.proto.name.as_str());
        output.append("() {\n");
        output.append("  return (\n");
        output.append(tree_jsx.as_str());
        output.append("  );\n");
        output.append("}\n\n");
        let mut export = String::from_str("export default ");
        if self.proto.observer {
            export.append("observer(");
            export.append(self.proto.name.as_str());
            export.append(");\n");
            proof {
                reveal_strlit("export default ");
                reveal_strlit("observer(");
                reveal_strlit("export default observer(");
                assert("export default "@ + "observer("@ =~= "export default observer("@);
            }
        } else {
            export.append(self.proto.name.as_str());
            export.append(";\n");
        }
        assert(export@ =~= export_line(page.proto.observer, page.proto.name));
        output.append(export.as_str());
        output
    }

    /// The names of the assets that the tree refers to, each once, in the
    /// order in which the tree first refers to them.
    pub fn collect_asset_refs(&self, element: &Element) -> (r: Vec<String>)
        ensures
            texts(r@) == used_assets(element@),
    {
        let mut assets: Vec<String> = Vec::new();
        let mut components: Vec<String> = Vec::new();
        assert(texts(assets@) =~= Seq::<Seq<char>>::empty());
        self.collect_refs_recursive(element, &mut assets, &mut components);
        assets
    }

    /// The names of the components that the tree refers to, each once, in
    /// the order in which the tree first refers to them.
    pub fn collect_component_refs(&self, element: &Element) -> (r: Vec<String>)
        ensures
            texts(r@) == used_components(element@),
    {
        let mut assets: Vec<String> = Vec::new();
        let mut components: Vec<String> = Vec::new();
        assert(texts(components@) =~= Seq::<Seq<char>>::empty());
        self.collect_refs_recursive(element, &mut assets, &mut components);
        components
    }

    /// Adds to `assets` the assets that the props refer to and those that
    /// the children refer to, and to `components` the components that the
    /// children refer to.
    fn collect_refs_below(
        &self,
        props: &Props,
        children: &Vec<Box<Element>>,
        assets: &mut Vec<String>,
        components: &mut Vec<String>,
    )
        ensures
            texts(final(assets)@) == with_all_new(
                texts(old(assets)@),
                prop_assets(props_view(props@)) + joined(
                    children.len() as nat,
                    every(),
                    child_asset_refs(elements_view(children@)),
                ),
            ),
            texts(final(components)@) == with_all_new(
                texts(old(components)@),
                joined(
                    children.len() as nat,
                    every(),
                    child_component_refs(elements_view(children@)),
                ),
            ),
        decreases children,
    {
        let ghost a0 = texts(assets@);
        let ghost c0 = texts(components@);
        let ghost pv = props_view(props@);
        let ghost kids = elements_view(children@);
        let mut i: usize = 0;
        while i < props.len()
            invariant
                i <= props@.len(),
                pv == props_view(props@),
                texts(assets@) == with_all_new(
                    a0,
                    joined(i as nat, is_asset(pv), asset_name(pv)),
                ),
            decreases props@.len() - i,
        {
            let value = props.value_at(i);
            assert(pv[i as int].1 == value@);
            match value {
                PropValue::Asset(name) => {
                    insert_name(assets, name.as_str());
                    proof {
                        lemma_with_all_new_push(
                            a0,
                            joined(i as nat, is_asset(pv), asset_name(pv)),
                            name@,
                        );
                    }
                },
                _ => {},
            }
            i += 1;
        }
        let ghost own = prop_assets(pv);
        assert(own + Seq::<Seq<char>>::empty() =~= own);
        let mut k: usize = 0;
        while k < children.len()
            invariant
                k <= children.len(),
                kids == elements_view(children@),
                texts(assets@) == with_all_new(
                    a0,
                    own + joined(k as nat, every(), child_asset_refs(kids)),
                ),
                texts(components@) == with_all_new(
                    c0,
                    joined(k as nat, every(), child_component_refs(kids)),
                ),
            decreases children.len() - k,
        {
            let ghost below = joined(k as nat, every(), child_asset_refs(kids));
            let ghost named = joined(k as nat, every(), child_component_refs(kids));
            self.collect_refs_recursive(&*children[k], assets, components);
            proof {
                let more = asset_refs(kids[k as int]);
                lemma_with_all_new_concat(a0, own + below, more);
                assert((own + below) + more =~= own + (below + more));
                lemma_with_all_new_concat(c0, named, component_refs(kids[k as int]));
            }
            k += 1;
        }
    }

    /// Adds to `assets` and `components` the assets and the components that
    /// the tree refers to, each unless it is there, in the order in which
    /// the tree refers to them.
    pub fn collect_refs_recursive(
        &self,
        element: &Element,
        assets: &mut Vec<String>,
        components: &mut Vec<String>,
    )
        ensures
            texts(final(assets)@) == with_all_new(texts(old(assets)@), asset_refs(element@)),
            texts(final(components)@) == with_all_new(
                texts(old(components)@),
                component_refs(element@),
            ),
        decreases element,
    {
        match element {
            Element::Text(_) => {},
            Element::Node { props, children, .. } => {
                assert(element@->Node_children =~= elements_view(children@));
                self.collect_refs_below(props, children, assets, components);
            },
            Element::ComponentRef { component, props, children } => {
                assert(element@->ComponentRef_children =~= elements_view(children@));
                let ghost c0 = texts(components@);
                insert_name(components, component.as_str());
                self.collect_refs_below(props, children, assets, components);
                proof {
                    let named = joined(
                        children.len() as nat,
                        every(),
                        child_component_refs(elements_view(children@)),
                    );
                    lemma_with_all_new_push(c0, Seq::empty(), component@);
                    assert(Seq::<Seq<char>>::empty() + seq![component@] =~= seq![component@]);
                    lemma_with_all_new_concat(c0, seq![component@], named);
                }
            },
            Element::ContentList { template, .. } => {
                self.collect_refs_recursive(&**template, assets, components);
            },
        }
    }

    /// The prop `key` with the value `value`, as an attribute.
    pub fn render_prop(&self, key: &str, value: &PropValue, record_ctx: Option<&Record>) -> (r:
        String)
        ensures
            r@ == attr_text(self@, key@, value@, context_view(record_ctx)),
    {
        proof {
            reveal_strlit("");
            assert(""@ =~= Seq::<char>::empty());
        }
        match value {
            PropValue::Str(s) => quote(key, s.as_str()),
            PropValue::Num(n) => brace(key, n.as_str()),
            PropValue::Bool(b) => {
                if *b {
                    String::from_str(key)
                } else {
                    brace(key, "false")
                }
            },
            PropValue::Var(var_name) => brace(key, var_name.as_str()),
            PropValue::Asset(asset_name) => {
                match self.asset_defs.get(asset_name.as_str()) {
                    Some(asset) => {
                        match asset.kind {
                            AssetKind::Image => {
                                match &asset.path {
                                    Some(path) => {
                                        if external(path.as_str()) {
                                            quote(key, path.as_str())
                                        } else {
                                            brace(key, asset_name.as_str())
                                        }
                                    },
                                    None => brace(key, asset_name.as_str()),
                                }
                            },
                            AssetKind::Youtube | AssetKind::Video | AssetKind::Audio => {
                                match &asset.url {
                                    Some(url) => quote(key, url.as_str()),
                                    None => quote(key, ""),
                                }
                            },
                        }
                    },
                    None => brace(key, asset_name.as_str()),
                }
            },
            PropValue::Content(content_name) => {
                match self.content_defs.get_str(content_name.as_str()) {
                    Some(text) => quote(key, text.as_str()),
                    None => quote(key, ""),
                }
            },
            PropValue::ContentField(field_name) => {
                match field(record_ctx, field_name.as_str()) {
                    Some(text) => quote(key, text.as_str()),
                    None => quote(key, ""),
                }
            },
        }
    }

    /// The value of a prop, as text inside an element.
    pub fn prop_value_to_string(&self, value: &PropValue, record_ctx: Option<&Record>) -> (r:
        String)
        ensures
            r@ == inline_text(self@, value@, context_view(record_ctx)),
    {
        match value {
            PropValue::Str(s) => s.clone(),
            PropValue::Num(n) => n.clone(),
            PropValue::Bool(b) => {
                if *b {
                    String::from_str("true")
                } else {
                    String::from_str("false")
                }
            },
            PropValue::Var(var_name) => reference(var_name.as_str()),
            PropValue::Asset(asset_name) => {
                match self.asset_defs.get(asset_name.as_str()) {
                    Some(asset) => {
                        match asset.kind {
                            AssetKind::Image => {
                                match &asset.path {
                                    Some(path) => {
                                        if external(path.as_str()) {
                                            path.clone()
                                        } else {
                                            reference(asset_name.as_str())
                                        }
                                    },
                                    None => reference(asset_name.as_str()),
                                }
                            },
                            _ => {
                                match &asset.url {
                                    Some(url) => url.clone(),
                                    None => String::new(),
                                }
                            },
                        }
                    },
                    None => reference(asset_name.as_str()),
                }
            },
            PropValue::Content(content_name) => {
                match self.content_defs.get_str(content_name.as_str()) {
                    Some(text) => text.clone(),
                    None => String::new(),
                }
            },
            PropValue::ContentField(field_name) => {
                match field(record_ctx, field_name.as_str()) {
                    Some(text) => text.clone(),
                    None => String::new(),
                }
            },
        }
    }

    /// A primitive element with its props and children.
    fn render_node(
        &self,
        tag: &str,
        class_name: Option<&str>,
        props: &Props,
        children: &Vec<Box<Element>>,
        pad: &str,
        record_ctx: Option<&Record>,
    ) -> (r: String)
        ensures
            r@ == node_text(
                self@,
                pad@,
                tag@,
                opt_str(class_name),
                props_view(props@),
                context_view(record_ctx),
                children.len() == 0,
                joined(
                    children.len() as nat,
                    every(),
                    child_text(
                        self@,
                        elements_view(children@),
                        pad@ + "  "@,
                        context_view(record_ctx),
                    ),
                ),
            ),
        decreases children,
    {
        let ghost env = self@;
        let ghost ctx = context_view(record_ctx);
        let ghost pv = props_view(props@);
        let mut output = String::from_str(pad);
        output.append("<");
        output.append(tag);

        proof {
            lemma_lookup_props(props@, "className"@);
        }
        match class_name {
            Some(cn) => {
                if !props.contains_key("className") {
                    let mut attr = String::from_str(" className=\"");
                    attr.append(cn);
                    attr.append("\"");
                    output.append(attr.as_str());
                } else {
                    assert(output@ =~= output@ + Seq::<char>::empty());
                }
            },
            None => {
                assert(output@ =~= output@ + Seq::<char>::empty());
            },
        }
        let ghost head = output@;
        assert(head == pad@ + "<"@ + tag@ + class_attr(opt_str(class_name), pv));

        let mut i: usize = 0;
        while i < props.len()
            invariant
                i <= props@.len(),
                env == self@,
                ctx == context_view(record_ctx),
                pv == props_view(props@),
                pv.len() == props@.len(),
                output@ == head + joined(i as nat, is_attr(pv), attr_piece(env, pv, ctx)),
            decreases props@.len() - i,
        {
            let key = props.key_at(i);
            let value = props.value_at(i);
            assert(pv[i as int] == (key@, value@));
            if !same_text(key.as_str(), "text") {
                let mut piece = String::from_str(" ");
                let prop_str = self.render_prop(key.as_str(), value, record_ctx);
                piece.append(prop_str.as_str());
                assert(piece@ == attr_piece(env, pv, ctx)(i as int));
                output.append(piece.as_str());
            }
            assert(output@ =~= head + joined(
                (i + 1) as nat,
                is_attr(pv),
                attr_piece(env, pv, ctx),
            ));
            i += 1;
        }
        assert(output@ == open_tag(env, pad@, tag@, opt_str(class_name), pv, ctx));

        let mut child_pad = String::from_str(pad);
        child_pad.append("  ");
        let ghost kids = elements_view(children@);
        let mut inner = String::new();
        let mut k: usize = 0;
        while k < children.len()
            invariant
                k <= children.len(),
                env == self@,
                ctx == context_view(record_ctx),
                kids == elements_view(children@),
                child_pad@ == pad@ + "  "@,
                inner@ == joined(k as nat, every(), child_text(env, kids, child_pad@, ctx)),
            decreases children.len() - k,
        {
            let child = self.render_element(&*children[k], child_pad.as_str(), record_ctx);
            inner.append(child.as_str());
            k += 1;
        }

        proof {
            lemma_lookup_props(props@, "text"@);
        }
        match props.get("text") {
            Some(value) => {
                let text = self.prop_value_to_string(value, record_ctx);
                output.append(">\n");
                output.append(pad);
                output.append("  ");
                output.append(text.as_str());
                output.append("\n");
                output.append(inner.as_str());
                output.append(pad);
                output.append("</");
                output.append(tag);
                output.append(">\n");
            },
            None => {
                if children.len() == 0 {
                    output.append(" />\n");
                } else {
                    output.append(">\n");
                    output.append(inner.as_str());
                    output.append(pad);
                    output.append("</");
                    output.append(tag);
                    output.append(">\n");
                }
            },
        }
        output
    }

    /// The lines of an element behind the indentation `pad`, with
    /// `record_ctx` the record that a content list is at.
    pub fn render_element(&self, element: &Element, pad: &str, record_ctx: Option<&Record>) -> (r:
        String)
        ensures
            r@ == element_text(self@, element@, pad@, context_view(record_ctx)),
        decreases element,
    {
        match element {
            Element::Text(text) => {
                let mut r = String::from_str(pad);
                r.append(text.as_str());
                r.append("\n");
                r
            },
            Element::Node { tag, class_name, props, children } => {
                assert(element@->Node_children =~= elements_view(children@));
                let cn = match class_name {
                    Some(s) => Some(s.as_str()),
                    None => None,
                };
                self.render_node(tag.as_str(), cn, props, children, pad, record_ctx)
            },
            Element::ComponentRef { component, props, children } => {
                assert(element@->ComponentRef_children =~= elements_view(children@));
                match self.component_defs.get(component.as_str()) {
                    Some(def) => {
                        let merged_props = merge_props(&def.default_props, props);
                        proof {
                            lemma_props_view_overlaid(def.default_props@, props@, props@.len());
                        }
                        let cn = match &def.class_name {
                            Some(s) => Some(s.as_str()),
                            None => None,
                        };
                        self.render_node(
                            def.tag.as_str(),
                            cn,
                            &merged_props,
                            children,
                            pad,
                            record_ctx,
                        )
                    },
                    None => self.render_node(
                        component.as_str(),
                        None,
                        props,
                        children,
                        pad,
                        record_ctx,
                    ),
                }
            },
            Element::ContentList { source, template } => {
                let mut output = String::new();
                match self.content_defs.get_list(source.as_str()) {
                    Some(list) => {
                        let ghost items = values_view(list@);
                        let ghost env = self@;
                        let mut i: usize = 0;
                        while i < list.len()
                            invariant
                                i <= list.len(),
                                env == self@,
                                items == values_view(list@),
                                decreases_to!(element => template),
                                output@ == joined(
                                    i as nat,
                                    is_record(items),
                                    item_text(env, (**template)@, items, pad@),
                                ),
                            decreases list.len() - i,
                        {
                            match &list[i] {
                                ContentValue::Record(record) => {
                                    let lines = self.render_element(
                                        &**template,
                                        pad,
                                        Some(record),
                                    );
                                    output.append(lines.as_str());
                                },
                                _ => {},
                            }
                            i += 1;
                        }
                    },
                    None => {},
                }
                output
            },
        }
    }
}

/// The props of a preset with the props of a use of it set in them: the
/// use's value wins where both have a prop.
pub fn merge_props(defaults: &Props, props: &Props) -> (r: Props)
    ensures
        r@ == merged(defaults@, props@),
{
    let mut merged_props = defaults.clone();
    assert(merged_props@ =~= defaults@);
    let mut i: usize = 0;
    while i < props.len()
        invariant
            i <= props@.len(),
            merged_props@ == overlaid(defaults@, props@, i as nat),
        decreases props@.len() - i,
    {
        let key = props.key_at(i).clone();
        let value = props.value_at(i).clone();
        merged_props.insert(key, value);
        i += 1;
    }
    merged_props
}

/// The source of a page is a function of what the page and its libraries
/// stand for: two pages that stand for the same have the same source.
pub proof fn lemma_same_page_same_text(a: ViewJsx, b: ViewJsx)
    requires
        a@ == b@,
    ensures
        page_text(a@) == page_text(b@),
{
}

/// However often a tree refers to an asset, the asset stands once among the
/// assets that the page uses, and the imports hold the line of each used
/// asset that brings one, once: for that asset one line if it is an image
/// at a file of the project, and else none.
pub proof fn lemma_asset_imported_once(page: ViewJsxView, name: Seq<char>)
    requires
        asset_refs(page.proto.tree).contains(name),
    ensures
        asset_imports(page) == joined_at(
            kept(
                used_assets(page.proto.tree).len(),
                imports_asset(page.assets, used_assets(page.proto.tree)),
            ),
            asset_import(page.assets, used_assets(page.proto.tree)),
        ),
        kept(
            used_assets(page.proto.tree).len(),
            imports_asset(page.assets, used_assets(page.proto.tree)),
        ).no_duplicates(),
        exists|i: int|
            0 <= i < used_assets(page.proto.tree).len() && #[trigger] used_assets(
                page.proto.tree,
            )[i] == name && (forall|j: int|
                0 <= j < used_assets(page.proto.tree).len() && used_assets(page.proto.tree)[j]
                    == name ==> j == i) && (kept(
                used_assets(page.proto.tree).len(),
                imports_asset(page.assets, used_assets(page.proto.tree)),
            ).contains(i) <==> asset_import_line(page.assets, name) is Some),
{
    let used = used_assets(page.proto.tree);
    let keep = imports_asset(page.assets, used);
    lemma_distinct(asset_refs(page.proto.tree));
    lemma_joined_is_kept(used.len(), keep, asset_import(page.assets, used));
    lemma_kept(used.len(), keep);
    assert(used.contains(name));
    let i = choose|i: int| 0 <= i < used.len() && used[i] == name;
    lemma_kept_contains(used.len(), keep, i);
    assert(used[i] == name);
}

/// However often a tree refers to a component, the component stands once
/// among the components that the page uses, and the imports hold the line
/// of each used component that brings one, once: for that component one
/// line if the library has a preset of that name with a file of its own,
/// and else none.
pub proof fn lemma_component_imported_once(page: ViewJsxView, name: Seq<char>)
    requires
        component_refs(page.proto.tree).contains(name),
    ensures
        component_imports(page) == joined_at(
            kept(
                used_components(page.proto.tree).len(),
                imports_component(page.components, used_components(page.proto.tree)),
            ),
            component_import(page.components, used_components(page.proto.tree)),
        ),
        kept(
            used_components(page.proto.tree).len(),
            imports_component(page.components, used_components(page.proto.tree)),
        ).no_duplicates(),
        exists|i: int|
            0 <= i < used_components(page.proto.tree).len() && #[trigger] used_components(
                page.proto.tree,
            )[i] == name && (forall|j: int|
                0 <= j < used_components(page.proto.tree).len() && used_components(
                    page.proto.tree,
                )[j] == name ==> j == i) && (kept(
                used_components(page.proto.tree).len(),
                imports_component(page.components, used_components(page.proto.tree)),
            ).contains(i) <==> component_import_line(page.components, name) is Some),
{
    let used = used_components(page.proto.tree);
    let keep = imports_component(page.components, used);
    lemma_distinct(component_refs(page.proto.tree));
    lemma_joined_is_kept(used.len(), keep, component_import(page.components, used));
    lemma_kept(used.len(), keep);
    assert(used.contains(name));
    let i = choose|i: int| 0 <= i < used.len() && used[i] == name;
    lemma_kept_contains(used.len(), keep, i);
    assert(used[i] == name);
}

/// A use of a component that the library does not hold renders as the
/// primitive element that has the component's name for its tag, no class
/// name, and the use's own props and children.
pub proof fn lemma_unknown_component_is_primitive(
    env: ViewJsxView,
    component: Seq<char>,
    props: PropsView,
    children: Seq<ElementView>,
    pad: Seq<char>,
    ctx: Option<RecordView>,
)
    requires
        find_component(env.components, component) is None,
    ensures
        element_text(env, ElementView::ComponentRef { component, props, children }, pad, ctx)
            == element_text(
            env,
            ElementView::Node { tag: component, class_name: None, props, children },
            pad,
            ctx,
        ),
{
}

/// A use of a preset renders with the preset's props and its own: no prop
/// twice, each prop of the use with the use's value, and each other prop
/// of the preset with the preset's value.
pub proof fn lemma_use_overrides_preset(
    env: ViewJsxView,
    component: Seq<char>,
    props: PropsView,
    children: Seq<ElementView>,
    pad: Seq<char>,
    ctx: Option<RecordView>,
    key: Seq<char>,
)
    requires
        find_component(env.components, component) is Some,
        unique_keys(find_component(env.components, component)->0.default_props),
        unique_keys(props),
    ensures
        ({
            let def = find_component(env.components, component)->0;
            let all = merged(def.default_props, props);
            &&& element_text(
                env,
                ElementView::ComponentRef { component, props, children },
                pad,
                ctx,
            ) == element_text(
                env,
                ElementView::Node {
                    tag: def.tag,
                    class_name: def.class_name,
                    props: all,
                    children,
                },
                pad,
                ctx,
            )
            &&& unique_keys(all)
            &&& lookup(all, key) == if lookup(props, key) is Some {
                lookup(props, key)
            } else {
                lookup(def.default_props, key)
            }
        }),
{
    let def = find_component(env.components, component)->0;
    lemma_merged(def.default_props, props, key);
}

} // verus!
