use crate::text::{every, joined};
use crate::view_proto::{ElementView, PropsView};
use vstd::prelude::*;

verus! {

/// `names` with `name` behind them, unless it is among them.
pub open spec fn with_new(names: Seq<Seq<char>>, name: Seq<char>) -> Seq<Seq<char>> {
    if names.contains(name) {
        names
    } else {
        names.push(name)
    }
}

/// `names` with each of `more` behind them that is not yet among them, in
/// the order of `more`.
pub open spec fn with_all_new(names: Seq<Seq<char>>, more: Seq<Seq<char>>) -> Seq<Seq<char>>
    decreases more.len(),
{
    if more.len() == 0 {
        names
    } else {
        with_new(with_all_new(names, more.drop_last()), more.last())
    }
}

/// The names of a sequence, each once, in the order in which they first
/// occur.
pub open spec fn distinct(names: Seq<Seq<char>>) -> Seq<Seq<char>> {
    with_all_new(Seq::empty(), names)
}

/// Adding one more name is one step of adding all.
pub proof fn lemma_with_all_new_push(names: Seq<Seq<char>>, more: Seq<Seq<char>>, name: Seq<char>)
    ensures
        with_all_new(names, more + seq![name]) == with_new(with_all_new(names, more), name),
        with_all_new(names, more.push(name)) == with_new(with_all_new(names, more), name),
{
    assert((more + seq![name]).drop_last() =~= more);
    assert(more.push(name).drop_last() =~= more);
    assert((more + seq![name]).last() == name);
}

/// Adding the names of two sequences in turn is adding those of the two
/// put together.
pub proof fn lemma_with_all_new_concat(
    names: Seq<Seq<char>>,
    first: Seq<Seq<char>>,
    second: Seq<Seq<char>>,
)
    ensures
        with_all_new(names, first + second) == with_all_new(with_all_new(names, first), second),
    decreases second.len(),
{
    if second.len() == 0 {
        assert(first + second =~= first);
    } else {
        lemma_with_all_new_concat(names, first, second.drop_last());
        assert((first + second).drop_last() =~= first + second.drop_last());
        assert((first + second).last() == second.last());
    }
}

/// Adding names keeps those that were there, each at its place, adds no
/// name twice, and leaves out none.
pub proof fn lemma_with_all_new(names: Seq<Seq<char>>, more: Seq<Seq<char>>)
    requires
        names.no_duplicates(),
    ensures
        with_all_new(names, more).no_duplicates(),
        forall|name: Seq<char>| #[trigger]
            with_all_new(names, more).contains(name) <==> names.contains(name) || more.contains(
                name,
            ),
    decreases more.len(),
{
    if more.len() > 0 {
        let before = with_all_new(names, more.drop_last());
        lemma_with_all_new(names, more.drop_last());
        let after = with_all_new(names, more);
        assert forall|name: Seq<char>| #[trigger]
            after.contains(name) <==> names.contains(name) || more.contains(name) by {
            if after.contains(name) {
                let i = choose|i: int| 0 <= i < after.len() && after[i] == name;
                if i < before.len() {
                    assert(before[i] == name);
                    assert(before.contains(name));
                    if more.drop_last().contains(name) {
                        let j = choose|j: int|
                            0 <= j < more.drop_last().len() && more.drop_last()[j] == name;
                        assert(more[j] == name);
                    }
                } else {
                    assert(more[more.len() - 1] == name);
                }
            }
            if names.contains(name) {
                assert(before.contains(name));
                let i = choose|i: int| 0 <= i < before.len() && before[i] == name;
                assert(after[i] == name);
            }
            if more.contains(name) {
                let j = choose|j: int| 0 <= j < more.len() && more[j] == name;
                if j < more.len() - 1 {
                    assert(more.drop_last()[j] == name);
                    assert(before.contains(name));
                    let i = choose|i: int| 0 <= i < before.len() && before[i] == name;
                    assert(after[i] == name);
                } else if before.contains(name) {
                    let i = choose|i: int| 0 <= i < before.len() && before[i] == name;
                    assert(after[i] == name);
                } else {
                    assert(after[before.len() as int] == name);
                }
            }
        }
    }
}

/// Each name of a sequence stands once among its distinct names, and no
/// other name does.
pub proof fn lemma_distinct(names: Seq<Seq<char>>)
    ensures
        distinct(names).no_duplicates(),
        forall|name: Seq<char>| #[trigger] distinct(names).contains(name) <==> names.contains(name),
{
    lemma_with_all_new(Seq::empty(), names);
    assert forall|name: Seq<char>| #[trigger]
        distinct(names).contains(name) <==> names.contains(name) by {
        assert(!Seq::<Seq<char>>::empty().contains(name));
    }
}

/// Whether the prop at a position refers to an asset.
pub open spec fn is_asset(props: PropsView) -> spec_fn(int) -> bool {
    |i: int| props[i].1 is Asset
}

/// The name of the asset that the prop at a position refers to.
pub open spec fn asset_name(props: PropsView) -> spec_fn(int) -> Seq<Seq<char>> {
    |i: int| seq![props[i].1->Asset_0]
}

/// The names of the assets that props refer to, in the props' order.
pub open spec fn prop_assets(props: PropsView) -> Seq<Seq<char>> {
    joined(props.len(), is_asset(props), asset_name(props))
}

/// The assets that the child at each position refers to.
pub open spec fn child_asset_refs(children: Seq<ElementView>) -> spec_fn(int) -> Seq<Seq<char>>
    decreases children, 0nat,
{
    |i: int|
        if 0 <= i < children.len() {
            asset_refs(children[i])
        } else {
            Seq::empty()
        }
}

/// The names of the assets that the props of a tree refer to, one for
/// each reference, an element's own before its children's.
pub open spec fn asset_refs(element: ElementView) -> Seq<Seq<char>>
    decreases element, 1nat,
{
    match element {
        ElementView::Text(_) => Seq::empty(),
        ElementView::Node { props, children, .. } => prop_assets(props) + joined(
            children.len(),
            every(),
            child_asset_refs(children),
        ),
        ElementView::ComponentRef { props, children, .. } => prop_assets(props) + joined(
            children.len(),
            every(),
            child_asset_refs(children),
        ),
        ElementView::ContentList { template, .. } => asset_refs(*template),
    }
}

/// The components that the child at each position refers to.
pub open spec fn child_component_refs(children: Seq<ElementView>) -> spec_fn(int) -> Seq<
    Seq<char>,
>
    decreases children, 0nat,
{
    |i: int|
        if 0 <= i < children.len() {
            component_refs(children[i])
        } else {
            Seq::empty()
        }
}

/// The names of the components that a tree refers to, one for each
/// reference, an element's own before its children's.
pub open spec fn component_refs(element: ElementView) -> Seq<Seq<char>>
    decreases element, 1nat,
{
    match element {
        ElementView::Text(_) => Seq::empty(),
        ElementView::Node { children, .. } => joined(
            children.len(),
            every(),
            child_component_refs(children),
        ),
        ElementView::ComponentRef { component, children, .. } => seq![component] + joined(
            children.len(),
            every(),
            child_component_refs(children),
        ),
        ElementView::ContentList { template, .. } => component_refs(*template),
    }
}

} // verus!
