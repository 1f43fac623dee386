use crate::ordered_map::{
    first_index, keys_of, lemma_first_index, lemma_first_index_at, lemma_same_keys, lookup,
    unique_keys, values_of, OrderedMap,
};
use crate::text::{decimal, decimal_string, lemma_numbered_injective, same_text};
use crate::view_proto::record_view;
use crate::Layout;
use crate::Route;
use vstd::prelude::*;
use vstd::set_lib::{lemma_int_range, lemma_len_subset, lemma_map_size, set_int_range};

verus! {

/// The uppercase mapping of a character: the characters that
/// `char::to_uppercase` yields for it, in order.
pub uninterp spec fn uppercase_of(c: char) -> Seq<char>;

/// `char::to_uppercase`, with the characters that it yields gathered into a
/// string. The contract gives that string a name and claims nothing else of it.
#[verifier::external_body]
fn to_upper(c: char) -> (r: String)
    ensures
        r@ == uppercase_of(c),
{
    c.to_uppercase().collect()
}

/// `head`, followed by all of `s` but its first character.
pub open spec fn headed(head: Seq<char>, s: Seq<char>) -> Seq<char> {
    if s.len() == 0 {
        head
    } else {
        head + s.subrange(1, s.len() as int)
    }
}

/// A text with its first character in upper case.
pub open spec fn capitalized(s: Seq<char>) -> Seq<char> {
    if s.len() == 0 {
        s
    } else {
        headed(uppercase_of(s[0]), s)
    }
}

/// Puts `head` in the place of the first character of `s`.
pub fn with_head(head: String, s: &str) -> (r: String)
    ensures
        r@ == headed(head@, s@),
{
    let n = s.unicode_len();
    let mut r = head;
    if n > 0 {
        r.append(s.substring_char(1, n));
    }
    r
}

/// Puts the first character of `s` in upper case.
pub fn capitalize(s: &str) -> (r: String)
    ensures
        r@ == capitalized(s@),
{
    if s.unicode_len() == 0 {
        let r = String::new();
        assert(r@ =~= s@);
        r
    } else {
        with_head(to_upper(s.get_char(0)), s)
    }
}

/// The identifier that a layout named `name` asks for.
pub open spec fn layout_base(name: Seq<char>) -> Seq<char> {
    capitalized(name) + "Layout"@
}

/// The identifier that a route named `name` asks for.
pub open spec fn route_base(name: Seq<char>) -> Seq<char> {
    capitalized(name)
}

/// The identifiers that were given out, each with the path of its file, in
/// the order in which they were given.
pub type Names = Seq<(Seq<char>, Seq<char>)>;

/// `base` followed by the number `k`.
pub open spec fn numbered(base: Seq<char>, k: nat) -> Seq<char> {
    base + decimal(k)
}

/// `k` is the first number from 2 on with which `base` is not in `used`.
pub open spec fn first_free(used: Seq<Seq<char>>, base: Seq<char>, k: nat) -> bool {
    &&& k >= 2
    &&& !used.contains(numbered(base, k))
    &&& forall|j: nat| 2 <= j < k ==> used.contains(#[trigger] numbered(base, j))
}

/// An identifier for `base` that is not in `used`: `base` itself where it is
/// free, else `base` with the first number from 2 on that makes it free.
pub open spec fn fresh_name(used: Seq<Seq<char>>, base: Seq<char>) -> Seq<char> {
    if !used.contains(base) {
        base
    } else {
        numbered(base, choose|k: nat| first_free(used, base, k))
    }
}

/// The names after the file at `path` has asked for `base`: a path that has
/// an identifier keeps it, a new path gets a fresh one.
pub open spec fn registered(names: Names, path: Seq<char>, base: Seq<char>) -> Names {
    if lookup(names, path) is Some {
        names
    } else {
        names.push((path, fresh_name(values_of(names), base)))
    }
}

/// The identifier of the file at `path`.
pub open spec fn ident(names: Names, path: Seq<char>) -> Seq<char> {
    match lookup(names, path) {
        Some(name) => name,
        None => Seq::empty(),
    }
}

/// The names after the first `n` of `entries` have asked, one after the
/// other, each entry a path and the identifier that its file asks for.
pub open spec fn names_after(entries: Seq<(Seq<char>, Seq<char>)>, n: nat) -> Names
    decreases n,
{
    if n == 0 {
        Seq::empty()
    } else {
        registered(names_after(entries, (n - 1) as nat), entries[n - 1].0, entries[n - 1].1)
    }
}

/// No more than `used.len()` numbers in a row, from 2 on, can all be taken.
pub proof fn lemma_probe_bound(used: Seq<Seq<char>>, base: Seq<char>, k: nat)
    requires
        k >= 2,
        forall|j: nat| 2 <= j < k ==> used.contains(#[trigger] numbered(base, j)),
    ensures
        k - 2 <= used.len(),
{
    let range = set_int_range(2, k as int);
    let f = |j: int| numbered(base, j as nat);
    let taken = range.map(f);
    lemma_int_range(2, k as int);
    assert forall|a: int, b: int|
        range.contains(a) && range.contains(b) && #[trigger] f(a) == #[trigger] f(b) implies a
        == b by {
        lemma_numbered_injective(base, a as nat, b as nat);
    }
    lemma_map_size(range, taken, f);
    assert forall|name: Seq<char>| taken.contains(name) implies used.to_set().contains(name) by {
        let j = choose|j: int| range.contains(j) && f(j) == name;
        assert(used.contains(numbered(base, j as nat)));
    }
    broadcast use vstd::seq_lib::seq_to_set_is_finite;

    lemma_len_subset(taken, used.to_set());
    used.lemma_cardinality_of_set();
}

/// There is one first free number at most.
pub proof fn lemma_first_free_unique(used: Seq<Seq<char>>, base: Seq<char>, a: nat, b: nat)
    requires
        first_free(used, base, a),
        first_free(used, base, b),
    ensures
        a == b,
{
    if a < b {
        assert(used.contains(numbered(base, a)));
    } else if b < a {
        assert(used.contains(numbered(base, b)));
    }
}

/// From `k` on, some number makes `base` free.
proof fn lemma_first_free_from(used: Seq<Seq<char>>, base: Seq<char>, k: nat)
    requires
        k >= 2,
        forall|j: nat| 2 <= j < k ==> used.contains(#[trigger] numbered(base, j)),
    ensures
        exists|c: nat| first_free(used, base, c),
    decreases used.len() + 2 - k,
{
    lemma_probe_bound(used, base, k);
    if !used.contains(numbered(base, k)) {
        assert(first_free(used, base, k));
    } else {
        lemma_probe_bound(used, base, k + 1);
        lemma_first_free_from(used, base, k + 1);
    }
}

/// A fresh name is not among the names in use. It is `base` where `base` is
/// free, and else `base` with the first number from 2 on that makes it free.
pub proof fn lemma_fresh_name(used: Seq<Seq<char>>, base: Seq<char>)
    ensures
        !used.contains(fresh_name(used, base)),
        !used.contains(base) ==> fresh_name(used, base) == base,
        used.contains(base) ==> exists|k: nat|
            first_free(used, base, k) && fresh_name(used, base) == numbered(base, k),
{
    if used.contains(base) {
        lemma_first_free_from(used, base, 2);
        let k = choose|k: nat| first_free(used, base, k);
        assert(first_free(used, base, k) && fresh_name(used, base) == numbered(base, k));
    }
}

/// The paths are unique, and so are the identifiers.
pub open spec fn names_wf(names: Names) -> bool {
    &&& unique_keys(names)
    &&& values_of(names).no_duplicates()
}

/// Asking for a name keeps the paths and the identifiers unique, keeps the
/// identifier of every path that had one, and gives the path that asked an
/// identifier.
pub proof fn lemma_registered(names: Names, path: Seq<char>, base: Seq<char>)
    requires
        names_wf(names),
    ensures
        names_wf(registered(names, path, base)),
        lookup(registered(names, path, base), path) is Some,
        forall|p: Seq<char>|
            lookup(names, p) is Some ==> #[trigger] lookup(registered(names, path, base), p)
                == lookup(names, p),
        forall|p: Seq<char>|
            p != path ==> #[trigger] lookup(registered(names, path, base), p) == lookup(names, p),
{
    let after = registered(names, path, base);
    lemma_first_index(keys_of(names), path);
    lemma_first_index(keys_of(after), path);
    if lookup(names, path) is None {
        let name = fresh_name(values_of(names), base);
        lemma_fresh_name(values_of(names), base);
        assert(after == names.push((path, name)));
        assert(keys_of(after)[names.len() as int] == path);
        assert forall|i: int, j: int| 0 <= i < j < after.len() implies after[i].0
            != after[j].0 by {
            if j == names.len() {
                assert(keys_of(names)[i] == names[i].0);
            }
        }
        assert forall|i: int, j: int|
            0 <= i < after.len() && 0 <= j < after.len() && i != j implies values_of(after)[i]
            != values_of(after)[j] by {
            if i < names.len() {
                assert(values_of(names)[i] == values_of(after)[i]);
            }
            if j < names.len() {
                assert(values_of(names)[j] == values_of(after)[j]);
            }
        }
        assert forall|p: Seq<char>| p != path implies #[trigger] lookup(after, p) == lookup(
            names,
            p,
        ) by {
            lemma_first_index(keys_of(names), p);
            lemma_first_index(keys_of(after), p);
            assert forall|j: int| 0 <= j < names.len() implies keys_of(after)[j] == keys_of(
                names,
            )[j] by {}
            match first_index(keys_of(names), p) {
                Some(i) => {
                    lemma_first_index_at(keys_of(after), p, i);
                },
                None => {
                    if first_index(keys_of(after), p) is Some {
                        let i = first_index(keys_of(after), p).unwrap();
                        assert(keys_of(names)[i] == p);
                    }
                },
            }
        }
    }
}

/// After the first `n` entries have asked, the paths and the identifiers are
/// unique, and each of these entries' paths has an identifier.
pub proof fn lemma_names_after(entries: Seq<(Seq<char>, Seq<char>)>, n: nat)
    requires
        n <= entries.len(),
    ensures
        names_wf(names_after(entries, n)),
        forall|i: int|
            0 <= i < n ==> lookup(names_after(entries, n), (#[trigger] entries[i]).0) is Some,
        forall|p: Seq<char>|
            #[trigger] lookup(names_after(entries, n), p) is Some ==> exists|i: int|
                0 <= i < n && (#[trigger] entries[i]).0 == p,
    decreases n,
{
    if n > 0 {
        let before = names_after(entries, (n - 1) as nat);
        let e = entries[n - 1];
        lemma_names_after(entries, (n - 1) as nat);
        lemma_registered(before, e.0, e.1);
        let after = names_after(entries, n);
        assert forall|i: int| 0 <= i < n implies lookup(after, (#[trigger] entries[i]).0)
            is Some by {
            if i < n - 1 {
                assert(lookup(before, entries[i].0) is Some);
            }
        }
        assert forall|p: Seq<char>| #[trigger] lookup(after, p) is Some implies exists|i: int|
            0 <= i < n && (#[trigger] entries[i]).0 == p by {
            if p == e.0 {
                assert(entries[n - 1].0 == p);
            } else {
                assert(lookup(before, p) is Some);
                let i = choose|i: int| 0 <= i < n - 1 && (#[trigger] entries[i]).0 == p;
                assert(entries[i].0 == p);
            }
        }
    } else {
        lemma_first_index(keys_of(names_after(entries, 0)), arbitrary());
        assert forall|p: Seq<char>| lookup(names_after(entries, 0), p) is None by {
            lemma_first_index(keys_of(names_after(entries, 0)), p);
        }
    }
}

/// An identifier, once given, stays: later entries do not change what a
/// path's identifier is.
pub proof fn lemma_names_stay(entries: Seq<(Seq<char>, Seq<char>)>, m: nat, n: nat, p: Seq<char>)
    requires
        m <= n <= entries.len(),
        lookup(names_after(entries, m), p) is Some,
    ensures
        lookup(names_after(entries, n), p) == lookup(names_after(entries, m), p),
    decreases n,
{
    if m < n {
        lemma_names_stay(entries, m, (n - 1) as nat, p);
        lemma_names_after(entries, (n - 1) as nat);
        lemma_registered(names_after(entries, (n - 1) as nat), entries[n - 1].0, entries[n - 1].1);
    }
}

/// The identifiers that were given stay in use as more entries ask.
pub proof fn lemma_used_stay(entries: Seq<(Seq<char>, Seq<char>)>, m: nat, n: nat, name: Seq<char>)
    requires
        m <= n <= entries.len(),
        values_of(names_after(entries, m)).contains(name),
    ensures
        values_of(names_after(entries, n)).contains(name),
    decreases n,
{
    if m < n {
        lemma_used_stay(entries, m, (n - 1) as nat, name);
        let before = names_after(entries, (n - 1) as nat);
        let after = names_after(entries, n);
        let i = choose|i: int| 0 <= i < before.len() && values_of(before)[i] == name;
        assert(values_of(after)[i] == name);
    }
}

/// Files at different paths get different identifiers.
pub proof fn lemma_distinct_paths_distinct_names(
    entries: Seq<(Seq<char>, Seq<char>)>,
    i: int,
    j: int,
)
    requires
        0 <= i < entries.len(),
        0 <= j < entries.len(),
        entries[i].0 != entries[j].0,
    ensures
        lookup(names_after(entries, entries.len()), entries[i].0) is Some,
        lookup(names_after(entries, entries.len()), entries[j].0) is Some,
        ident(names_after(entries, entries.len()), entries[i].0) != ident(
            names_after(entries, entries.len()),
            entries[j].0,
        ),
{
    let names = names_after(entries, entries.len());
    lemma_names_after(entries, entries.len());
    lemma_first_index(keys_of(names), entries[i].0);
    lemma_first_index(keys_of(names), entries[j].0);
    let a = first_index(keys_of(names), entries[i].0).unwrap();
    let b = first_index(keys_of(names), entries[j].0).unwrap();
    assert(keys_of(names)[a] != keys_of(names)[b]);
    assert(values_of(names)[a] == names[a].1);
    assert(values_of(names)[b] == names[b].1);
}

/// Where two files at different paths ask for the same identifier, each as
/// the first to name its path, the first of them makes the identifier taken,
/// and the second gets it with a number behind it: the first number from 2 on
/// that was free when it asked.
pub proof fn lemma_second_is_numbered(entries: Seq<(Seq<char>, Seq<char>)>, i: int, j: int)
    requires
        0 <= i < j < entries.len(),
        entries[i].1 == entries[j].1,
        forall|k: int| 0 <= k < i ==> (#[trigger] entries[k]).0 != entries[i].0,
        forall|k: int| 0 <= k < j ==> (#[trigger] entries[k]).0 != entries[j].0,
    ensures
        exists|k: nat|
            first_free(values_of(names_after(entries, j as nat)), entries[j].1, k) && ident(
                names_after(entries, entries.len()),
                entries[j].0,
            ) == numbered(entries[j].1, k),
{
    let base = entries[i].1;
    // The first of the two leaves `base` taken.
    let at_i = names_after(entries, i as nat);
    let past_i = names_after(entries, (i + 1) as nat);
    lemma_names_after(entries, i as nat);
    if lookup(at_i, entries[i].0) is Some {
        let k = choose|k: int| 0 <= k < i && (#[trigger] entries[k]).0 == entries[i].0;
        assert(false);
    }
    lemma_fresh_name(values_of(at_i), base);
    assert(past_i == at_i.push((entries[i].0, fresh_name(values_of(at_i), base))));
    if values_of(at_i).contains(base) {
        let x = choose|x: int| 0 <= x < at_i.len() && values_of(at_i)[x] == base;
        assert(values_of(past_i)[x] == base);
    } else {
        assert(values_of(past_i)[at_i.len() as int] == base);
    }
    assert(values_of(past_i).contains(base));
    lemma_used_stay(entries, (i + 1) as nat, j as nat, base);
    // The second asks while `base` is taken.
    let at_j = names_after(entries, j as nat);
    let past_j = names_after(entries, (j + 1) as nat);
    lemma_names_after(entries, j as nat);
    if lookup(at_j, entries[j].0) is Some {
        let k = choose|k: int| 0 <= k < j && (#[trigger] entries[k]).0 == entries[j].0;
        assert(false);
    }
    lemma_fresh_name(values_of(at_j), base);
    let name = fresh_name(values_of(at_j), base);
    assert(past_j == at_j.push((entries[j].0, name)));
    lemma_registered(at_j, entries[j].0, entries[j].1);
    lemma_first_index(keys_of(past_j), entries[j].0);
    assert(keys_of(past_j)[at_j.len() as int] == entries[j].0);
    assert forall|x: int| 0 <= x < at_j.len() implies keys_of(past_j)[x] != entries[j].0 by {
        assert(keys_of(past_j)[x] == keys_of(at_j)[x]);
        lemma_first_index(keys_of(at_j), entries[j].0);
    }
    assert(lookup(past_j, entries[j].0) == Some(name));
    lemma_names_stay(entries, (j + 1) as nat, entries.len(), entries[j].0);
}

/// The identifiers of the files of a router, by the path of each file.
#[derive(Debug)]
pub struct ImportMap {
    path_to_name: OrderedMap<String>,
}

impl View for ImportMap {
    type V = Names;

    /// The paths that have an identifier, each with its identifier, in the
    /// order in which they got it.
    closed spec fn view(&self) -> Names {
        record_view(self.path_to_name@)
    }
}

impl ImportMap {
    /// No file has an identifier yet.
    pub fn new() -> (r: Self)
        ensures
            r@ == Names::empty(),
    {
        let r = ImportMap { path_to_name: OrderedMap::new() };
        assert(r@ =~= Names::empty());
        r
    }

    /// Whether `name` has been given out.
    fn in_use(&self, name: &str) -> (r: bool)
        ensures
            r == values_of(self@).contains(name@),
    {
        let mut i: usize = 0;
        while i < self.path_to_name.len()
            invariant
                i <= self.path_to_name@.len(),
                self@.len() == self.path_to_name@.len(),
                forall|j: int| 0 <= j < i ==> values_of(self@)[j] != name@,
            decreases self.path_to_name@.len() - i,
        {
            if same_text(self.path_to_name.value_at(i).as_str(), name) {
                assert(values_of(self@)[i as int] == name@);
                return true;
            }
            i += 1;
        }
        false
    }

    /// An identifier for `base` that has not been given out.
    pub fn unique_name(&self, base: &str) -> (r: String)
        ensures
            r@ == fresh_name(values_of(self@), base@),
    {
        if !self.in_use(base) {
            return String::from_str(base);
        }
        let ghost used = values_of(self@);
        let n = self.path_to_name.len();
        let mut counter: u128 = 2;
        loop
            invariant
                used == values_of(self@),
                used.len() == n,
                used.contains(base@),
                2 <= counter <= used.len() + 2,
                forall|j: nat| 2 <= j < counter ==> used.contains(#[trigger] numbered(base@, j)),
            decreases used.len() + 2 - counter,
        {
            let mut candidate = String::from_str(base);
            let digits = decimal_string(counter);
            candidate.append(digits.as_str());
            if !self.in_use(candidate.as_str()) {
                proof {
                    let k = counter as nat;
                    assert(first_free(used, base@, k));
                    let c = choose|c: nat| first_free(used, base@, c);
                    lemma_first_free_unique(used, base@, k, c);
                }
                return candidate;
            }
            proof {
                lemma_probe_bound(used, base@, (counter + 1) as nat);
            }
            counter += 1;
        }
    }

    /// The identifier of the file at `path`, if it has one.
    pub fn get(&self, path: &str) -> (r: Option<&String>)
        ensures
            match r {
                Some(name) => lookup(self@, path@) == Some(name@),
                None => lookup(self@, path@) is None,
            },
    {
        proof {
            lemma_same_keys(self.path_to_name@, self@);
            lemma_first_index(keys_of(self@), path@);
        }
        self.path_to_name.get(path)
    }

    /// Gives the file at `path` an identifier, `base` or one made from it,
    /// unless it has one, and returns the identifier that it has then.
    pub fn register(&mut self, path: &str, base: &str) -> (r: String)
        ensures
            final(self)@ == registered(old(self)@, path@, base@),
            lookup(final(self)@, path@) == Some(r@),
    {
        proof {
            lemma_same_keys(self.path_to_name@, self@);
            lemma_first_index(keys_of(self@), path@);
        }
        match self.path_to_name.get(path) {
            Some(name) => {
                return name.clone();
            },
            None => {},
        }
        let name = self.unique_name(base);
        let ghost before = self.path_to_name@;
        self.path_to_name.insert(String::from_str(path), name.clone());
        proof {
            assert(self.path_to_name@ == before.push((path@, name)));
            assert(self@ =~= old(self)@.push((path@, name@)));
            lemma_first_index(keys_of(self@), path@);
            assert(keys_of(self@)[old(self)@.len() as int] == path@);
            assert forall|j: int| 0 <= j < old(self)@.len() implies keys_of(self@)[j] != path@ by {
                assert(keys_of(self@)[j] == keys_of(old(self)@)[j]);
            }
        }
        name
    }

    /// Gives a layout's file its identifier: the layout's name with its
    /// first character in upper case and `Layout` behind it, or one made
    /// from that.
    pub fn add_layout(&mut self, layout: &Layout) -> (r: String)
        ensures
            final(self)@ == registered(old(self)@, layout@.path, layout_base(layout@.name)),
            lookup(final(self)@, layout@.path) == Some(r@),
    {
        let mut base = capitalize(layout.name.as_str());
        base.append("Layout");
        self.register(layout.path.as_str(), base.as_str())
    }

    /// Gives a route's file its identifier: the route's name with its first
    /// character in upper case, or one made from that.
    pub fn add_route(&mut self, route: &Route) -> (r: String)
        ensures
            final(self)@ == registered(old(self)@, route@.path, route_base(route@.name)),
            lookup(final(self)@, route@.path) == Some(r@),
    {
        let base = capitalize(route.name.as_str());
        self.register(route.path.as_str(), base.as_str())
    }
}

} // verus!
