//! Containers of layers and groups: in order, and found again by name or id.
use vstd::prelude::*;

use std::collections::HashMap;

use crate::layer::{PsdGroup, PsdGroupView, PsdLayer, PsdLayerView};

verus! {

broadcast use vstd::std_specs::hash::group_hash_axioms;

/// The index of the last name in `names` that equals `name`, if any.
pub open spec fn last_named(names: Seq<Seq<char>>, name: Seq<char>) -> Option<int>
    decreases names.len(),
{
    if names.len() == 0 {
        None
    } else if names.last() == name {
        Some(names.len() - 1)
    } else {
        last_named(names.drop_last(), name)
    }
}

/// The index of the first name in `names` that equals `name`, if any.
pub open spec fn first_named(names: Seq<Seq<char>>, name: Seq<char>) -> Option<int>
    decreases names.len(),
{
    if names.len() == 0 {
        None
    } else if names[0] == name {
        Some(0)
    } else {
        match first_named(names.skip(1), name) {
            Some(i) => Some(i + 1),
            None => None,
        }
    }
}

/// An index found first by name lies within the names.
pub proof fn lemma_first_named_in_range(names: Seq<Seq<char>>, name: Seq<char>)
    ensures
        first_named(names, name) matches Some(i) ==> 0 <= i < names.len() && names[i] == name,
    decreases names.len(),
{
    if names.len() > 0 && names[0] != name {
        lemma_first_named_in_range(names.skip(1), name);
    }
}

/// An index found by name lies within the names.
pub proof fn lemma_last_named_in_range(names: Seq<Seq<char>>, name: Seq<char>)
    ensures
        last_named(names, name) matches Some(i) ==> 0 <= i < names.len() && names[i] == name,
    decreases names.len(),
{
    if names.len() > 0 && names.last() != name {
        lemma_last_named_in_range(names.drop_last(), name);
    }
}

/// `v` with its items in the opposite order.
pub(crate) fn reverse_vec<T>(v: Vec<T>) -> (r: Vec<T>)
    ensures
        r@ == v@.reverse(),
{
    let ghost orig = v@;
    let mut v = v;
    let mut out: Vec<T> = Vec::new();
    while v.len() > 0
        invariant
            v@.len() + out@.len() == orig.len(),
            v@ == orig.take(v@.len() as int),
            out@ == orig.reverse().take(out@.len() as int),
        decreases v@.len(),
    {
        let ghost k = v@.len();
        let x = v.pop().unwrap();
        out.push(x);
        assert(v@ =~= orig.take(k - 1));
        assert(out@ =~= orig.reverse().take(out@.len() as int));
    }
    assert(out@ =~= orig.reverse());
    out
}

/// After `x` is pushed under `n` onto names and items of the same number,
/// finding `n` gives the index of `x`, and finding another name gives what it
/// gave before.
pub proof fn lemma_push_then_find<T>(
    names: Seq<Seq<char>>,
    items: Seq<T>,
    n: Seq<char>,
    x: T,
    m: Seq<char>,
)
    requires
        names.len() == items.len(),
    ensures
        last_named(names.push(n), n) == Some(names.len() as int),
        items.push(x)[names.len() as int] == x,
        m != n ==> last_named(names.push(n), m) == last_named(names, m),
{
    assert(names.push(n).drop_last() =~= names);
}

/// `NamedItems` is a container for storing items with order-preservation and
/// indexing by position and by name (the item pushed last under a name wins).
#[derive(Debug)]
pub struct NamedItems<T> {
    items: Vec<T>,
    names: Vec<String>,
}

impl<T> NamedItems<T> {
    /// Each item has its name: there are as many names as items.
    #[verifier::type_invariant]
    spec fn names_match(self) -> bool {
        self.names.len() == self.items.len()
    }

    /// The items, in order.
    pub closed spec fn items_view(&self) -> Seq<T> {
        self.items@
    }

    /// The names the items were pushed under, in order.
    pub closed spec fn names_view(&self) -> Seq<Seq<char>> {
        self.names@.map_values(|s: String| s@)
    }

    /// Creates a new `NamedItems`
    pub fn new() -> (r: Self)
        ensures
            r.items_view() == Seq::<T>::empty(),
            r.names_view() == Seq::<Seq<char>>::empty(),
    {
        let r = NamedItems { items: Vec::new(), names: Vec::new() };
        assert(r.names_view() =~= Seq::<Seq<char>>::empty());
        r
    }

    /// Creates a new `NamedItems` with the specified capacity
    pub fn with_capacity(capacity: usize) -> (r: Self)
        ensures
            r.items_view() == Seq::<T>::empty(),
            r.names_view() == Seq::<Seq<char>>::empty(),
    {
        let r = NamedItems { items: Vec::with_capacity(capacity), names: Vec::with_capacity(capacity) };
        assert(r.names_view() =~= Seq::<Seq<char>>::empty());
        r
    }

    /// All items, in order.
    pub fn items(&self) -> (r: &Vec<T>)
        ensures
            r@ == self.items_view(),
    {
        &self.items
    }

    /// The item pushed last under `name`, if any.
    pub fn item_by_name(&self, name: &str) -> (r: Option<&T>)
        ensures
            self.names_view().len() == self.items_view().len(),
            match last_named(self.names_view(), name@) {
                Some(i) => r == Some(&self.items_view()[i]),
                None => r is None,
            },
    {
        proof {
            use_type_invariant(self);
            lemma_last_named_in_range(self.names_view(), name@);
        }
        let key = name.to_owned();
        let mut i = self.names.len();
        assert(self.names_view().take(i as int) =~= self.names_view());
        while i > 0
            invariant
                i <= self.names@.len(),
                self.names@.len() == self.items@.len(),
                key@ == name@,
                last_named(self.names_view(), name@) == last_named(
                    self.names_view().take(i as int),
                    name@,
                ),
            decreases i,
        {
            let ghost prefix = self.names_view().take(i as int);
            assert(prefix.last() == self.names@[i - 1]@);
            if self.names[i - 1] == key {
                return Some(&self.items[i - 1]);
            }
            assert(prefix.drop_last() =~= self.names_view().take(i - 1));
            i -= 1;
        }
        None
    }

    /// The first item in the order whose name is `name`, if any.
    pub(crate) fn first_item_by_name(&self, name: &str) -> (r: Option<&T>)
        ensures
            self.names_view().len() == self.items_view().len(),
            match first_named(self.names_view(), name@) {
                Some(i) => r == Some(&self.items_view()[i]),
                None => r is None,
            },
    {
        proof {
            use_type_invariant(self);
        }
        let key = name.to_owned();
        let mut i: usize = 0;
        assert(self.names_view().skip(0) =~= self.names_view());
        while i < self.names.len()
            invariant
                i <= self.names@.len(),
                self.names@.len() == self.items@.len(),
                key@ == name@,
                first_named(self.names_view(), name@) == match first_named(
                    self.names_view().skip(i as int),
                    name@,
                ) {
                    Some(j) => Some(j + i),
                    None => None::<int>,
                },
            decreases self.names@.len() - i,
        {
            let ghost rest = self.names_view().skip(i as int);
            assert(rest[0] == self.names@[i as int]@);
            if self.names[i] == key {
                return Some(&self.items[i]);
            }
            assert(rest.skip(1) =~= self.names_view().skip(i + 1));
            i += 1;
        }
        assert(self.names_view().skip(i as int) =~= Seq::<Seq<char>>::empty());
        None
    }

    /// The item at `idx`, if any.
    pub fn item_by_idx(&self, idx: usize) -> (r: Option<&T>)
        ensures
            idx < self.items_view().len() ==> r == Some(&self.items_view()[idx as int]),
            idx >= self.items_view().len() ==> r is None,
    {
        if idx < self.items.len() {
            Some(&self.items[idx])
        } else {
            None
        }
    }

    /// The items from `start` up to, not including, `end`.
    pub fn range(&self, start: usize, end: usize) -> (r: &[T])
        requires
            start <= end <= self.items_view().len(),
        ensures
            r@ == self.items_view().subrange(start as int, end as int),
    {
        &self.items.as_slice()[start..end]
    }

    /// The number of items.
    pub fn len(&self) -> (r: usize)
        ensures
            r == self.items_view().len(),
            r == self.names_view().len(),
    {
        proof {
            use_type_invariant(self);
        }
        self.items.len()
    }

    /// Put the items, with their names, in the opposite order.
    pub(crate) fn reverse(&mut self)
        ensures
            final(self).items_view() == old(self).items_view().reverse(),
            final(self).names_view() == old(self).names_view().reverse(),
    {
        proof {
            use_type_invariant(&*self);
        }
        let ghost old_names = self.names_view();
        let mut taken = NamedItems { items: Vec::new(), names: Vec::new() };
        std::mem::swap(&mut taken, self);
        proof {
            use_type_invariant(&taken);
        }
        let NamedItems { items, names } = taken;
        let items = reverse_vec(items);
        let names = reverse_vec(names);
        *self = NamedItems { items, names };
        assert(self.names_view() =~= old_names.reverse());
    }

    /// Push `item` under `name`, last in the order.
    pub fn push(&mut self, name: String, item: T)
        ensures
            final(self).items_view() == old(self).items_view().push(item),
            final(self).names_view() == old(self).names_view().push(name@),
            old(self).names_view().len() == old(self).items_view().len(),
            final(self).names_view().len() == final(self).items_view().len(),
    {
        proof {
            use_type_invariant(&*self);
        }
        let ghost n = name@;
        let mut taken = NamedItems { items: Vec::new(), names: Vec::new() };
        std::mem::swap(&mut taken, self);
        proof {
            use_type_invariant(&taken);
        }
        let NamedItems { mut items, mut names } = taken;
        items.push(item);
        names.push(name);
        *self = NamedItems { items, names };
        assert(self.names_view() =~= old(self).names_view().push(n));
    }
}

/// The layers of a PSD, in order from the bottom one to the top one, found
/// again by name (the layer pushed last under a name wins).
#[derive(Debug)]
pub struct Layers {
    items: NamedItems<PsdLayer>,
}

/// The views of the layers in `items`.
pub open spec fn layer_views(items: Seq<PsdLayer>) -> Seq<PsdLayerView> {
    items.map_values(|l: PsdLayer| l@)
}

impl Layers {
    /// The layers, in order.
    pub closed spec fn layers_view(&self) -> Seq<PsdLayer> {
        self.items.items_view()
    }

    /// The names the layers were pushed under, in order.
    pub closed spec fn names_view(&self) -> Seq<Seq<char>> {
        self.items.names_view()
    }

    /// No layers.
    pub fn new() -> (r: Self)
        ensures
            r.layers_view() == Seq::<PsdLayer>::empty(),
            r.names_view() == Seq::<Seq<char>>::empty(),
    {
        Layers { items: NamedItems::new() }
    }

    /// No layers, with room for `capacity` of them.
    pub fn with_capacity(capacity: usize) -> (r: Self)
        ensures
            r.layers_view() == Seq::<PsdLayer>::empty(),
            r.names_view() == Seq::<Seq<char>>::empty(),
    {
        Layers { items: NamedItems::with_capacity(capacity) }
    }

    /// The layer pushed last under `name`, if any.
    pub fn item_by_name(&self, name: &str) -> (r: Option<&PsdLayer>)
        ensures
            self.names_view().len() == self.layers_view().len(),
            match last_named(self.names_view(), name@) {
                Some(i) => r == Some(&self.layers_view()[i]),
                None => r is None,
            },
    {
        self.items.item_by_name(name)
    }

    /// Push `item` under `name`, last in the order.
    pub fn push(&mut self, name: String, item: PsdLayer)
        ensures
            final(self).layers_view() == old(self).layers_view().push(item),
            final(self).names_view() == old(self).names_view().push(name@),
            old(self).names_view().len() == old(self).layers_view().len(),
            final(self).names_view().len() == final(self).layers_view().len(),
    {
        self.items.push(name, item)
    }

    /// The first layer in the order whose name is `name`, if any.
    pub(crate) fn first_by_name(&self, name: &str) -> (r: Option<&PsdLayer>)
        ensures
            self.names_view().len() == self.layers_view().len(),
            match first_named(self.names_view(), name@) {
                Some(i) => r == Some(&self.layers_view()[i]),
                None => r is None,
            },
    {
        self.items.first_item_by_name(name)
    }

    /// Put the layers, with their names, in the opposite order.
    pub(crate) fn reverse(&mut self)
        ensures
            final(self).layers_view() == old(self).layers_view().reverse(),
            final(self).names_view() == old(self).names_view().reverse(),
    {
        self.items.reverse()
    }

    /// All layers, in order.
    pub fn as_vec(&self) -> (r: &Vec<PsdLayer>)
        ensures
            r@ == self.layers_view(),
    {
        self.items.items()
    }

    /// The number of layers.
    pub fn len(&self) -> (r: usize)
        ensures
            r == self.layers_view().len(),
            r == self.names_view().len(),
    {
        self.items.len()
    }
}

/// The groups of a PSD by id, with their ids in order.
#[derive(Debug)]
pub struct Groups {
    groups: HashMap<u32, PsdGroup>,
    group_ids_in_order: Vec<u32>,
}

impl Groups {
    /// The groups, by id.
    pub closed spec fn groups_view(&self) -> Map<u32, PsdGroupView> {
        self.groups@.map_values(|g: PsdGroup| g@)
    }

    /// The group ids in the order in which they were pushed.
    pub closed spec fn order_view(&self) -> Seq<u32> {
        self.group_ids_in_order@
    }

    /// No groups, with room for `capacity` of them.
    pub fn with_capacity(capacity: usize) -> (r: Self)
        ensures
            r.groups_view() == Map::<u32, PsdGroupView>::empty(),
            r.order_view() == Seq::<u32>::empty(),
    {
        let r = Groups { groups: HashMap::with_capacity(capacity), group_ids_in_order: Vec::with_capacity(capacity) };
        assert(r.groups_view() =~= Map::<u32, PsdGroupView>::empty());
        r
    }

    /// Add a group to the list of groups, making it last in the order.
    pub fn push(&mut self, group: PsdGroup)
        ensures
            final(self).groups_view() == old(self).groups_view().insert(group@.id, group@),
            final(self).order_view() == old(self).order_view().push(group@.id),
    {
        let id = group.id();
        let ghost g = group@;
        self.group_ids_in_order.push(id);
        self.groups.insert(id, group);
        assert(self.groups_view() =~= old(self).groups_view().insert(id, g));
    }

    /// Put the group ids in the opposite order.
    pub(crate) fn reverse_order(&mut self)
        ensures
            final(self).groups_view() == old(self).groups_view(),
            final(self).order_view() == old(self).order_view().reverse(),
    {
        let mut ids: Vec<u32> = Vec::new();
        std::mem::swap(&mut ids, &mut self.group_ids_in_order);
        self.group_ids_in_order = reverse_vec(ids);
    }

    /// Get the group ID's in order (from bottom to top in a PSD file).
    pub fn group_ids_in_order(&self) -> (r: &Vec<u32>)
        ensures
            r@ == self.order_view(),
    {
        &self.group_ids_in_order
    }

    /// All groups, by id.
    pub fn as_map(&self) -> (r: &HashMap<u32, PsdGroup>)
        ensures
            r@.map_values(|g: PsdGroup| g@) == self.groups_view(),
    {
        &self.groups
    }

    /// The group with id `id`, if any.
    pub fn get(&self, id: u32) -> (r: Option<&PsdGroup>)
        ensures
            self.groups_view().contains_key(id) ==> (r matches Some(g) && g@ == self.groups_view()[id]),
            !self.groups_view().contains_key(id) ==> r is None,
    {
        self.groups.get(&id)
    }
}

} // verus!
