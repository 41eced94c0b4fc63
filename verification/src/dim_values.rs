//! Dimension tables: each dimension (countries, cities, categories, ...)
//! numbers the distinct keys it is given, 1, 2, 3, ... in the order of their
//! first appearance.

use vstd::prelude::*;
use vstd::hash_map::StringHashMap;

verus! {

/// The keys of one dimension; the key at position `i` has id `i + 1`.
pub struct Dimension {
    name: String,
    keys: Vec<String>,
    index: StringHashMap<usize>,
}

/// All dimensions, by name.
pub struct DimensionStore {
    dims: Vec<Dimension>,
}

/// The keys of a dimension after `key` was asked for: unchanged when the key
/// is already there, else the key appended.
pub open spec fn grow(keys: Seq<Seq<char>>, key: Seq<char>) -> Seq<Seq<char>> {
    if keys.contains(key) {
        keys
    } else {
        keys.push(key)
    }
}

/// The id of `key` among `keys`: its position plus one.
pub open spec fn id_in(keys: Seq<Seq<char>>, key: Seq<char>) -> int {
    keys.index_of(key) + 1
}

/// The keys of dimension `dim`, empty when the dimension does not exist yet.
pub open spec fn keys_of(store: Map<Seq<char>, Seq<Seq<char>>>, dim: Seq<char>) -> Seq<Seq<char>> {
    if store.contains_key(dim) {
        store[dim]
    } else {
        Seq::<Seq<char>>::empty()
    }
}

/// The store after the key `key` of dimension `dim` was asked for.
pub open spec fn after_request(
    store: Map<Seq<char>, Seq<Seq<char>>>,
    dim: Seq<char>,
    key: Seq<char>,
) -> Map<Seq<char>, Seq<Seq<char>>> {
    store.insert(dim, grow(keys_of(store, dim), key))
}

/// The id that asking for key `key` of dimension `dim` gives.
pub open spec fn id_for(store: Map<Seq<char>, Seq<Seq<char>>>, dim: Seq<char>, key: Seq<char>) -> int {
    id_in(grow(keys_of(store, dim), key), key)
}

/// There is room for `n` more keys in every dimension, old or new.
pub open spec fn room(store: Map<Seq<char>, Seq<Seq<char>>>, n: nat) -> bool {
    &&& n < usize::MAX
    &&& forall|d: Seq<char>| #[trigger] store.contains_key(d) ==> store[d].len() + n < usize::MAX
}

/// Every dimension of the store holds each key once.
pub open spec fn keys_distinct(store: Map<Seq<char>, Seq<Seq<char>>>) -> bool {
    forall|d: Seq<char>| #[trigger] store.contains_key(d) ==> store[d].no_duplicates()
}

/// `later` keeps every dimension of `earlier`, with its keys in front in the
/// same order: what asking for more keys does to a store.
pub open spec fn keeps_keys(
    earlier: Map<Seq<char>, Seq<Seq<char>>>,
    later: Map<Seq<char>, Seq<Seq<char>>>,
) -> bool {
    forall|d: Seq<char>| #[trigger] earlier.contains_key(d) ==> {
        &&& later.contains_key(d)
        &&& earlier[d].len() <= later[d].len()
        &&& forall|i: int| 0 <= i < earlier[d].len() ==> #[trigger] later[d][i] == earlier[d][i]
    }
}

/// Every store keeps its own keys.
pub proof fn lemma_keeps_keys_refl(store: Map<Seq<char>, Seq<Seq<char>>>)
    ensures
        keeps_keys(store, store),
{
}

/// Keeping keys is transitive.
pub proof fn lemma_keeps_keys_trans(
    a: Map<Seq<char>, Seq<Seq<char>>>,
    b: Map<Seq<char>, Seq<Seq<char>>>,
    c: Map<Seq<char>, Seq<Seq<char>>>,
)
    requires
        keeps_keys(a, b),
        keeps_keys(b, c),
    ensures
        keeps_keys(a, c),
{
    assert forall|d: Seq<char>| #[trigger] a.contains_key(d) implies {
        &&& c.contains_key(d)
        &&& a[d].len() <= c[d].len()
        &&& forall|i: int| 0 <= i < a[d].len() ==> #[trigger] c[d][i] == a[d][i]
    } by {
        assert(b.contains_key(d));
        assert forall|i: int| 0 <= i < a[d].len() implies #[trigger] c[d][i] == a[d][i] by {
            assert(b[d][i] == a[d][i]);
        }
    }
}

/// A request keeps the keys already given and keeps them distinct.
pub proof fn lemma_request_grows(store: Map<Seq<char>, Seq<Seq<char>>>, dim: Seq<char>, key: Seq<char>)
    requires
        keys_distinct(store),
    ensures
        keeps_keys(store, after_request(store, dim, key)),
        keys_distinct(after_request(store, dim, key)),
        after_request(store, dim, key).contains_key(dim),
        after_request(store, dim, key)[dim].contains(key),
{
    let ks = keys_of(store, dim);
    let g = grow(ks, key);
    let after = after_request(store, dim, key);
    law_next_id(ks, key);
    if !ks.contains(key) {
        assert(g[ks.len() as int] == key);
    }
    assert(g.contains(key));
    assert forall|d: Seq<char>| #[trigger] after.contains_key(d) implies after[d].no_duplicates() by {
        if d != dim {
            assert(store.contains_key(d));
        }
    }
    assert forall|d: Seq<char>| #[trigger] store.contains_key(d) implies {
        &&& after.contains_key(d)
        &&& store[d].len() <= after[d].len()
        &&& forall|i: int| 0 <= i < store[d].len() ==> #[trigger] after[d][i] == store[d][i]
    } by {
        if d == dim {
            assert(ks == store[d]);
        }
    }
}

/// A store that keeps the keys present after a request answers the same
/// request with the same id and without change.
pub proof fn lemma_request_settles(
    store: Map<Seq<char>, Seq<Seq<char>>>,
    dim: Seq<char>,
    key: Seq<char>,
    later: Map<Seq<char>, Seq<Seq<char>>>,
)
    requires
        keys_distinct(store),
        keys_distinct(later),
        keeps_keys(after_request(store, dim, key), later),
    ensures
        after_request(later, dim, key) == later,
        id_for(later, dim, key) == id_for(store, dim, key),
{
    lemma_request_grows(store, dim, key);
    let ks = keys_of(store, dim);
    let g = grow(ks, key);
    let after = after_request(store, dim, key);
    assert(after[dim] == g);
    let p = g.index_of(key);
    assert(0 <= p < g.len() && g[p] == key);
    assert(later.contains_key(dim));
    let lk = later[dim];
    assert(lk[p] == g[p]);
    assert(lk.contains(key));
    assert(keys_of(later, dim) == lk);
    assert(grow(lk, key) == lk);
    assert(later.insert(dim, lk) =~= later);
    lemma_index_of_unique(lk, key, p);
    law_next_id(ks, key);
    lemma_index_of_unique(g, key, p);
}

/// Every dimension of the store has fewer than `usize::MAX` keys.
pub open spec fn within_limits(store: Map<Seq<char>, Seq<Seq<char>>>) -> bool {
    forall|d: Seq<char>| #[trigger] store.contains_key(d) ==> store[d].len() < usize::MAX
}

/// A store with room for more keys is within the limits.
pub proof fn lemma_room_within_limits(store: Map<Seq<char>, Seq<Seq<char>>>, n: nat)
    requires
        room(store, n),
    ensures
        within_limits(store),
{
}

/// With room for one more key, any request fits.
pub proof fn lemma_room_allows_request(
    store: Map<Seq<char>, Seq<Seq<char>>>,
    dim: Seq<char>,
    key: Seq<char>,
    n: nat,
)
    requires
        room(store, n + 1),
    ensures
        grow(keys_of(store, dim), key).len() < usize::MAX,
{
    if store.contains_key(dim) {
        assert(store[dim].len() + n + 1 < usize::MAX);
    }
}

/// A request whose result stays within the limits of a store that keeps its
/// keys fits.
pub proof fn lemma_request_fits(
    store: Map<Seq<char>, Seq<Seq<char>>>,
    dim: Seq<char>,
    key: Seq<char>,
    later: Map<Seq<char>, Seq<Seq<char>>>,
)
    requires
        keeps_keys(after_request(store, dim, key), later),
        within_limits(later),
    ensures
        grow(keys_of(store, dim), key).len() < usize::MAX,
{
    let after = after_request(store, dim, key);
    assert(after.contains_key(dim));
    assert(later.contains_key(dim));
}

/// Asking for one key uses up at most one unit of room.
pub proof fn lemma_room_after_request(
    store: Map<Seq<char>, Seq<Seq<char>>>,
    dim: Seq<char>,
    key: Seq<char>,
    n: nat,
)
    requires
        room(store, n + 1),
    ensures
        room(after_request(store, dim, key), n),
        room(store, n),
{
    let after = after_request(store, dim, key);
    assert forall|d: Seq<char>| #[trigger] after.contains_key(d) implies after[d].len() + n < usize::MAX by {
        if d == dim {
            assert(grow(keys_of(store, dim), key).len() <= keys_of(store, dim).len() + 1);
        }
    }
}

impl View for Dimension {
    type V = Seq<Seq<char>>;

    closed spec fn view(&self) -> Seq<Seq<char>> {
        self.keys@.map_values(|s: String| s@)
    }
}

impl Dimension {
    /// The dimension's name.
    pub closed spec fn name_view(&self) -> Seq<char> {
        self.name@
    }

    /// The keys are distinct, and the index maps each key to its id.
    pub closed spec fn wf(&self) -> bool {
        &&& self@.no_duplicates()
        &&& self.keys@.len() < usize::MAX
        &&& forall|k: Seq<char>| #[trigger] self.index@.contains_key(k) <==> self@.contains(k)
        &&& forall|i: int| 0 <= i < self@.len() ==> self.index@[#[trigger] self@[i]] == i + 1
    }

    /// Number of keys.
    pub fn len(&self) -> (r: usize)
        requires
            self.wf(),
        ensures
            r == self@.len(),
    {
        self.keys.len()
    }

    /// Whether the dimension has no key.
    pub fn is_empty(&self) -> (r: bool)
        requires
            self.wf(),
        ensures
            r == (self@.len() == 0),
    {
        self.keys.len() == 0
    }

    /// The id of `key`, if the dimension has it.
    pub fn id_of(&self, key: &str) -> (r: Option<usize>)
        requires
            self.wf(),
        ensures
            match r {
                Some(id) => self@.contains(key@) && id == id_in(self@, key@),
                None => !self@.contains(key@),
            },
    {
        match self.index.get(key) {
            Some(id) => {
                proof {
                    let i = self@.index_of(key@);
                    assert(self@[i] == key@);
                    lemma_index_of_unique(self@, key@, i);
                }
                Some(*id)
            },
            None => None,
        }
    }

    /// The key whose id is `id`, if any.
    pub fn key_at(&self, id: usize) -> (r: Option<&String>)
        requires
            self.wf(),
        ensures
            match r {
                Some(k) => 1 <= id <= self@.len() && k@ == self@[id - 1],
                None => !(1 <= id <= self@.len()),
            },
    {
        if id >= 1 && id <= self.keys.len() {
            Some(&self.keys[id - 1])
        } else {
            None
        }
    }

    /// The (key, id) pairs of the dimension, in id order.
    pub fn entries(&self) -> (r: Vec<(String, usize)>)
        requires
            self.wf(),
        ensures
            r@.len() == self@.len(),
            forall|i: int| 0 <= i < r@.len() ==> (#[trigger] r@[i]).0@ == self@[i] && r@[i].1 == i + 1,
    {
        let mut out: Vec<(String, usize)> = Vec::new();
        for i in 0..self.keys.len()
            invariant
                self.wf(),
                out@.len() == i,
                forall|k: int| 0 <= k < i ==> (#[trigger] out@[k]).0@ == self@[k] && out@[k].1 == k + 1,
        {
            let k = self.keys[i].clone();
            out.push((k, i + 1));
        }
        out
    }

    /// An empty dimension called `name`.
    fn empty(name: &str) -> (d: Dimension)
        ensures
            d.wf(),
            d@ == Seq::<Seq<char>>::empty(),
            d.name_view() == name@,
    {
        let d = Dimension { name: name.to_string(), keys: Vec::new(), index: StringHashMap::new() };
        assert(d@ =~= Seq::<Seq<char>>::empty());
        d
    }

    /// Adds `key`, which is not there yet, with the next id.
    fn add(&mut self, key: String) -> (id: usize)
        requires
            old(self).wf(),
            !old(self)@.contains(key@),
            old(self)@.len() + 1 < usize::MAX,
        ensures
            final(self).wf(),
            final(self)@ == old(self)@.push(key@),
            final(self).name_view() == old(self).name_view(),
            id == old(self)@.len() + 1,
    {
        let id = self.keys.len() + 1;
        let ghost before = self@;
        self.index.insert(key.clone(), id);
        self.keys.push(key);
        assert(self@ =~= before.push(key@));
        proof {
            assert forall|i: int, j: int| 0 <= i < j < self@.len() implies self@[i] != self@[j] by {
                if j == before.len() {
                    assert(before.contains(before[i]));
                }
            }
            assert(self@[before.len() as int] == key@);
            assert forall|k: Seq<char>| #[trigger] self.index@.contains_key(k) <==> self@.contains(k) by {
                if k == key@ {
                    assert(self@[before.len() as int] == key@);
                }
                if self@.contains(k) && k != key@ {
                    let i = choose|i: int| 0 <= i < self@.len() && self@[i] == k;
                    assert(before[i] == k);
                }
                if before.contains(k) {
                    let i = choose|i: int| 0 <= i < before.len() && before[i] == k;
                    assert(self@[i] == k);
                }
            }
            assert forall|i: int| 0 <= i < self@.len() implies self.index@[#[trigger] self@[i]] == i + 1 by {
                if i < before.len() {
                    assert(before[i] == self@[i]);
                    assert(before.contains(before[i]));
                }
            }
        }
        id
    }
}

/// In a sequence without duplicates, `index_of` finds the one position of an element.
pub proof fn lemma_index_of_unique(s: Seq<Seq<char>>, x: Seq<char>, i: int)
    requires
        s.no_duplicates(),
        0 <= i < s.len(),
        s[i] == x,
    ensures
        s.index_of(x) == i,
{
    let j = s.index_of(x);
    assert(s.contains(x));
    assert(s[j] == x);
}

impl View for DimensionStore {
    type V = Map<Seq<char>, Seq<Seq<char>>>;

    closed spec fn view(&self) -> Map<Seq<char>, Seq<Seq<char>>> {
        Map::new(
            |n: Seq<char>| exists|i: int| 0 <= i < self.dims@.len() && (#[trigger] self.dims@[i]).name_view() == n,
            |n: Seq<char>|
                {
                    let i = choose|i: int| 0 <= i < self.dims@.len() && (#[trigger] self.dims@[i]).name_view() == n;
                    self.dims@[i]@
                },
        )
    }
}

impl DimensionStore {
    /// Dimension names are distinct and each dimension is well formed.
    pub closed spec fn wf(&self) -> bool {
        &&& forall|i: int, j: int|
            0 <= i < j < self.dims@.len() ==> (#[trigger] self.dims@[i]).name_view()
                != (#[trigger] self.dims@[j]).name_view()
        &&& forall|i: int| 0 <= i < self.dims@.len() ==> (#[trigger] self.dims@[i]).wf()
    }

    /// There is room for `n` more keys in every dimension.
    pub open spec fn has_room(&self, n: nat) -> bool {
        room(self@, n)
    }

    /// The dimension at position `i` is the one named so in the view.
    proof fn lemma_view_at(&self, i: int)
        requires
            self.wf(),
            0 <= i < self.dims@.len(),
        ensures
            self@.contains_key(self.dims@[i].name_view()),
            self@[self.dims@[i].name_view()] == self.dims@[i]@,
    {
        let n = self.dims@[i].name_view();
        assert(self@.contains_key(n));
        let j = choose|j: int| 0 <= j < self.dims@.len() && (#[trigger] self.dims@[j]).name_view() == n;
        if i != j {
            if i < j {
                assert(self.dims@[i].name_view() != self.dims@[j].name_view());
            } else {
                assert(self.dims@[j].name_view() != self.dims@[i].name_view());
            }
        }
    }

    /// Whether there is room for `n` more keys in every dimension.
    pub fn has_room_for(&self, n: usize) -> (r: bool)
        requires
            self.wf(),
        ensures
            r == self.has_room(n as nat),
    {
        if n == usize::MAX {
            return false;
        }
        for i in 0..self.dims.len()
            invariant
                self.wf(),
                n < usize::MAX,
                forall|k: int| 0 <= k < i ==> (#[trigger] self.dims@[k])@.len() + n < usize::MAX,
        {
            if self.dims[i].keys.len() >= usize::MAX - n {
                proof {
                    self.lemma_view_at(i as int);
                    assert(self@.contains_key(self.dims@[i as int].name_view()));
                }
                return false;
            }
        }
        proof {
            assert forall|d: Seq<char>| #[trigger] self@.contains_key(d) implies self@[d].len() + n < usize::MAX by {
                let k = choose|k: int| 0 <= k < self.dims@.len() && (#[trigger] self.dims@[k]).name_view() == d;
                self.lemma_view_at(k);
            }
        }
        true
    }

    /// A store with no dimension.
    pub fn new() -> (s: DimensionStore)
        ensures
            s.wf(),
            s@ == Map::<Seq<char>, Seq<Seq<char>>>::empty(),
    {
        let s = DimensionStore { dims: Vec::new() };
        assert(s@ =~= Map::<Seq<char>, Seq<Seq<char>>>::empty());
        s
    }

    /// Position of dimension `dim` in `dims`.
    fn find(&self, dim: &str) -> (r: Option<usize>)
        requires
            self.wf(),
        ensures
            match r {
                Some(i) => i < self.dims@.len() && self.dims@[i as int].name_view() == dim@,
                None => !self@.contains_key(dim@),
            },
    {
        for i in 0..self.dims.len()
            invariant
                forall|k: int| 0 <= k < i ==> (#[trigger] self.dims@[k]).name_view() != dim@,
        {
            if crate::text::same_text(self.dims[i].name.as_str(), dim) {
                return Some(i);
            }
        }
        None
    }

    /// The dimension `dim`, if some key was ever given to it.
    pub fn get(&self, dim: &str) -> (r: Option<&Dimension>)
        requires
            self.wf(),
        ensures
            match r {
                Some(d) => self@.contains_key(dim@) && d@ == self@[dim@] && d.wf(),
                None => !self@.contains_key(dim@),
            },
    {
        match self.find(dim) {
            Some(i) => {
                proof {
                    self.lemma_view_at(i as int);
                }
                Some(&self.dims[i])
            },
            None => None,
        }
    }

    /// The id of `key` in dimension `dim`; a key seen for the first time gets
    /// the next free id (1 for the first key of a dimension).
    pub fn get_or_create(&mut self, dim: &str, key: String) -> (id: usize)
        requires
            old(self).wf(),
            grow(keys_of(old(self)@, dim@), key@).len() < usize::MAX,
        ensures
            final(self).wf(),
            final(self)@ == after_request(old(self)@, dim@, key@),
            id == id_for(old(self)@, dim@, key@),
    {
        let ghost before = self@;
        let ghost before_store = *self;
        let ghost before_dims = self.dims@;
        let i = match self.find(dim) {
            Some(i) => {
                proof {
                    self.lemma_view_at(i as int);
                    assert(self@ =~= before.insert(dim@, keys_of(before, dim@)));
                }
                i
            },
            None => {
                let d = Dimension::empty(dim);
                self.dims.push(d);
                proof {
                    let n = self.dims@.len() - 1;
                    assert forall|a: int, b: int|
                        0 <= a < b < self.dims@.len() implies (#[trigger] self.dims@[a]).name_view()
                        != (#[trigger] self.dims@[b]).name_view() by {
                        if b == n {
                            assert(!before.contains_key(dim@));
                            if self.dims@[a].name_view() == dim@ {
                                assert(before.contains_key(self.dims@[a].name_view()));
                            }
                        }
                    }
                    self.lemma_view_at(n);
                    assert(keys_of(before, dim@) == Seq::<Seq<char>>::empty());
                    assert forall|m: Seq<char>| #[trigger] self@.contains_key(m) <==> before.insert(dim@, keys_of(before, dim@)).contains_key(m) by {
                        if self@.contains_key(m) && m != dim@ {
                            let a = choose|a: int| 0 <= a < self.dims@.len() && (#[trigger] self.dims@[a]).name_view() == m;
                            assert(a != n);
                            assert(before_dims[a].name_view() == m);
                        }
                        if before.contains_key(m) {
                            let a = choose|a: int| 0 <= a < before_dims.len() && (#[trigger] before_dims[a]).name_view() == m;
                            assert(self.dims@[a].name_view() == m);
                        }
                    }
                    assert forall|m: Seq<char>| #[trigger] self@.contains_key(m) implies self@[m] == before.insert(dim@, keys_of(before, dim@))[m] by {
                        let a = choose|a: int| 0 <= a < self.dims@.len() && (#[trigger] self.dims@[a]).name_view() == m;
                        self.lemma_view_at(a);
                        if a != n {
                            assert(self.dims@[a] == before_dims[a]);
                            before_store.lemma_view_at(a);
                        }
                    }
                    assert(self@ =~= before.insert(dim@, keys_of(before, dim@)));
                }
                self.dims.len() - 1
            },
        };
        let ghost old_dims = self.dims@;
        let ghost mid = self@;
        let ghost mid_store = *self;
        assert(mid == before.insert(dim@, keys_of(before, dim@)));
        assert(self.dims@[i as int]@ == keys_of(before, dim@));
        let found = self.dims[i].id_of(key.as_str());
        match found {
            Some(id) => {
                proof {
                    assert(grow(keys_of(before, dim@), key@) == keys_of(before, dim@));
                    assert(mid =~= before.insert(dim@, grow(keys_of(before, dim@), key@)));
                }
                id
            },
            None => {
                let mut d = self.dims.remove(i);
                let id = d.add(key);
                self.dims.insert(i, d);
                proof {
                    assert(self.dims@ == old_dims.update(i as int, self.dims@[i as int]));
                    assert forall|a: int, b: int|
                        0 <= a < b < self.dims@.len() implies (#[trigger] self.dims@[a]).name_view()
                        != (#[trigger] self.dims@[b]).name_view() by {
                        assert(old_dims[a].name_view() != old_dims[b].name_view());
                    }
                    assert forall|a: int| 0 <= a < self.dims@.len() implies (#[trigger] self.dims@[a]).wf() by {
                        if a != i {
                            assert(self.dims@[a] == old_dims[a]);
                        }
                    }
                    let after = grow(keys_of(before, dim@), key@);
                    assert(self.dims@.len() == old_dims.len());
                    assert forall|a: int| 0 <= a < self.dims@.len() implies (#[trigger] self.dims@[a]).name_view()
                        == old_dims[a].name_view() by {
                        if a != i {
                            assert(self.dims@[a] == old_dims[a]);
                        }
                    }
                    assert forall|n: Seq<char>| #[trigger] self@.contains_key(n) <==> before.insert(dim@, after).contains_key(n) by {
                        if self@.contains_key(n) {
                            let a = choose|a: int| 0 <= a < self.dims@.len() && (#[trigger] self.dims@[a]).name_view() == n;
                            assert(old_dims[a].name_view() == n);
                        }
                        if n == dim@ {
                            assert(self.dims@[i as int].name_view() == n);
                        } else if before.contains_key(n) {
                            assert(mid.contains_key(n));
                            assert(mid_store.dims@ == old_dims);
                            assert(mid_store@.contains_key(n));
                            let a = choose|a: int| 0 <= a < mid_store.dims@.len() && (#[trigger] mid_store.dims@[a]).name_view() == n;
                            assert(self.dims@[a].name_view() == n);
                        }
                    }
                    assert forall|n: Seq<char>| #[trigger] self@.contains_key(n) implies self@[n] == before.insert(dim@, after)[n] by {
                        let a = choose|a: int| 0 <= a < self.dims@.len() && (#[trigger] self.dims@[a]).name_view() == n;
                        self.lemma_view_at(a);
                        if a != i {
                            assert(self.dims@[a] == old_dims[a]);
                            mid_store.lemma_view_at(a);
                        }
                    }
                    assert(self@ =~= before.insert(dim@, after));
                    let ks = keys_of(before, dim@);
                    lemma_index_of_unique(after, key@, ks.len() as int);
                }
                id
            },
        }
    }
}

// ---------------------------------------------------------------------------
// Laws
// ---------------------------------------------------------------------------

impl DimensionStore {
    /// In a well-formed store no dimension holds a key twice.
    pub proof fn lemma_keys_distinct(&self, dim: Seq<char>)
        requires
            self.wf(),
            self@.contains_key(dim),
        ensures
            self@[dim].no_duplicates(),
            self@[dim].len() < usize::MAX,
    {
        let i = choose|i: int| 0 <= i < self.dims@.len() && (#[trigger] self.dims@[i]).name_view() == dim;
        self.lemma_view_at(i);
    }

    /// A well-formed store is within the limits of its key counts.
    pub proof fn lemma_view_within_limits(&self)
        requires
            self.wf(),
        ensures
            within_limits(self@),
    {
        assert forall|d: Seq<char>| #[trigger] self@.contains_key(d) implies self@[d].len() < usize::MAX by {
            self.lemma_keys_distinct(d);
        }
    }

    /// A well-formed store holds each key of each dimension once.
    pub proof fn lemma_view_keys_distinct(&self)
        requires
            self.wf(),
        ensures
            keys_distinct(self@),
    {
        assert forall|d: Seq<char>| #[trigger] self@.contains_key(d) implies self@[d].no_duplicates() by {
            self.lemma_keys_distinct(d);
        }
    }
}

/// Asking a dimension twice for the same key gives the same id, and the second
/// request leaves the store as the first one left it.
pub proof fn law_get_or_create_idempotent(
    store: Map<Seq<char>, Seq<Seq<char>>>,
    dim: Seq<char>,
    key: Seq<char>,
)
    ensures
        ({
            let first = store.insert(dim, grow(keys_of(store, dim), key));
            let second = first.insert(dim, grow(keys_of(first, dim), key));
            &&& second == first
            &&& id_in(grow(keys_of(first, dim), key), key) == id_in(grow(keys_of(store, dim), key), key)
        }),
{
    let ks = grow(keys_of(store, dim), key);
    let first = store.insert(dim, ks);
    assert(keys_of(first, dim) == ks);
    if !keys_of(store, dim).contains(key) {
        assert(ks[ks.len() - 1] == key);
    }
    assert(ks.contains(key));
    assert(grow(ks, key) == ks);
    assert(first.insert(dim, ks) =~= first);
}

/// A key seen for the first time gets the id right after the last one given,
/// so the ids of a dimension are 1, 2, ..., n; a key already there keeps its id.
pub proof fn law_next_id(keys: Seq<Seq<char>>, key: Seq<char>)
    requires
        keys.no_duplicates(),
    ensures
        !keys.contains(key) ==> id_in(grow(keys, key), key) == keys.len() + 1,
        keys.contains(key) ==> id_in(grow(keys, key), key) == id_in(keys, key),
        grow(keys, key).no_duplicates(),
{
    if !keys.contains(key) {
        let g = keys.push(key);
        assert forall|i: int, j: int| 0 <= i < j < g.len() implies g[i] != g[j] by {
            if j == keys.len() {
                assert(keys.contains(keys[i]));
            }
        }
        lemma_index_of_unique(g, key, keys.len() as int);
    }
}

/// Distinct keys of a dimension have distinct ids, each between 1 and the
/// number of keys, and the id leads back to its key.
pub proof fn law_ids_identify_keys(keys: Seq<Seq<char>>, a: Seq<char>, b: Seq<char>)
    requires
        keys.no_duplicates(),
        keys.contains(a),
        keys.contains(b),
    ensures
        1 <= id_in(keys, a) <= keys.len(),
        keys[id_in(keys, a) - 1] == a,
        a != b ==> id_in(keys, a) != id_in(keys, b),
{
    let i = keys.index_of(a);
    let j = keys.index_of(b);
    assert(keys[i] == a);
    assert(keys[j] == b);
}

/// The store after a series of requests, each a (dimension, key) pair, in order.
pub open spec fn after_requests(
    store: Map<Seq<char>, Seq<Seq<char>>>,
    reqs: Seq<(Seq<char>, Seq<char>)>,
) -> Map<Seq<char>, Seq<Seq<char>>>
    decreases reqs.len(),
{
    if reqs.len() == 0 {
        store
    } else {
        after_request(after_requests(store, reqs.drop_last()), reqs.last().0, reqs.last().1)
    }
}

/// Starting from the empty store that `new` gives, the dimensions present
/// after a series of requests are exactly the ones asked for, each holds
/// every key once, and the key of the last request sits at the position of
/// the id that request gave.
pub proof fn law_requests_from_empty(reqs: Seq<(Seq<char>, Seq<char>)>)
    ensures
        forall|e: Seq<char>|
            #[trigger] after_requests(Map::empty(), reqs).contains_key(e) <==> exists|i: int|
                0 <= i < reqs.len() && (#[trigger] reqs[i]).0 == e,
        keys_distinct(after_requests(Map::empty(), reqs)),
        reqs.len() > 0 ==> ({
            let before = after_requests(Map::empty(), reqs.drop_last());
            let after = after_requests(Map::empty(), reqs);
            let id = id_for(before, reqs.last().0, reqs.last().1);
            &&& 1 <= id <= after[reqs.last().0].len()
            &&& after[reqs.last().0][id - 1] == reqs.last().1
        }),
    decreases reqs.len(),
{
    if reqs.len() > 0 {
        let init = reqs.drop_last();
        law_requests_from_empty(init);
        let before = after_requests(Map::empty(), init);
        let (d, k) = reqs.last();
        let after = after_requests(Map::empty(), reqs);
        lemma_request_grows(before, d, k);
        assert forall|e: Seq<char>| #[trigger] after.contains_key(e) <==> exists|i: int|
            0 <= i < reqs.len() && (#[trigger] reqs[i]).0 == e by {
            if after.contains_key(e) && e != d {
                assert(before.contains_key(e));
                let i = choose|i: int| 0 <= i < init.len() && (#[trigger] init[i]).0 == e;
                assert(reqs[i] == init[i]);
            }
            if e == d {
                assert(reqs[reqs.len() - 1].0 == e);
            }
            if exists|i: int| 0 <= i < reqs.len() && (#[trigger] reqs[i]).0 == e {
                let i = choose|i: int| 0 <= i < reqs.len() && (#[trigger] reqs[i]).0 == e;
                if i < init.len() {
                    assert(init[i] == reqs[i]);
                    assert(before.contains_key(e));
                }
            }
        }
        let ks = keys_of(before, d);
        law_next_id(ks, k);
        let g = grow(ks, k);
        assert(after[d] == g);
        assert(g.contains(k));
        law_ids_identify_keys(g, k, k);
    }
}

} // verus!
