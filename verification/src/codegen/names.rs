//! Sets of names, and maps ordered by name.
use vstd::prelude::*;
use vstd::string::*;
use crate::codegen::text;

verus! {

/// A set of names, each held once.
#[derive(Debug, Default)]
pub struct NameSet {
    names: Vec<String>,
}

impl View for NameSet {
    type V = Set<Seq<char>>;

    open spec fn view(&self) -> Set<Seq<char>> {
        Set::new(|name: Seq<char>| self.has(name))
    }
}

impl NameSet {
    /// The names held, in the order in which they came.
    pub closed spec fn list(&self) -> Seq<String> {
        self.names@
    }

    /// A name is in the set.
    pub open spec fn has(&self, name: Seq<char>) -> bool {
        text::texts(self.list()).contains(name)
    }

    /// No name is held twice.
    pub open spec fn wf(&self) -> bool {
        text::texts(self.list()).no_duplicates()
    }

    /// The empty set.
    pub fn new() -> (set: Self)
        ensures
            set.wf(),
            set.list() == Seq::<String>::empty(),
    {
        NameSet { names: Vec::new() }
    }

    /// Whether a name is in the set.
    pub fn contains(&self, name: &str) -> (r: bool)
        ensures
            r == self.has(name@),
    {
        let wanted: String = name.to_owned();
        let mut i: usize = 0;
        while i < self.names.len()
            invariant
                i <= self.names@.len(),
                wanted@ == name@,
                forall|j: int| 0 <= j < i ==> #[trigger] text::texts(self.list())[j] != name@,
            decreases self.names@.len() - i,
        {
            assert(text::texts(self.list())[i as int] == self.names@[i as int]@);
            if self.names[i] == wanted {
                return true;
            }
            i = i + 1;
        }
        false
    }

    /// Add a name, unless it is in the set already, and say whether it was
    /// added.
    pub fn insert(&mut self, name: String) -> (added: bool)
        requires
            old(self).wf(),
        ensures
            final(self).wf(),
            added == !old(self).has(name@),
            text::texts(final(self).list()) == if old(self).has(name@) {
                text::texts(old(self).list())
            } else {
                text::texts(old(self).list()).push(name@)
            },
            forall|n: Seq<char>| #[trigger]
                final(self).has(n) <==> old(self).has(n) || n == name@,
    {
        let ghost before = text::texts(self.list());
        if self.contains(name.as_str()) {
            return false;
        }
        let ghost added = name@;
        self.names.push(name);
        proof {
            let after = text::texts(self.list());
            assert(after =~= before.push(added));
            assert forall|n: Seq<char>| after.contains(n) <==> before.contains(n) || n == added by {
                if before.contains(n) {
                    let i = choose|i: int| 0 <= i < before.len() && before[i] == n;
                    assert(after[i] == n);
                }
                if n == added {
                    assert(after[before.len() as int] == n);
                }
            }
        }
        true
    }

    /// The number of names.
    pub fn len(&self) -> (n: usize)
        ensures
            n == self.list().len(),
    {
        self.names.len()
    }
}

/// A map from names to values, in the order of the names.
#[derive(Debug)]
pub struct NameMap<V> {
    keys: Vec<String>,
    values: Vec<V>,
}

/// Names in strictly ascending order.
pub open spec fn ascending(keys: Seq<Seq<char>>) -> bool {
    forall|i: int, j: int|
        0 <= i < j < keys.len() ==> text::precedes(#[trigger] keys[i], #[trigger] keys[j])
}

impl<V> NameMap<V> {
    /// The names, in order.
    pub closed spec fn keys(&self) -> Seq<Seq<char>> {
        text::texts(self.keys@)
    }

    /// The values, in the order of their names.
    pub closed spec fn values(&self) -> Seq<V> {
        self.values@
    }

    /// Every name has a value, and the names ascend.
    pub open spec fn wf(&self) -> bool {
        &&& self.keys().len() == self.values().len()
        &&& ascending(self.keys())
    }

    /// A name is in the map.
    pub open spec fn has(&self, key: Seq<char>) -> bool {
        self.keys().contains(key)
    }

    /// The value of a name.
    pub open spec fn at(&self, key: Seq<char>) -> V {
        self.values()[self.keys().index_of(key)]
    }

    /// The empty map.
    pub fn new() -> (map: Self)
        ensures
            map.wf(),
            map.keys() == Seq::<Seq<char>>::empty(),
            map.values() == Seq::<V>::empty(),
    {
        let map = NameMap { keys: Vec::new(), values: Vec::new() };
        assert(map.keys() =~= Seq::<Seq<char>>::empty());
        map
    }

    /// The number of names.
    pub fn len(&self) -> (n: usize)
        requires
            self.wf(),
        ensures
            n == self.keys().len(),
    {
        self.keys.len()
    }

    /// The name at a place in the order.
    pub fn key(&self, i: usize) -> (key: &str)
        requires
            i < self.keys().len(),
        ensures
            key@ == self.keys()[i as int],
    {
        self.keys[i].as_str()
    }

    /// The value at a place in the order.
    pub fn value(&self, i: usize) -> (value: &V)
        requires
            self.wf(),
            i < self.keys().len(),
        ensures
            *value == self.values()[i as int],
    {
        &self.values[i]
    }

    /// The place of a name: where it is, or where it belongs.
    pub fn place(&self, key: &str) -> (place: (bool, usize))
        requires
            self.wf(),
        ensures
            place.1 <= self.keys().len(),
            place.0 ==> place.1 < self.keys().len() && self.keys()[place.1 as int] == key@,
            place.0 == self.has(key@),
            forall|j: int| 0 <= j < place.1 ==> text::precedes(#[trigger] self.keys()[j], key@),
            !place.0 ==> forall|j: int|
                place.1 <= j < self.keys().len() ==> text::precedes(
                    key@,
                    #[trigger] self.keys()[j],
                ),
    {
        let mut i: usize = 0;
        while i < self.keys.len() && text::less(self.keys[i].as_str(), key)
            invariant
                i <= self.keys().len(),
                self.keys().len() == self.keys@.len(),
                forall|j: int| 0 <= j < i ==> text::precedes(#[trigger] self.keys()[j], key@),
            decreases self.keys@.len() - i,
        {
            assert(self.keys()[i as int] == self.keys@[i as int]@);
            i = i + 1;
        }
        let found: bool = i < self.keys.len() && text::same(self.keys[i].as_str(), key);
        proof {
            if i < self.keys().len() {
                assert(self.keys()[i as int] == self.keys@[i as int]@);
                text::law_precedes_is_total(self.keys()[i as int], key@);
            }
            if !found {
                assert forall|j: int| i <= j < self.keys().len() implies text::precedes(
                    key@,
                    #[trigger] self.keys()[j],
                ) by {
                    if j > i {
                        text::law_precedes_is_transitive(
                            key@,
                            self.keys()[i as int],
                            self.keys()[j],
                        );
                    }
                }
                if self.has(key@) {
                    let j = choose|j: int| 0 <= j < self.keys().len() && self.keys()[j] == key@;
                    text::law_precedes_is_total(key@, key@);
                }
            }
        }
        (found, i)
    }

    /// Give a name a value, unless it has one already.
    pub fn insert_if_absent(&mut self, key: &str, value: V)
        requires
            old(self).wf(),
        ensures
            final(self).wf(),
            old(self).has(key@) ==> final(self).keys() == old(self).keys() && final(self).values()
                == old(self).values(),
            !old(self).has(key@) ==> exists|p: int|
                #![trigger old(self).keys().insert(p, key@)]
                {
                    &&& 0 <= p <= old(self).keys().len()
                    &&& final(self).keys() == old(self).keys().insert(p, key@)
                    &&& final(self).values() == old(self).values().insert(p, value)
                },
            forall|k: Seq<char>| #[trigger]
                final(self).has(k) <==> old(self).has(k) || k == key@,
            forall|k: Seq<char>| old(self).has(k) ==> #[trigger] final(self).at(k) == old(self).at(
                k,
            ),
            !old(self).has(key@) ==> final(self).at(key@) == value,
    {
        let ghost keys = self.keys();
        let ghost values = self.values();
        let (found, p) = self.place(key);
        if found {
            return;
        }
        self.keys.insert(p, key.to_owned());
        self.values.insert(p, value);
        proof {
            let after = self.keys();
            assert(after =~= keys.insert(p as int, key@));
            assert forall|i: int, j: int| 0 <= i < j < after.len() implies text::precedes(
                #[trigger] after[i],
                #[trigger] after[j],
            ) by {
                let (a, b) = (
                    if i < p {
                        i
                    } else {
                        i - 1
                    },
                    if j < p {
                        j
                    } else {
                        j - 1
                    },
                );
                if i != p {
                    assert(after[i] == keys[a]);
                }
                if j != p {
                    assert(after[j] == keys[b]);
                }
            }
            assert forall|k: Seq<char>| after.contains(k) <==> keys.contains(k) || k == key@ by {
                if keys.contains(k) {
                    let i = choose|i: int| 0 <= i < keys.len() && keys[i] == k;
                    assert(after[if i < p {
                        i
                    } else {
                        i + 1
                    }] == k);
                }
                if k == key@ {
                    assert(after[p as int] == k);
                }
                if after.contains(k) && k != key@ {
                    let i = choose|i: int| 0 <= i < after.len() && after[i] == k;
                    assert(keys[if i < p {
                        i
                    } else {
                        i - 1
                    }] == k);
                }
            }
            assert forall|k: Seq<char>| keys.contains(k) implies #[trigger] self.values()[after.index_of(
                k,
            )] == values[keys.index_of(k)] by {
                lemma_index_unique(keys, keys.index_of(k), k);
                let i = keys.index_of(k);
                let i2 = if i < p {
                    i
                } else {
                    i + 1
                };
                assert(after[i2] == k);
                lemma_index_unique(after, i2, k);
            }
            assert(after[p as int] == key@);
            lemma_index_unique(after, p as int, key@);
        }
    }
}

/// In ascending names, a name stands in one place.
pub proof fn lemma_index_unique(keys: Seq<Seq<char>>, i: int, key: Seq<char>)
    requires
        ascending(keys),
        keys.contains(key),
        0 <= i < keys.len(),
    ensures
        0 <= keys.index_of(key) < keys.len(),
        keys[keys.index_of(key)] == key,
        keys[i] == key ==> keys.index_of(key) == i,
{
    let j = keys.index_of(key);
    assert(0 <= j < keys.len() && keys[j] == key) by {
        let w = choose|w: int| 0 <= w < keys.len() && keys[w] == key;
        assert(keys[w] == key);
    }
    if keys[i] == key && i != j {
        text::law_precedes_is_total(key, key);
    }
}

/// Names in ascending order are determined by what they are.
pub proof fn lemma_ascending_unique(a: Seq<Seq<char>>, b: Seq<Seq<char>>)
    requires
        ascending(a),
        ascending(b),
        forall|name: Seq<char>| #[trigger] a.contains(name) <==> b.contains(name),
    ensures
        a == b,
    decreases a.len(),
{
    if a.len() == 0 {
        if b.len() > 0 {
            assert(b.contains(b[0]));
            assert(a.contains(b[0]));
        }
        assert(a =~= b);
    } else {
        assert(a.contains(a[0]));
        assert(b.contains(a[0]));
        let j = choose|j: int| 0 <= j < b.len() && b[j] == a[0];
        assert(b.contains(b[0]));
        assert(a.contains(b[0]));
        let i = choose|i: int| 0 <= i < a.len() && a[i] == b[0];
        if j > 0 && i > 0 {
            text::law_precedes_is_total(a[0], b[0]);
        }
        assert(a[0] == b[0]);
        let (x, y) = (a.skip(1), b.skip(1));
        assert forall|name: Seq<char>| #[trigger] x.contains(name) <==> y.contains(name) by {
            if x.contains(name) {
                let k = choose|k: int| 0 <= k < x.len() && x[k] == name;
                assert(a[k + 1] == name);
                assert(a.contains(name));
                text::law_precedes_is_total(a[0], name);
                let m = choose|m: int| 0 <= m < b.len() && b[m] == name;
                assert(y[m - 1] == name);
            }
            if y.contains(name) {
                let k = choose|k: int| 0 <= k < y.len() && y[k] == name;
                assert(b[k + 1] == name);
                assert(b.contains(name));
                assert(a.contains(name));
                text::law_precedes_is_total(b[0], name);
                let m = choose|m: int| 0 <= m < a.len() && a[m] == name;
                assert(x[m - 1] == name);
            }
        }
        assert forall|i: int, j: int| 0 <= i < j < x.len() implies text::precedes(
            #[trigger] x[i],
            #[trigger] x[j],
        ) by {
            assert(x[i] == a[i + 1] && x[j] == a[j + 1]);
        }
        assert forall|i: int, j: int| 0 <= i < j < y.len() implies text::precedes(
            #[trigger] y[i],
            #[trigger] y[j],
        ) by {
            assert(y[i] == b[i + 1] && y[j] == b[j + 1]);
        }
        lemma_ascending_unique(x, y);
        assert(a =~= seq![a[0]] + x);
        assert(b =~= seq![b[0]] + y);
    }
}

/// Ascending names with one more name among them.
pub proof fn lemma_ascending_with(keys: Seq<Seq<char>>, name: Seq<char>) -> (more: Seq<Seq<char>>)
    requires
        ascending(keys),
    ensures
        ascending(more),
        forall|n: Seq<char>| #[trigger] more.contains(n) <==> keys.contains(n) || n == name,
    decreases keys.len(),
{
    if keys.contains(name) {
        keys
    } else if keys.len() == 0 || text::precedes(keys.last(), name) {
        let more = keys.push(name);
        assert forall|i: int, j: int| 0 <= i < j < more.len() implies text::precedes(
            #[trigger] more[i],
            #[trigger] more[j],
        ) by {
            assert(more[i] == keys[i]);
            if j < keys.len() {
                assert(more[j] == keys[j]);
            } else if i < keys.len() - 1 {
                text::law_precedes_is_transitive(keys[i], keys.last(), name);
            }
        }
        lemma_contains_push(keys, name);
        more
    } else {
        let init = keys.drop_last();
        let last = keys.last();
        assert(keys.contains(last));
        text::law_precedes_is_total(last, name);
        assert forall|i: int, j: int| 0 <= i < j < init.len() implies text::precedes(
            #[trigger] init[i],
            #[trigger] init[j],
        ) by {
            assert(init[i] == keys[i] && init[j] == keys[j]);
        }
        let rest = lemma_ascending_with(init, name);
        let more = rest.push(last);
        lemma_contains_push(rest, last);
        lemma_contains_push(init, last);
        assert(init.push(last) =~= keys);
        assert forall|i: int, j: int| 0 <= i < j < more.len() implies text::precedes(
            #[trigger] more[i],
            #[trigger] more[j],
        ) by {
            assert(more[i] == rest[i]);
            if j < rest.len() {
                assert(more[j] == rest[j]);
            } else {
                assert(rest.contains(rest[i]));
                if init.contains(rest[i]) {
                    let k = choose|k: int| 0 <= k < init.len() && init[k] == rest[i];
                    assert(keys[k] == rest[i]);
                }
            }
        }
        more
    }
}

/// What a list holds once something is added.
proof fn lemma_contains_push(list: Seq<Seq<char>>, name: Seq<char>)
    ensures
        forall|n: Seq<char>| #[trigger]
            list.push(name).contains(n) <==> list.contains(n) || n == name,
{
    assert forall|n: Seq<char>| #[trigger] list.push(name).contains(n) <==> list.contains(n) || n
        == name by {
        if list.contains(n) {
            let i = choose|i: int| 0 <= i < list.len() && list[i] == n;
            assert(list.push(name)[i] == n);
        }
        assert(list.push(name)[list.len() as int] == name);
    }
}

} // verus!
