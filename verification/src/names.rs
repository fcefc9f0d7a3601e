//! Names in their byte order, and a map from names kept in that order.

use vstd::prelude::*;
use vstd::slice::*;
use vstd::string::*;

verus! {

/// Whether `a` comes strictly before `b` in the order of their bytes: the order
/// in which strings compare.
pub open spec fn bytes_before(a: Seq<u8>, b: Seq<u8>) -> bool
    decreases a.len(),
{
    if b.len() == 0 {
        false
    } else if a.len() == 0 {
        true
    } else if a[0] != b[0] {
        a[0] < b[0]
    } else {
        bytes_before(a.drop_first(), b.drop_first())
    }
}

/// Whether the name `a` comes strictly before the name `b`.
pub open spec fn name_before(a: Seq<char>, b: Seq<char>) -> bool {
    bytes_before(vstd::utf8::encode_utf8(a), vstd::utf8::encode_utf8(b))
}

/// Whether each name comes strictly before the next.
pub open spec fn ascending(names: Seq<Seq<char>>) -> bool {
    forall|i: int, j: int| 0 <= i < j < names.len() ==> name_before(names[i], names[j])
}

/// No sequence of bytes comes before itself.
pub proof fn lemma_bytes_irreflexive(a: Seq<u8>)
    ensures
        !bytes_before(a, a),
    decreases a.len(),
{
    if a.len() > 0 {
        lemma_bytes_irreflexive(a.drop_first());
    }
}

/// The order of bytes is transitive.
pub proof fn lemma_bytes_transitive(a: Seq<u8>, b: Seq<u8>, c: Seq<u8>)
    requires
        bytes_before(a, b),
        bytes_before(b, c),
    ensures
        bytes_before(a, c),
    decreases a.len(),
{
    if a.len() > 0 && a[0] == b[0] && b[0] == c[0] {
        lemma_bytes_transitive(a.drop_first(), b.drop_first(), c.drop_first());
    }
}

/// Of two different sequences of bytes exactly one comes first.
pub proof fn lemma_bytes_total(a: Seq<u8>, b: Seq<u8>)
    ensures
        a == b || bytes_before(a, b) || bytes_before(b, a),
        !(bytes_before(a, b) && bytes_before(b, a)),
    decreases a.len(),
{
    if a.len() > 0 && b.len() > 0 && a[0] == b[0] {
        lemma_bytes_total(a.drop_first(), b.drop_first());
        if a.drop_first() == b.drop_first() {
            assert(a =~= seq![a[0]] + a.drop_first());
            assert(b =~= seq![b[0]] + b.drop_first());
        }
    } else if a.len() == 0 && b.len() == 0 {
        assert(a =~= b);
    }
}

/// Names are the same exactly where their bytes are.
pub proof fn lemma_same_bytes_same_name(a: Seq<char>, b: Seq<char>)
    ensures
        (vstd::utf8::encode_utf8(a) == vstd::utf8::encode_utf8(b)) <==> a == b,
{
    vstd::utf8::encode_utf8_decode_utf8(a);
    vstd::utf8::encode_utf8_decode_utf8(b);
}

/// The order of names is strict and total: no name comes before itself, the
/// order is transitive, and of two different names exactly one comes first.
pub proof fn lemma_name_order(a: Seq<char>, b: Seq<char>, c: Seq<char>)
    ensures
        !name_before(a, a),
        name_before(a, b) && name_before(b, c) ==> name_before(a, c),
        a == b || name_before(a, b) || name_before(b, a),
        !(name_before(a, b) && name_before(b, a)),
{
    let ea = vstd::utf8::encode_utf8(a);
    let eb = vstd::utf8::encode_utf8(b);
    let ec = vstd::utf8::encode_utf8(c);
    lemma_bytes_irreflexive(ea);
    if bytes_before(ea, eb) && bytes_before(eb, ec) {
        lemma_bytes_transitive(ea, eb, ec);
    }
    lemma_bytes_total(ea, eb);
    lemma_same_bytes_same_name(a, b);
}

proof fn lemma_skip_common_prefix(a: Seq<u8>, b: Seq<u8>, n: int)
    requires
        0 <= n <= a.len(),
        n <= b.len(),
        forall|k: int| 0 <= k < n ==> a[k] == b[k],
    ensures
        bytes_before(a, b) == bytes_before(a.skip(n), b.skip(n)),
        (a == b) == (a.skip(n) == b.skip(n)),
    decreases n,
{
    if n == 0 {
        assert(a.skip(0) =~= a);
        assert(b.skip(0) =~= b);
    } else {
        lemma_skip_common_prefix(a.drop_first(), b.drop_first(), n - 1);
        assert(a.drop_first().skip(n - 1) =~= a.skip(n));
        assert(b.drop_first().skip(n - 1) =~= b.skip(n));
        if a.drop_first() == b.drop_first() {
            assert(a =~= seq![a[0]] + a.drop_first());
            assert(b =~= seq![b[0]] + b.drop_first());
        }
    }
}

/// How two names stand to each other.
#[derive(Debug, Clone, Copy, PartialEq, Eq, Structural)]
pub enum Order {
    Before,
    Same,
    After,
}

/// How `a` stands to `b` in the order of names.
pub open spec fn order_of(a: Seq<char>, b: Seq<char>) -> Order {
    if a == b {
        Order::Same
    } else if name_before(a, b) {
        Order::Before
    } else {
        Order::After
    }
}

/// Compares two names byte by byte.
pub fn compare_names(a: &str, b: &str) -> (r: Order)
    ensures
        r == order_of(a@, b@),
{
    let x = a.as_bytes();
    let y = b.as_bytes();
    let mut i: usize = 0;
    while i < x.len() && i < y.len() && x[i] == y[i]
        invariant
            i <= x@.len(),
            i <= y@.len(),
            forall|k: int| 0 <= k < i ==> x@[k] == y@[k],
        decreases x@.len() - i,
    {
        i = i + 1;
    }
    proof {
        lemma_skip_common_prefix(x@, y@, i as int);
        lemma_same_bytes_same_name(a@, b@);
        lemma_bytes_total(x@, y@);
        let p = x@.skip(i as int);
        let q = y@.skip(i as int);
        if i == x@.len() && i == y@.len() {
            assert(p =~= q);
        }
        if i < x@.len() && i < y@.len() {
            assert(p[0] == x@[i as int]);
            assert(q[0] == y@[i as int]);
        }
    }
    if i == x.len() {
        if i == y.len() {
            Order::Same
        } else {
            Order::Before
        }
    } else if i == y.len() {
        Order::After
    } else if x[i] < y[i] {
        Order::Before
    } else {
        Order::After
    }
}

/// Whether two names are the same.
pub fn same_name(a: &str, b: &str) -> (r: bool)
    ensures
        r == (a@ == b@),
{
    match compare_names(a, b) {
        Order::Same => true,
        _ => false,
    }
}

/// A map from names to values that keeps its names in ascending order, each
/// name once.
#[derive(Debug)]
pub struct NameMap<T> {
    names: Vec<String>,
    values: Vec<T>,
}

/// The views of a sequence of strings.
pub open spec fn name_views(names: Seq<String>) -> Seq<Seq<char>> {
    names.map_values(|s: String| s@)
}

impl<T> NameMap<T> {
    #[verifier::type_invariant]
    spec fn ordered(self) -> bool {
        &&& self.names@.len() == self.values@.len()
        &&& ascending(name_views(self.names@))
    }

    /// The names of the map, in ascending order.
    pub closed spec fn names(self) -> Seq<Seq<char>> {
        name_views(self.names@)
    }

    /// The values of the map, each at the place of its name.
    pub closed spec fn values(self) -> Seq<T> {
        self.values@
    }

    /// Whether `names` and `values` are those of a map: as many of one as of
    /// the other, and the names ascending.
    pub open spec fn well_formed(self) -> bool {
        &&& self.names().len() == self.values().len()
        &&& ascending(self.names())
    }

    /// The place of `name` among the names.
    pub open spec fn position(self, name: Seq<char>) -> Option<int> {
        if self.names().contains(name) {
            Some(self.names().index_of(name))
        } else {
            None
        }
    }

    /// The value that stands under `name`.
    pub open spec fn lookup(self, name: Seq<char>) -> Option<T> {
        match self.position(name) {
            Some(i) => Some(self.values()[i]),
            None => None,
        }
    }

    /// An empty map.
    pub fn new() -> (r: Self)
        ensures
            r.names() =~= Seq::<Seq<char>>::empty(),
            r.values() =~= Seq::<T>::empty(),
            r.well_formed(),
    {
        NameMap { names: Vec::new(), values: Vec::new() }
    }

    /// A map of the given names, which ascend, and the value of each.
    pub fn from_parts(names: Vec<String>, values: Vec<T>) -> (r: Self)
        requires
            names@.len() == values@.len(),
            ascending(name_views(names@)),
        ensures
            r.names() == name_views(names@),
            r.values() == values@,
            r.well_formed(),
    {
        NameMap { names, values }
    }

    /// Takes the map apart into its names, which ascend, and the value of each.
    pub fn into_parts(self) -> (r: (Vec<String>, Vec<T>))
        ensures
            name_views(r.0@) == self.names(),
            r.1@ == self.values(),
            r.0@.len() == r.1@.len(),
            ascending(name_views(r.0@)),
    {
        proof {
            use_type_invariant(&self);
        }
        (self.names, self.values)
    }

    /// The number of names.
    pub fn len(&self) -> (r: usize)
        ensures
            r == self.names().len(),
            r == self.values().len(),
            self.well_formed(),
    {
        proof {
            use_type_invariant(self);
        }
        self.names.len()
    }

    /// The name at place `i`.
    pub fn name_at(&self, i: usize) -> (r: &str)
        requires
            i < self.names().len(),
        ensures
            r@ == self.names()[i as int],
    {
        self.names[i].as_str()
    }

    /// The value at place `i`.
    pub fn value_at(&self, i: usize) -> (r: &T)
        requires
            i < self.values().len(),
        ensures
            *r == self.values()[i as int],
    {
        &self.values[i]
    }

    /// The first place whose name does not come before `name`, and whether
    /// `name` itself stands there.
    fn search(&self, name: &str) -> (r: (usize, bool))
        ensures
            r.0 <= self.names().len(),
            forall|k: int| 0 <= k < r.0 ==> name_before(#[trigger] self.names()[k], name@),
            r.1 ==> r.0 < self.names().len() && self.names()[r.0 as int] == name@,
            !r.1 ==> forall|k: int|
                r.0 <= k < self.names().len() ==> name_before(name@, #[trigger] self.names()[k]),
            r.1 == self.names().contains(name@),
            r.1 ==> self.names().index_of(name@) == r.0,
    {
        proof {
            use_type_invariant(self);
        }
        let mut i: usize = 0;
        let mut found = false;
        let mut stop = false;
        while i < self.names.len() && !stop
            invariant
                i <= self.names@.len(),
                self.names@.len() == self.values@.len(),
                ascending(name_views(self.names@)),
                found ==> stop,
                found ==> i < self.names@.len() && name_views(self.names@)[i as int] == name@,
                stop && !found ==> i < self.names@.len() && name_before(
                    name@,
                    name_views(self.names@)[i as int],
                ),
                forall|k: int|
                    0 <= k < i ==> name_before(#[trigger] name_views(self.names@)[k], name@),
            decreases self.names@.len() - i + (if stop { 0int } else { 1int }),
        {
            match compare_names(self.names[i].as_str(), name) {
                Order::Before => {
                    i = i + 1;
                },
                Order::Same => {
                    found = true;
                    stop = true;
                },
                Order::After => {
                    proof {
                        lemma_name_order(self.names()[i as int], name@, name@);
                    }
                    stop = true;
                },
            }
        }
        proof {
            let names = self.names();
            assert forall|k: int| 0 <= k < i implies names[k] != name@ by {
                lemma_name_order(names[k], name@, name@);
            }
            if found {
                assert(names[i as int] == name@);
                assert forall|k: int| i < k < names.len() implies names[k] != name@ by {
                    lemma_name_order(names[i as int], names[k], names[k]);
                }
                assert(names.contains(name@));
                let j = names.index_of(name@);
                assert(names[j] == name@);
                assert(j == i);
            } else {
                assert forall|k: int| i <= k < names.len() implies name_before(
                    name@,
                    #[trigger] names[k],
                ) by {
                    if i < names.len() {
                        assert(name_before(name@, names[i as int]));
                        if k > i {
                            lemma_name_order(name@, names[i as int], names[k]);
                        }
                    }
                }
                assert forall|k: int| 0 <= k < names.len() implies names[k] != name@ by {
                    lemma_name_order(names[k], name@, name@);
                }
                assert(!names.contains(name@));
            }
        }
        (i, found)
    }

    /// The place of `name`, where the map holds it.
    pub fn find(&self, name: &str) -> (r: Option<usize>)
        ensures
            match self.position(name@) {
                Some(i) => r == Some(i as usize) && 0 <= i < self.names().len(),
                None => r is None,
            },
    {
        let (i, found) = self.search(name);
        if found {
            Some(i)
        } else {
            None
        }
    }

    /// The value under `name`, where the map holds the name.
    pub fn get(&self, name: &str) -> (r: Option<&T>)
        ensures
            match self.lookup(name@) {
                Some(v) => r == Some(&v),
                None => r is None,
            },
    {
        proof {
            use_type_invariant(self);
        }
        let (i, found) = self.search(name);
        if found {
            Some(&self.values[i])
        } else {
            None
        }
    }

    /// Puts `value` under `name`. A name that the map holds keeps its place and
    /// loses its old value; a new name is put where the order wants it. All other
    /// names keep their values.
    pub fn insert(&mut self, name: String, value: T)
        ensures
            final(self).lookup(name@) == Some(value),
            forall|other: Seq<char>|
                other != name@ ==> #[trigger] final(self).lookup(other) == old(self).lookup(other),
            old(self).names().contains(name@) ==> final(self).names() == old(self).names(),
            !old(self).names().contains(name@) ==> final(self).names().len() == old(
                self,
            ).names().len() + 1,
            final(self).names().to_set() == old(self).names().to_set().insert(name@),
            final(self).well_formed(),
    {
        proof {
            use_type_invariant(&*self);
        }
        let (i, found) = self.search(name.as_str());
        let ghost old_names = self.names();
        let ghost old_values = self.values();
        let mut taken: NameMap<T> = NameMap::new();
        core::mem::swap(self, &mut taken);
        let NameMap { names: mut names, values: mut values } = taken;
        if found {
            values.set(i, value);
            *self = NameMap { names, values };
            proof {
                let new_values = self.values@;
                assert forall|other: Seq<char>| other != name@ implies #[trigger] self.lookup(other)
                    == old(self).lookup(other) by {
                    if old_names.contains(other) {
                        let j = old_names.index_of(other);
                        assert(old_names[j] == other);
                        assert(j != i);
                    }
                }
                assert(old_names.to_set().insert(name@) =~= old_names.to_set());
            }
        } else {
            names.insert(i, name);
            values.insert(i, value);
            proof {
                let new_names = name_views(names@);
                assert(new_names =~= old_names.insert(i as int, name@));
                assert(values@ =~= old_values.insert(i as int, value));
                assert forall|a: int, b: int| 0 <= a < b < new_names.len() implies name_before(
                    new_names[a],
                    new_names[b],
                ) by {
                    if a == i {
                        assert(new_names[b] == old_names[b - 1]);
                    } else if b == i {
                        assert(new_names[a] == old_names[a]);
                    } else {
                        let a0 = if a < i {
                            a
                        } else {
                            a - 1
                        };
                        let b0 = if b < i {
                            b
                        } else {
                            b - 1
                        };
                        assert(new_names[a] == old_names[a0]);
                        assert(new_names[b] == old_names[b0]);
                        assert(name_before(old_names[a0], old_names[b0]));
                    }
                }
            }
            *self = NameMap { names, values };
            proof {
                let new_names = self.names();
                assert(new_names =~= old_names.insert(i as int, name@));
                assert(self.values@ =~= old_values.insert(i as int, value));
                lemma_ascending_distinct(new_names);
                assert(new_names[i as int] == name@);
                assert(new_names.contains(name@));
                assert(new_names.index_of(name@) == i);
                assert forall|other: Seq<char>| other != name@ implies #[trigger] self.lookup(other)
                    == old(self).lookup(other) by {
                    if old_names.contains(other) {
                        let j = old_names.index_of(other);
                        assert(old_names[j] == other);
                        let j1 = if j < i {
                            j
                        } else {
                            j + 1
                        };
                        assert(new_names[j1] == other);
                        assert(new_names.contains(other));
                        assert(new_names.index_of(other) == j1);
                    } else {
                        if new_names.contains(other) {
                            let j = new_names.index_of(other);
                            assert(new_names[j] == other);
                            assert(j != i);
                            let j0 = if j < i {
                                j
                            } else {
                                j - 1
                            };
                            assert(old_names[j0] == other);
                            assert(false);
                        }
                    }
                }
                assert(new_names.to_set() =~= old_names.to_set().insert(name@)) by {
                    assert forall|n: Seq<char>| new_names.to_set().contains(n) implies old_names.to_set().insert(
                        name@,
                    ).contains(n) by {
                        let j = new_names.index_of(n);
                        assert(new_names[j] == n);
                        if j != i {
                            let j0 = if j < i {
                                j
                            } else {
                                j - 1
                            };
                            assert(old_names[j0] == n);
                        }
                    }
                    assert forall|n: Seq<char>| old_names.to_set().insert(name@).contains(
                        n,
                    ) implies new_names.to_set().contains(n) by {
                        if n != name@ {
                            let j = old_names.index_of(n);
                            assert(old_names[j] == n);
                            let j1 = if j < i {
                                j
                            } else {
                                j + 1
                            };
                            assert(new_names[j1] == n);
                        }
                    }
                }
            }
        }
    }
}

/// In an ascending sequence a name stands at one place only.
pub proof fn lemma_ascending_distinct(names: Seq<Seq<char>>)
    requires
        ascending(names),
    ensures
        forall|i: int, j: int|
            0 <= i < names.len() && 0 <= j < names.len() && names[i] == names[j] ==> i == j,
        forall|i: int| 0 <= i < names.len() ==> names.index_of(#[trigger] names[i]) == i,
{
    assert forall|i: int, j: int|
        0 <= i < names.len() && 0 <= j < names.len() && names[i] == names[j] implies i == j by {
        lemma_name_order(names[i], names[j], names[j]);
        if i < j {
            assert(name_before(names[i], names[j]));
        } else if j < i {
            assert(name_before(names[j], names[i]));
        }
    }
    assert forall|i: int| 0 <= i < names.len() implies names.index_of(#[trigger] names[i])
        == i by {
        let k = names.index_of(names[i]);
        assert(names.contains(names[i]));
        assert(names[k] == names[i]);
    }
}

} // verus!
