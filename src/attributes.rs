//! Attribute sets: each name is written at most once.
use vstd::prelude::*;
use crate::value::Value;
use vstd::utf8::encode_utf8;

verus! {

/// Whether the byte string `a` comes strictly before `b` in lexicographic order.
pub open spec fn bytes_lt(a: Seq<u8>, b: Seq<u8>) -> bool
    decreases a.len(),
{
    if a.len() == 0 {
        b.len() > 0
    } else if b.len() == 0 {
        false
    } else if a[0] != b[0] {
        a[0] < b[0]
    } else {
        bytes_lt(a.drop_first(), b.drop_first())
    }
}

/// The byte order is irreflexive and transitive.
pub proof fn lemma_bytes_lt_order(a: Seq<u8>, b: Seq<u8>, c: Seq<u8>)
    ensures
        !bytes_lt(a, a),
        bytes_lt(a, b) && bytes_lt(b, c) ==> bytes_lt(a, c),
    decreases a.len(),
{
    if a.len() > 0 {
        if b.len() > 0 && c.len() > 0 {
            lemma_bytes_lt_order(a.drop_first(), b.drop_first(), c.drop_first());
        } else {
            lemma_bytes_lt_order(a.drop_first(), a.drop_first(), a.drop_first());
        }
    }
}

/// Of two different byte strings, one comes before the other.
pub proof fn lemma_bytes_lt_total(a: Seq<u8>, b: Seq<u8>)
    ensures
        a != b ==> bytes_lt(a, b) || bytes_lt(b, a),
    decreases a.len(),
{
    if a.len() > 0 && b.len() > 0 && a[0] == b[0] {
        lemma_bytes_lt_total(a.drop_first(), b.drop_first());
        if a.drop_first() == b.drop_first() {
            assert(a =~= seq![a[0]] + a.drop_first());
            assert(b =~= seq![b[0]] + b.drop_first());
        }
    }
    if a.len() == 0 && b.len() == 0 {
        assert(a =~= b);
    }
}

/// The order in which attribute names are listed: that of `String`, byte by byte.
pub open spec fn name_lt(a: Seq<char>, b: Seq<char>) -> bool {
    bytes_lt(encode_utf8(a), encode_utf8(b))
}

/// Whether `a` and `b` hold the same characters.
pub fn str_eq(a: &str, b: &str) -> (r: bool)
    ensures
        r == (a@ == b@),
{
    let x = a.as_bytes();
    let y = b.as_bytes();
    proof {
        vstd::utf8::encode_utf8_decode_utf8(a@);
        vstd::utf8::encode_utf8_decode_utf8(b@);
    }
    if x.len() != y.len() {
        return false;
    }
    let mut i: usize = 0;
    while i < x.len()
        invariant
            x@ == encode_utf8(a@),
            y@ == encode_utf8(b@),
            x@.len() == y@.len(),
            i <= x@.len(),
            forall|j: int| 0 <= j < i ==> x@[j] == y@[j],
        decreases x@.len() - i,
    {
        if x[i] != y[i] {
            return false;
        }
        i = i + 1;
    }
    assert(x@ =~= y@);
    true
}

/// Whether `a` comes strictly before `b`, compared byte by byte.
pub fn str_lt(a: &str, b: &str) -> (r: bool)
    ensures
        r == name_lt(a@, b@),
{
    let x = a.as_bytes();
    let y = b.as_bytes();
    let ghost xs = x@;
    let ghost ys = y@;
    let mut i: usize = 0;
    assert(xs.skip(0) =~= xs);
    assert(ys.skip(0) =~= ys);
    while i < x.len() && i < y.len()
        invariant
            x@ == xs,
            y@ == ys,
            xs == encode_utf8(a@),
            ys == encode_utf8(b@),
            i <= xs.len(),
            i <= ys.len(),
            bytes_lt(xs, ys) == bytes_lt(xs.skip(i as int), ys.skip(i as int)),
        decreases xs.len() - i,
    {
        if x[i] != y[i] {
            return x[i] < y[i];
        }
        proof {
            assert(xs.skip(i as int).drop_first() =~= xs.skip(i + 1));
            assert(ys.skip(i as int).drop_first() =~= ys.skip(i + 1));
        }
        i = i + 1;
    }
    i == x.len() && i < y.len()
}

/// A set of attributes of a graph node or an edge: a name bound to a value, each name at most
/// once, kept in the order of insertion.
pub struct Attributes {
    values: Vec<(String, Value)>,
}

/// Whether some entry of `s` has the name `k`.
pub open spec fn names_contain(s: Seq<(String, Value)>, k: Seq<char>) -> bool {
    exists|i: int| 0 <= i < s.len() && s[i].0@ == k
}

/// The attributes that the entries `s` hold, as a map from name to value.
pub open spec fn entries_map(s: Seq<(String, Value)>) -> Map<Seq<char>, Value> {
    Map::new(
        |k: Seq<char>| names_contain(s, k),
        |k: Seq<char>| s[choose|i: int| 0 <= i < s.len() && s[i].0@ == k].1,
    )
}

/// Whether no two entries of `s` share a name.
pub open spec fn names_unique(s: Seq<(String, Value)>) -> bool {
    forall|i: int, j: int| 0 <= i < s.len() && 0 <= j < s.len() && i != j ==> s[i].0@ != s[j].0@
}

/// What adding `name = value` does to a set of attributes: a name already present is a
/// conflict that changes nothing; otherwise the attribute is added.
pub open spec fn attribute_added(before: Attributes, after: Attributes, name: Seq<char>, value: Value, r: Result<(), ()>) -> bool {
    &&& before@.contains_key(name) ==> r is Err && after@ == before@
    &&& !before@.contains_key(name) ==> r is Ok && after@ == before@.insert(name, value)
}

/// Writing a name twice: the first write succeeds, the second reports a conflict, and the
/// first value stays.
pub proof fn lemma_add_twice(
    a0: Attributes,
    a1: Attributes,
    a2: Attributes,
    name: Seq<char>,
    v1: Value,
    v2: Value,
    r1: Result<(), ()>,
    r2: Result<(), ()>,
)
    requires
        !a0@.contains_key(name),
        attribute_added(a0, a1, name, v1, r1),
        attribute_added(a1, a2, name, v2, r2),
    ensures
        r1 is Ok,
        r2 is Err,
        a2@ == a1@,
        a2@[name] == v1,
{
}

impl View for Attributes {
    type V = Map<Seq<char>, Value>;

    open spec fn view(&self) -> Map<Seq<char>, Value> {
        entries_map(self.entries())
    }
}

impl Attributes {
    /// The entries, in the order of insertion.
    pub closed spec fn entries(&self) -> Seq<(String, Value)> {
        self.values@
    }

    /// Whether no name occurs twice.
    pub open spec fn wf(&self) -> bool {
        names_unique(self.entries())
    }

    /// Creates a new, empty set of attributes.
    pub fn new() -> (r: Attributes)
        ensures
            r.wf(),
            r@ == Map::<Seq<char>, Value>::empty(),
            r.entries().len() == 0,
    {
        let r = Attributes { values: Vec::new() };
        assert(r@ =~= Map::<Seq<char>, Value>::empty());
        r
    }

    /// The number of attributes.
    pub fn len(&self) -> (r: usize)
        ensures
            r == self.entries().len(),
    {
        self.values.len()
    }

    /// The position of the entry named `name`, if there is one.
    fn position(&self, name: &str) -> (r: Option<usize>)
        ensures
            r matches Some(i) ==> i < self.entries().len() && self.entries()[i as int].0@ == name@,
            r is None ==> !names_contain(self.entries(), name@),
    {
        let mut i: usize = 0;
        while i < self.values.len()
            invariant
                i <= self.values@.len(),
                forall|j: int| 0 <= j < i ==> self.values@[j].0@ != name@,
            decreases self.values@.len() - i,
        {
            if str_eq(self.values[i].0.as_str(), name) {
                return Some(i);
            }
            i = i + 1;
        }
        None
    }

    /// Adds an attribute.  When the name is already present the set is left as it was, and
    /// the conflict is reported as `Err`.
    pub fn add(&mut self, name: String, value: Value) -> (r: Result<(), ()>)
        requires
            old(self).wf(),
        ensures
            final(self).wf(),
            attribute_added(*old(self), *final(self), name@, value, r),
            old(self)@.contains_key(name@) ==> final(self).entries() == old(self).entries(),
            !old(self)@.contains_key(name@) ==> final(self).entries() == old(self).entries().push((name, value)),
    {
        match self.position(name.as_str()) {
            Some(_) => Err(()),
            None => {
                let ghost s0 = self.values@;
                let ghost n = name@;
                let ghost v = value;
                self.values.push((name, value));
                proof {
                    let s1 = self.values@;
                    assert(s1 == s0.push((name, v)));
                    assert forall|k: Seq<char>| names_contain(s1, k) == (names_contain(s0, k) || k == n) by {
                        if names_contain(s0, k) {
                            let i = choose|i: int| 0 <= i < s0.len() && s0[i].0@ == k;
                            assert(s1[i].0@ == k);
                        }
                        if k == n {
                            assert(s1[s0.len() as int].0@ == k);
                        }
                    }
                    assert forall|k: Seq<char>| #[trigger] names_contain(s1, k) implies entries_map(s1)[k]
                        == entries_map(s0).insert(n, v)[k] by {
                        let i1 = choose|i: int| 0 <= i < s1.len() && s1[i].0@ == k;
                        if k == n {
                            assert(i1 == s0.len());
                        } else {
                            let i0 = choose|i: int| 0 <= i < s0.len() && s0[i].0@ == k;
                            assert(s1[i0].0@ == k);
                            assert(i1 == i0);
                        }
                    }
                    assert(entries_map(s1) =~= entries_map(s0).insert(n, v));
                }
                Ok(())
            },
        }
    }

    /// The value of the attribute named `name`, if there is one.
    pub fn get(&self, name: &str) -> (r: Option<&Value>)
        requires
            self.wf(),
        ensures
            self@.contains_key(name@) ==> (r matches Some(v) && *v == self@[name@]),
            !self@.contains_key(name@) ==> r is None,
    {
        match self.position(name) {
            Some(i) => {
                proof {
                    let s = self.values@;
                    let j = choose|j: int| 0 <= j < s.len() && s[j].0@ == name@;
                    assert(j == i);
                }
                Some(&self.values[i].1)
            },
            None => None,
        }
    }

    /// The entries, in the order of insertion.
    pub fn iter(&self) -> (r: &Vec<(String, Value)>)
        ensures
            r@ == self.entries(),
    {
        &self.values
    }
}

/// Different names have different encodings, so one of two different names comes first.
pub proof fn lemma_name_lt_total(a: Seq<char>, b: Seq<char>)
    ensures
        a != b ==> name_lt(a, b) || name_lt(b, a),
        !name_lt(a, a),
{
    vstd::utf8::encode_utf8_decode_utf8(a);
    vstd::utf8::encode_utf8_decode_utf8(b);
    lemma_bytes_lt_total(encode_utf8(a), encode_utf8(b));
    lemma_bytes_lt_order(encode_utf8(a), encode_utf8(a), encode_utf8(a));
}

/// The name order is transitive.
pub proof fn lemma_name_lt_transitive(a: Seq<char>, b: Seq<char>, c: Seq<char>)
    requires
        name_lt(a, b),
        name_lt(b, c),
    ensures
        name_lt(a, c),
{
    lemma_bytes_lt_order(encode_utf8(a), encode_utf8(b), encode_utf8(c));
}

impl Attributes {
    /// The name of the entry at position `i`.
    pub open spec fn name_at(&self, i: int) -> Seq<char> {
        self.entries()[i].0@
    }

    /// The positions of the entries, ordered by name.
    pub fn sorted_positions(&self) -> (r: Vec<usize>)
        requires
            self.wf(),
        ensures
            r@.len() == self.entries().len(),
            forall|i: int| 0 <= i < r@.len() ==> r@[i] < self.entries().len(),
            forall|i: int, j: int| 0 <= i < j < r@.len() ==> name_lt(
                #[trigger] self.name_at(r@[i] as int), #[trigger] self.name_at(r@[j] as int)),
    {
        let n = self.values.len();
        let mut r: Vec<usize> = Vec::new();
        let mut k: usize = 0;
        while k < n
            invariant
                n == self.entries().len(),
                self.wf(),
                k <= n,
                r@.len() == k,
                forall|i: int| 0 <= i < r@.len() ==> r@[i] < k,
                forall|i: int, j: int| 0 <= i < j < r@.len() ==> name_lt(
                    #[trigger] self.name_at(r@[i] as int), #[trigger] self.name_at(r@[j] as int)),
            decreases n - k,
        {
            let mut p: usize = 0;
            while p < r.len() && !str_lt(self.values[k].0.as_str(), self.values[r[p]].0.as_str())
                invariant
                    n == self.entries().len(),
                    k < n,
                    r@.len() == k,
                    forall|i: int| 0 <= i < r@.len() ==> r@[i] < k,
                    p <= r@.len(),
                    forall|i: int| 0 <= i < p ==> !name_lt(self.name_at(k as int), #[trigger] self.name_at(r@[i] as int)),
                decreases r@.len() - p,
            {
                p = p + 1;
            }
            let ghost r0 = r@;
            r.insert(p, k);
            proof {
                let nk = self.name_at(k as int);
                assert(r@ == r0.insert(p as int, k));
                assert forall|i: int| 0 <= i < p implies name_lt(#[trigger] self.name_at(r0[i] as int), nk) by {
                    let ni = self.name_at(r0[i] as int);
                    assert(r0[i] != k);
                    assert(ni != nk);
                    lemma_name_lt_total(ni, nk);
                }
                if p < r0.len() {
                    assert forall|i: int| p <= i < r0.len() implies name_lt(nk, #[trigger] self.name_at(r0[i] as int)) by {
                        if i > p {
                            lemma_name_lt_transitive(nk, self.name_at(r0[p as int] as int), self.name_at(r0[i] as int));
                        }
                    }
                }
                assert forall|i: int, j: int| 0 <= i < j < r@.len() implies name_lt(
                    #[trigger] self.name_at(r@[i] as int), #[trigger] self.name_at(r@[j] as int)) by {
                    if j < p {
                        assert(r@[i] == r0[i] && r@[j] == r0[j]);
                    } else if j == p {
                        assert(r@[i] == r0[i]);
                    } else if i < p {
                        assert(r@[i] == r0[i] && r@[j] == r0[j - 1]);
                        lemma_name_lt_transitive(self.name_at(r0[i] as int), nk, self.name_at(r0[j - 1] as int));
                    } else if i == p {
                        assert(r@[j] == r0[j - 1]);
                    } else {
                        assert(r@[i] == r0[i - 1] && r@[j] == r0[j - 1]);
                    }
                }
            }
            k = k + 1;
        }
        r
    }
}

} // verus!
