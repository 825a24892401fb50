//! A relation schema: dimension (attribute) names with their sizes.
use vstd::prelude::*;

verus! {

/// The sizes of the named dimensions of a relation. No name occurs twice.
#[derive(Debug)]
pub struct DimMap {
    entries: Vec<(String, usize)>,
}

/// No name occurs twice among `e`.
pub open spec fn keys_distinct(e: Seq<(String, usize)>) -> bool {
    forall|i: int, j: int|
        0 <= i < e.len() && 0 <= j < e.len() && i != j ==> #[trigger] e[i].0@ != #[trigger] e[j].0@
}

/// The map from names to sizes that the entries `e` describe.
pub open spec fn entries_view(e: Seq<(String, usize)>) -> Map<Seq<char>, usize> {
    Map::new(
        |k: Seq<char>| exists|i: int| 0 <= i < e.len() && #[trigger] e[i].0@ == k,
        |k: Seq<char>| e[choose|i: int| 0 <= i < e.len() && #[trigger] e[i].0@ == k].1,
    )
}

/// The product of all sizes of `m` (1 for the empty map).
pub open spec fn map_vol(m: Map<Seq<char>, usize>) -> int
    decreases m.len(),
{
    if m.dom().finite() && m.len() > 0 {
        let k = m.dom().choose();
        m[k] * map_vol(m.remove(k))
    } else {
        1
    }
}

/// The product of the sizes listed in `e`, taken in order.
pub open spec fn seq_vol(e: Seq<(String, usize)>) -> int
    decreases e.len(),
{
    if e.len() == 0 {
        1
    } else {
        seq_vol(e.drop_last()) * e.last().1
    }
}

impl View for DimMap {
    type V = Map<Seq<char>, usize>;

    closed spec fn view(&self) -> Map<Seq<char>, usize> {
        entries_view(self.entries@)
    }
}

proof fn lemma_view_at(e: Seq<(String, usize)>, i: int)
    requires
        keys_distinct(e),
        0 <= i < e.len(),
    ensures
        entries_view(e).dom().contains(e[i].0@),
        entries_view(e)[e[i].0@] == e[i].1,
{
    let k = e[i].0@;
    assert(exists|j: int| 0 <= j < e.len() && #[trigger] e[j].0@ == k);
    let c = choose|j: int| 0 <= j < e.len() && #[trigger] e[j].0@ == k;
    assert(c == i);
}

proof fn lemma_view_missing(e: Seq<(String, usize)>, k: Seq<char>)
    requires
        forall|i: int| 0 <= i < e.len() ==> #[trigger] e[i].0@ != k,
    ensures
        !entries_view(e).dom().contains(k),
{
}

proof fn lemma_view_push(e: Seq<(String, usize)>, k: String, v: usize)
    requires
        keys_distinct(e),
        !entries_view(e).dom().contains(k@),
    ensures
        keys_distinct(e.push((k, v))),
        entries_view(e.push((k, v))) == entries_view(e).insert(k@, v),
{
    let n = e.push((k, v));
    assert forall|i: int| 0 <= i < e.len() implies #[trigger] e[i].0@ != k@ by {
        lemma_view_at(e, i);
    }
    assert(keys_distinct(n));
    let a = entries_view(n);
    let b = entries_view(e).insert(k@, v);
    assert forall|key: Seq<char>| a.dom().contains(key) <==> b.dom().contains(key) by {
        if a.dom().contains(key) {
            let j = choose|j: int| 0 <= j < n.len() && #[trigger] n[j].0@ == key;
            if j < e.len() {
                assert(e[j].0@ == key);
            }
        }
        if b.dom().contains(key) && key != k@ {
            let j = choose|j: int| 0 <= j < e.len() && #[trigger] e[j].0@ == key;
            assert(n[j].0@ == key);
        }
        if key == k@ {
            assert(n[e.len() as int].0@ == key);
        }
    }
    assert forall|key: Seq<char>| #[trigger] a.dom().contains(key) implies a[key] == b[key] by {
        let j = choose|j: int| 0 <= j < n.len() && #[trigger] n[j].0@ == key;
        lemma_view_at(n, j);
        if j < e.len() {
            assert(n[j] == e[j]);
            lemma_view_at(e, j);
        }
    }
    assert(a =~= b);
}

proof fn lemma_view_update(e: Seq<(String, usize)>, i: int, k: String, v: usize)
    requires
        keys_distinct(e),
        0 <= i < e.len(),
        e[i].0@ == k@,
    ensures
        keys_distinct(e.update(i, (k, v))),
        entries_view(e.update(i, (k, v))) == entries_view(e).insert(k@, v),
{
    let n = e.update(i, (k, v));
    assert(keys_distinct(n));
    let a = entries_view(n);
    let b = entries_view(e).insert(k@, v);
    lemma_view_at(e, i);
    assert forall|key: Seq<char>| a.dom().contains(key) <==> b.dom().contains(key) by {
        if a.dom().contains(key) {
            let j = choose|j: int| 0 <= j < n.len() && #[trigger] n[j].0@ == key;
            if j != i {
                assert(e[j].0@ == key);
            }
        }
        if b.dom().contains(key) {
            if key == k@ {
                assert(n[i].0@ == key);
            } else {
                let j = choose|j: int| 0 <= j < e.len() && #[trigger] e[j].0@ == key;
                assert(n[j].0@ == key);
            }
        }
    }
    assert forall|key: Seq<char>| #[trigger] a.dom().contains(key) implies a[key] == b[key] by {
        let j = choose|j: int| 0 <= j < n.len() && #[trigger] n[j].0@ == key;
        lemma_view_at(n, j);
        if j != i {
            lemma_view_at(e, j);
        }
    }
    assert(a =~= b);
}

proof fn lemma_view_remove(e: Seq<(String, usize)>, i: int)
    requires
        keys_distinct(e),
        0 <= i < e.len(),
    ensures
        keys_distinct(e.remove(i)),
        entries_view(e.remove(i)) == entries_view(e).remove(e[i].0@),
{
    let n = e.remove(i);
    let k = e[i].0@;
    assert forall|p: int, q: int|
        0 <= p < n.len() && 0 <= q < n.len() && p != q implies #[trigger] n[p].0@
        != #[trigger] n[q].0@ by {
        let pp = if p < i { p } else { p + 1 };
        let qq = if q < i { q } else { q + 1 };
        assert(n[p] == e[pp]);
        assert(n[q] == e[qq]);
    }
    let a = entries_view(n);
    let b = entries_view(e).remove(k);
    assert forall|key: Seq<char>| a.dom().contains(key) <==> b.dom().contains(key) by {
        if a.dom().contains(key) {
            let j = choose|j: int| 0 <= j < n.len() && #[trigger] n[j].0@ == key;
            let jj = if j < i { j } else { j + 1 };
            assert(n[j] == e[jj]);
            assert(e[jj].0@ == key);
            assert(jj != i);
        }
        if b.dom().contains(key) {
            let j = choose|j: int| 0 <= j < e.len() && #[trigger] e[j].0@ == key;
            assert(j != i);
            let jn = if j < i { j } else { j - 1 };
            assert(n[jn] == e[j]);
            assert(n[jn].0@ == key);
        }
    }
    assert forall|key: Seq<char>| #[trigger] a.dom().contains(key) implies a[key] == b[key] by {
        let j = choose|j: int| 0 <= j < n.len() && #[trigger] n[j].0@ == key;
        lemma_view_at(n, j);
        let jj = if j < i { j } else { j + 1 };
        assert(n[j] == e[jj]);
        lemma_view_at(e, jj);
    }
    assert(a =~= b);
}


/// The product of the sizes of a finite map is the size of any one dimension times the
/// product of the others.
pub proof fn lemma_vol_of_remove(m: Map<Seq<char>, usize>, k: Seq<char>)
    requires
        m.dom().finite(),
        m.dom().contains(k),
    ensures
        map_vol(m) == m[k] * map_vol(m.remove(k)),
    decreases m.len(),
{
    assert(m.remove(k).len() + 1 == m.len());
    let c = m.dom().choose();
    if c != k {
        let mc = m.remove(c);
        let mk = m.remove(k);
        assert(mc.remove(k).len() + 1 == mc.len());
        lemma_vol_of_remove(mc, k);
        lemma_vol_of_remove(mk, c);
        assert(mc.remove(k) =~= mk.remove(c));
        let x = map_vol(mc.remove(k));
        let a = m[c] as int;
        let b = m[k] as int;
        assert(a * (b * x) == b * (a * x)) by (nonlinear_arith);
    }
}

/// Adding a new dimension multiplies the product of the sizes by its size.
pub proof fn lemma_vol_of_insert(m: Map<Seq<char>, usize>, k: Seq<char>, v: usize)
    requires
        m.dom().finite(),
        !m.dom().contains(k),
    ensures
        map_vol(m.insert(k, v)) == v * map_vol(m),
{
    lemma_vol_of_remove(m.insert(k, v), k);
    assert(m.insert(k, v).remove(k) =~= m);
}

proof fn lemma_seq_vol_view(e: Seq<(String, usize)>)
    requires
        keys_distinct(e),
    ensures
        entries_view(e).dom().finite(),
        entries_view(e).len() == e.len(),
        seq_vol(e) == map_vol(entries_view(e)),
    decreases e.len(),
{
    if e.len() == 0 {
        assert(entries_view(e) =~= Map::empty());
    } else {
        let d = e.drop_last();
        let last = e.last();
        assert(keys_distinct(d));
        lemma_seq_vol_view(d);
        assert forall|i: int| 0 <= i < d.len() implies #[trigger] d[i].0@ != last.0@ by {
            assert(d[i] == e[i]);
            assert(e[e.len() - 1] == last);
        }
        lemma_view_missing(d, last.0@);
        lemma_view_push(d, last.0, last.1);
        assert(d.push((last.0, last.1)) =~= e);
        lemma_vol_of_insert(entries_view(d), last.0@, last.1);
        let x = seq_vol(d);
        let z = last.1 as int;
        assert(x * z == z * x) by (nonlinear_arith);
    }
}

proof fn lemma_seq_vol_split(a: Seq<(String, usize)>, b: Seq<(String, usize)>)
    ensures
        seq_vol(a + b) == seq_vol(a) * seq_vol(b),
    decreases b.len(),
{
    if b.len() == 0 {
        assert(a + b =~= a);
    } else {
        lemma_seq_vol_split(a, b.drop_last());
        assert((a + b).drop_last() =~= a + b.drop_last());
        let x = seq_vol(a);
        let y = seq_vol(b.drop_last());
        let z = b.last().1 as int;
        assert(x * y * z == x * (y * z)) by (nonlinear_arith);
    }
}

proof fn lemma_seq_vol_pos(e: Seq<(String, usize)>)
    requires
        forall|i: int| 0 <= i < e.len() ==> #[trigger] e[i].1 >= 1,
    ensures
        seq_vol(e) >= 1,
    decreases e.len(),
{
    if e.len() > 0 {
        let d = e.drop_last();
        assert forall|i: int| 0 <= i < d.len() implies #[trigger] d[i].1 >= 1 by {
            assert(d[i] == e[i]);
        }
        lemma_seq_vol_pos(d);
        let x = seq_vol(d);
        let z = e.last().1 as int;
        assert(x * z >= 1) by (nonlinear_arith)
            requires
                x >= 1,
                z >= 1,
        ;
    }
}

proof fn lemma_seq_vol_nonneg(e: Seq<(String, usize)>)
    ensures
        seq_vol(e) >= 0,
    decreases e.len(),
{
    if e.len() > 0 {
        lemma_seq_vol_nonneg(e.drop_last());
        let x = seq_vol(e.drop_last());
        let z = e.last().1 as int;
        assert(x * z >= 0) by (nonlinear_arith)
            requires
                x >= 0,
                z >= 0,
        ;
    }
}

/// The product of the sizes of a finite map is never negative.
pub proof fn lemma_map_vol_nonneg(m: Map<Seq<char>, usize>)
    ensures
        map_vol(m) >= 0,
    decreases m.len(),
{
    if m.dom().finite() && m.len() > 0 {
        let k = m.dom().choose();
        assert(m.remove(k).len() + 1 == m.len());
        lemma_map_vol_nonneg(m.remove(k));
        let x = map_vol(m.remove(k));
        let v = m[k] as int;
        assert(v * x >= 0) by (nonlinear_arith)
            requires
                v >= 0,
                x >= 0,
        ;
    }
}

/// Where `e` lists `k`, if anywhere.
fn find_entry(e: &Vec<(String, usize)>, k: &String) -> (r: Option<usize>)
    ensures
        match r {
            Some(i) => i < e.len() && e@[i as int].0@ == k@,
            None => forall|j: int| 0 <= j < e.len() ==> #[trigger] e@[j].0@ != k@,
        },
{
    let mut i: usize = 0;
    while i < e.len()
        invariant
            i <= e.len(),
            forall|j: int| 0 <= j < i ==> #[trigger] e@[j].0@ != k@,
        decreases e.len() - i,
    {
        if e[i].0 == *k {
            return Some(i);
        }
        i += 1;
    }
    None
}

impl DimMap {
    #[verifier::type_invariant]
    spec fn inv(self) -> bool {
        keys_distinct(self.entries@)
    }

    /// The map with no dimension.
    pub fn new() -> (r: Self)
        ensures
            r@ == Map::<Seq<char>, usize>::empty(),
    {
        let r = DimMap { entries: Vec::new() };
        proof {
            assert(entries_view(r.entries@) =~= Map::empty());
        }
        r
    }

    /// The number of dimensions.
    pub fn len(&self) -> (r: usize)
        ensures
            r == self@.len(),
            self@.dom().finite(),
    {
        proof {
            use_type_invariant(self);
            lemma_seq_vol_view(self.entries@);
        }
        self.entries.len()
    }

    /// Whether there is no dimension.
    pub fn is_empty(&self) -> (r: bool)
        ensures
            r == (self@.len() == 0),
            self@.dom().finite(),
    {
        self.len() == 0
    }

    /// The size of dimension `k`, if it is there.
    pub fn get(&self, k: &String) -> (r: Option<usize>)
        ensures
            r == (if self@.dom().contains(k@) {
                Some(self@[k@])
            } else {
                None::<usize>
            }),
    {
        proof {
            use_type_invariant(self);
        }
        match find_entry(&self.entries, k) {
            Some(i) => {
                proof {
                    lemma_view_at(self.entries@, i as int);
                }
                Some(self.entries[i].1)
            },
            None => {
                proof {
                    lemma_view_missing(self.entries@, k@);
                }
                None
            },
        }
    }

    /// Whether dimension `k` is there.
    pub fn contains_key(&self, k: &String) -> (r: bool)
        ensures
            r == self@.dom().contains(k@),
    {
        self.get(k).is_some()
    }

    /// Sets the size of dimension `k` to `v`, adding `k` if it was not there.
    pub fn insert(&mut self, k: String, v: usize)
        ensures
            final(self)@ == old(self)@.insert(k@, v),
    {
        proof {
            use_type_invariant(&*self);
        }
        let mut e: Vec<(String, usize)> = Vec::new();
        std::mem::swap(&mut e, &mut self.entries);
        let ghost old_e = e@;
        match find_entry(&e, &k) {
            Some(i) => {
                proof {
                    lemma_view_update(old_e, i as int, k, v);
                }
                e.set(i, (k, v));
            },
            None => {
                proof {
                    lemma_view_missing(old_e, k@);
                    lemma_view_push(old_e, k, v);
                }
                e.push((k, v));
            },
        }
        self.entries = e;
    }

    /// Removes dimension `k`, giving back its size if it was there.
    pub fn remove(&mut self, k: &String) -> (r: Option<usize>)
        ensures
            final(self)@ == old(self)@.remove(k@),
            r == (if old(self)@.dom().contains(k@) {
                Some(old(self)@[k@])
            } else {
                None::<usize>
            }),
    {
        proof {
            use_type_invariant(&*self);
        }
        let mut e: Vec<(String, usize)> = Vec::new();
        std::mem::swap(&mut e, &mut self.entries);
        let ghost old_e = e@;
        let r = match find_entry(&e, k) {
            Some(i) => {
                proof {
                    lemma_view_at(old_e, i as int);
                    lemma_view_remove(old_e, i as int);
                }
                let (_, v) = e.remove(i);
                Some(v)
            },
            None => {
                proof {
                    lemma_view_missing(old_e, k@);
                    assert(entries_view(old_e).remove(k@) =~= entries_view(old_e));
                }
                None
            },
        };
        self.entries = e;
        r
    }

    /// Adds every dimension of `other`, taking its size from `other` where both have it.
    pub fn extend(&mut self, other: &DimMap)
        ensures
            final(self)@ == old(self)@.union_prefer_right(other@),
    {
        proof {
            use_type_invariant(other);
        }
        let n = other.entries.len();
        let mut i: usize = 0;
        proof {
            assert(entries_view(other.entries@.take(0)) =~= Map::empty());
            assert(old(self)@.union_prefer_right(Map::empty()) =~= old(self)@);
        }
        while i < n
            invariant
                i <= n,
                n == other.entries.len(),
                keys_distinct(other.entries@),
                self@ == old(self)@.union_prefer_right(entries_view(other.entries@.take(i as int))),
            decreases n - i,
        {
            let ghost t = other.entries@.take(i as int);
            let k = other.entries[i].0.clone();
            let v = other.entries[i].1;
            self.insert(k, v);
            proof {
                let e = other.entries@;
                assert forall|j: int| 0 <= j < t.len() implies #[trigger] t[j].0@ != e[i as int].0@ by {
                    assert(t[j] == e[j]);
                }
                assert(keys_distinct(t));
                lemma_view_missing(t, k@);
                lemma_view_push(t, k, v);
                assert(t.push((k, v)) =~= e.take(i + 1));
                assert(old(self)@.union_prefer_right(entries_view(t)).insert(k@, v)
                    =~= old(self)@.union_prefer_right(entries_view(t).insert(k@, v)));
            }
            i += 1;
        }
        proof {
            assert(other.entries@.take(n as int) =~= other.entries@);
        }
    }

    /// The names of the dimensions, each once.
    pub fn keys(&self) -> (r: Vec<String>)
        ensures
            r.len() == self@.len(),
            forall|i: int| 0 <= i < r.len() ==> self@.dom().contains(#[trigger] r@[i]@),
            forall|k: Seq<char>|
                #[trigger] self@.dom().contains(k) ==> exists|i: int| 0 <= i < r.len() && r@[i]@ == k,
            forall|i: int, j: int|
                0 <= i < r.len() && 0 <= j < r.len() && i != j ==> #[trigger] r@[i]@ != #[trigger] r@[j]@,
    {
        proof {
            use_type_invariant(self);
            lemma_seq_vol_view(self.entries@);
        }
        let mut r: Vec<String> = Vec::new();
        let mut i: usize = 0;
        while i < self.entries.len()
            invariant
                i <= self.entries.len(),
                keys_distinct(self.entries@),
                r.len() == i,
                forall|j: int| 0 <= j < i ==> #[trigger] r@[j]@ == self.entries@[j].0@,
            decreases self.entries.len() - i,
        {
            r.push(self.entries[i].0.clone());
            i += 1;
        }
        proof {
            assert forall|j: int| 0 <= j < r.len() implies self@.dom().contains(#[trigger] r@[j]@) by {
                lemma_view_at(self.entries@, j);
            }
            assert forall|k: Seq<char>| #[trigger] self@.dom().contains(k) implies exists|j: int|
                0 <= j < r.len() && r@[j]@ == k by {
                let j = choose|j: int| 0 <= j < self.entries@.len() && #[trigger] self.entries@[j].0@ == k;
                assert(r@[j]@ == k);
            }
        }
        r
    }

    /// Whether both maps hold the same dimensions with the same sizes.
    pub fn same_as(&self, other: &DimMap) -> (r: bool)
        ensures
            r == (self@ == other@),
    {
        proof {
            use_type_invariant(self);
            use_type_invariant(other);
            lemma_seq_vol_view(self.entries@);
            lemma_seq_vol_view(other.entries@);
        }
        let n = self.entries.len();
        if n != other.entries.len() {
            return false;
        }
        let mut i: usize = 0;
        while i < n
            invariant
                i <= n,
                n == self.entries.len(),
                keys_distinct(self.entries@),
                forall|j: int|
                    0 <= j < i ==> other@.dom().contains(#[trigger] self.entries@[j].0@)
                        && other@[self.entries@[j].0@] == self.entries@[j].1,
            decreases n - i,
        {
            let same = match other.get(&self.entries[i].0) {
                Some(v) => v == self.entries[i].1,
                None => false,
            };
            if !same {
                proof {
                    lemma_view_at(self.entries@, i as int);
                }
                return false;
            }
            i += 1;
        }
        proof {
            let a = self@;
            let b = other@;
            assert forall|k: Seq<char>| #[trigger] a.dom().contains(k) implies b.dom().contains(k)
                && b[k] == a[k] by {
                let j = choose|j: int| 0 <= j < self.entries@.len() && #[trigger] self.entries@[j].0@ == k;
                lemma_view_at(self.entries@, j);
            }
            vstd::set_lib::lemma_subset_equality(a.dom(), b.dom());
            assert(a =~= b);
        }
        true
    }

    /// The product of all sizes, or `None` where it exceeds `usize::MAX`.
    pub fn volume(&self) -> (r: Option<usize>)
        ensures
            self@.dom().finite(),
            map_vol(self@) >= 0,
            r == (if map_vol(self@) <= usize::MAX {
                Some(map_vol(self@) as usize)
            } else {
                None::<usize>
            }),
    {
        proof {
            use_type_invariant(self);
            lemma_seq_vol_view(self.entries@);
            lemma_seq_vol_nonneg(self.entries@);
        }
        let e = &self.entries;
        let n = e.len();
        let mut z: usize = 0;
        while z < n
            invariant
                z <= n,
                n == e.len(),
                e@ == self.entries@,
                seq_vol(e@) == map_vol(self@),
                self@.dom().finite(),
                forall|j: int| 0 <= j < z ==> #[trigger] e@[j].1 >= 1,
            decreases n - z,
        {
            if e[z].1 == 0 {
                proof {
                    lemma_seq_vol_split(e@.take(z + 1), e@.skip(z + 1));
                    assert(e@.take(z + 1) + e@.skip(z + 1) =~= e@);
                    assert(e@.take(z + 1).drop_last() =~= e@.take(z as int));
                    assert(e@.take(z + 1).last() == e@[z as int]);
                    lemma_seq_vol_nonneg(e@.take(z as int));
                    assert(seq_vol(e@.take(z + 1)) == 0);
                    let b = seq_vol(e@.skip(z + 1));
                    assert(0 * b == 0) by (nonlinear_arith);
                    assert(seq_vol(e@) == 0);
                }
                return Some(0);
            }
            z += 1;
        }
        let mut acc: usize = 1;
        let mut i: usize = 0;
        proof {
            assert(e@.take(0) =~= Seq::<(String, usize)>::empty());
        }
        while i < n
            invariant
                i <= n,
                n == e.len(),
                e@ == self.entries@,
                seq_vol(e@) == map_vol(self@),
                self@.dom().finite(),
                forall|j: int| 0 <= j < n ==> #[trigger] e@[j].1 >= 1,
                acc == seq_vol(e@.take(i as int)),
            decreases n - i,
        {
            let v = e[i].1;
            proof {
                assert(e@.take(i + 1).drop_last() =~= e@.take(i as int));
                assert(e@.take(i + 1).last() == e@[i as int]);
            }
            match acc.checked_mul(v) {
                Some(p) => {
                    acc = p;
                },
                None => {
                    proof {
                        let rest = e@.skip(i + 1);
                        assert forall|j: int| 0 <= j < rest.len() implies #[trigger] rest[j].1 >= 1 by {
                            assert(rest[j] == e@[i + 1 + j]);
                        }
                        lemma_seq_vol_pos(rest);
                        lemma_seq_vol_split(e@.take(i + 1), rest);
                        assert(e@.take(i + 1) + rest =~= e@);
                        let a = seq_vol(e@.take(i + 1));
                        let b = seq_vol(rest);
                        assert(a * b >= a) by (nonlinear_arith)
                            requires
                                a >= 0,
                                b >= 1,
                        ;
                    }
                    return None;
                },
            }
            i += 1;
        }
        proof {
            assert(e@.take(n as int) =~= e@);
        }
        Some(acc)
    }
}

impl Clone for DimMap {
    fn clone(&self) -> (r: Self)
        ensures
            r@ == self@,
    {
        proof {
            use_type_invariant(self);
        }
        let mut e: Vec<(String, usize)> = Vec::new();
        let mut i: usize = 0;
        while i < self.entries.len()
            invariant
                i <= self.entries.len(),
                e.len() == i,
                forall|j: int| 0 <= j < i ==> #[trigger] e@[j] == self.entries@[j],
            decreases self.entries.len() - i,
        {
            e.push((self.entries[i].0.clone(), self.entries[i].1));
            i += 1;
        }
        proof {
            assert(e@ =~= self.entries@);
        }
        DimMap { entries: e }
    }
}

} // verus!
