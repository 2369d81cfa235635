use vstd::prelude::*;

verus! {

/// Keys of the contract's storage maps: values that can be compared and
/// copied by their view.
pub trait StoreKey: View + Sized {
    fn same_key(&self, other: &Self) -> (same: bool)
        ensures
            same == (self@ == other@),
    ;

    fn copy_key(&self) -> (copy: Self)
        ensures
            copy@ == self@,
    ;
}

/// Compares two byte strings.
pub fn bytes_eq(a: &Vec<u8>, b: &Vec<u8>) -> (same: bool)
    ensures
        same == (a@ == b@),
{
    if a.len() != b.len() {
        return false;
    }
    let mut i: usize = 0;
    while i < a.len()
        invariant
            a@.len() == b@.len(),
            i <= a@.len(),
            forall|j: int| 0 <= j < i ==> a@[j] == b@[j],
        decreases a@.len() - i,
    {
        if a[i] != b[i] {
            return false;
        }
        i = i + 1;
    }
    assert(a@ =~= b@);
    true
}

/// Copies a byte string.
pub fn copy_bytes(a: &Vec<u8>) -> (copy: Vec<u8>)
    ensures
        copy@ == a@,
{
    let mut out: Vec<u8> = Vec::new();
    let mut i: usize = 0;
    while i < a.len()
        invariant
            i <= a@.len(),
            out@ == a@.subrange(0, i as int),
        decreases a@.len() - i,
    {
        out.push(a[i]);
        i = i + 1;
        assert(out@ =~= a@.subrange(0, i as int));
    }
    assert(a@.subrange(0, a@.len() as int) =~= a@);
    out
}

impl StoreKey for Vec<u8> {
    fn same_key(&self, other: &Self) -> (same: bool) {
        bytes_eq(self, other)
    }

    fn copy_key(&self) -> (copy: Self) {
        copy_bytes(self)
    }
}

impl StoreKey for u64 {
    fn same_key(&self, other: &Self) -> (same: bool) {
        *self == *other
    }

    fn copy_key(&self) -> (copy: Self) {
        *self
    }
}

impl StoreKey for usize {
    fn same_key(&self, other: &Self) -> (same: bool) {
        *self == *other
    }

    fn copy_key(&self) -> (copy: Self) {
        *self
    }
}

impl StoreKey for (u64, u8) {
    fn same_key(&self, other: &Self) -> (same: bool) {
        self.0 == other.0 && self.1 == other.1
    }

    fn copy_key(&self) -> (copy: Self) {
        (self.0, self.1)
    }
}

impl StoreKey for (u64, Vec<u8>) {
    fn same_key(&self, other: &Self) -> (same: bool) {
        self.0 == other.0 && bytes_eq(&self.1, &other.1)
    }

    fn copy_key(&self) -> (copy: Self) {
        (self.0, copy_bytes(&self.1))
    }
}

impl StoreKey for (Vec<u8>, u64) {
    fn same_key(&self, other: &Self) -> (same: bool) {
        self.1 == other.1 && bytes_eq(&self.0, &other.0)
    }

    fn copy_key(&self) -> (copy: Self) {
        (copy_bytes(&self.0), self.1)
    }
}

/// The map that a sequence of entries denotes: a later entry for a key
/// overrides an earlier one.
pub open spec fn entries_map<K: View, T>(s: Seq<(K, T)>) -> Map<K::V, T>
    decreases s.len(),
{
    if s.len() == 0 {
        Map::empty()
    } else {
        entries_map(s.drop_last()).insert(s.last().0@, s.last().1)
    }
}

pub open spec fn keys_unique<K: View, T>(s: Seq<(K, T)>) -> bool {
    forall|i: int, j: int| 0 <= i < s.len() && 0 <= j < s.len() && i != j ==> s[i].0@ != s[j].0@
}

pub proof fn lemma_entries_map_dom<K: View, T>(s: Seq<(K, T)>, k: K::V)
    ensures
        entries_map(s).contains_key(k) <==> exists|i: int| 0 <= i < s.len() && s[i].0@ == k,
    decreases s.len(),
{
    if s.len() > 0 {
        lemma_entries_map_dom(s.drop_last(), k);
        if entries_map(s.drop_last()).contains_key(k) {
            let i = choose|i: int| 0 <= i < s.drop_last().len() && s.drop_last()[i].0@ == k;
            assert(s[i].0@ == k);
        }
        if exists|i: int| 0 <= i < s.len() && s[i].0@ == k {
            let i = choose|i: int| 0 <= i < s.len() && s[i].0@ == k;
            if i < s.len() - 1 {
                assert(s.drop_last()[i].0@ == k);
            }
        }
    }
}

pub proof fn lemma_entries_map_at<K: View, T>(s: Seq<(K, T)>, i: int)
    requires
        keys_unique(s),
        0 <= i < s.len(),
    ensures
        entries_map(s).contains_key(s[i].0@),
        entries_map(s)[s[i].0@] == s[i].1,
    decreases s.len(),
{
    if i < s.len() - 1 {
        let t = s.drop_last();
        assert(keys_unique(t));
        assert(t[i] == s[i]);
        lemma_entries_map_at(t, i);
        assert(s.last().0@ != s[i].0@);
    }
}

pub proof fn lemma_entries_map_update<K: View, T>(s: Seq<(K, T)>, i: int, e: (K, T))
    requires
        keys_unique(s),
        0 <= i < s.len(),
        e.0@ == s[i].0@,
    ensures
        keys_unique(s.update(i, e)),
        entries_map(s.update(i, e)) == entries_map(s).insert(e.0@, e.1),
    decreases s.len(),
{
    let u = s.update(i, e);
    assert(keys_unique(u)) by {
        assert forall|a: int, b: int| 0 <= a < u.len() && 0 <= b < u.len() && a != b implies u[a].0@
            != u[b].0@ by {
            assert(s[a].0@ != s[b].0@);
        }
    }
    if i == s.len() - 1 {
        assert(u.drop_last() =~= s.drop_last());
        assert(entries_map(u) =~= entries_map(s).insert(e.0@, e.1));
    } else {
        let t = s.drop_last();
        assert(keys_unique(t));
        lemma_entries_map_update(t, i, e);
        assert(u.drop_last() =~= t.update(i, e));
        assert(s.last().0@ != e.0@);
        assert(entries_map(u) =~= entries_map(s).insert(e.0@, e.1));
    }
}

pub proof fn lemma_entries_map_remove<K: View, T>(s: Seq<(K, T)>, i: int)
    requires
        keys_unique(s),
        0 <= i < s.len(),
    ensures
        keys_unique(s.remove(i)),
        entries_map(s.remove(i)) == entries_map(s).remove(s[i].0@),
    decreases s.len(),
{
    let r = s.remove(i);
    let k = s[i].0@;
    assert(keys_unique(r)) by {
        assert forall|a: int, b: int| 0 <= a < r.len() && 0 <= b < r.len() && a != b implies r[a].0@
            != r[b].0@ by {
            let a2 = if a < i { a } else { a + 1 };
            let b2 = if b < i { b } else { b + 1 };
            assert(r[a] == s[a2]);
            assert(r[b] == s[b2]);
        }
    }
    if i == s.len() - 1 {
        assert(r =~= s.drop_last());
        let t = s.drop_last();
        assert(!entries_map(t).contains_key(k)) by {
            lemma_entries_map_dom(t, k);
            if exists|j: int| 0 <= j < t.len() && t[j].0@ == k {
                let j = choose|j: int| 0 <= j < t.len() && t[j].0@ == k;
                assert(s[j].0@ == k);
            }
        }
        assert(entries_map(r) =~= entries_map(s).remove(k));
    } else {
        let t = s.drop_last();
        assert(keys_unique(t));
        lemma_entries_map_remove(t, i);
        assert(r.drop_last() =~= t.remove(i));
        assert(r.last() == s.last());
        assert(s.last().0@ != k);
        assert(entries_map(r) =~= entries_map(s).remove(k));
    }
}

pub proof fn lemma_entries_map_push<K: View, T>(s: Seq<(K, T)>, e: (K, T))
    requires
        keys_unique(s),
        !entries_map(s).contains_key(e.0@),
    ensures
        keys_unique(s.push(e)),
        entries_map(s.push(e)) == entries_map(s).insert(e.0@, e.1),
{
    let p = s.push(e);
    assert(p.drop_last() =~= s);
    assert(keys_unique(p)) by {
        assert forall|a: int, b: int| 0 <= a < p.len() && 0 <= b < p.len() && a != b implies p[a].0@
            != p[b].0@ by {
            if a == s.len() || b == s.len() {
                let j = if a == s.len() { b } else { a };
                lemma_entries_map_dom(s, e.0@);
                assert(s[j].0@ != e.0@);
            } else {
                assert(s[a].0@ != s[b].0@);
            }
        }
    }
}

/// A storage map: entries with pairwise distinct keys.
pub struct Store<K, T> {
    pub entries: Vec<(K, T)>,
}

impl<K: StoreKey, T> Store<K, T> {
    pub open spec fn wf(&self) -> bool {
        keys_unique(self.entries@)
    }

    pub open spec fn map(&self) -> Map<K::V, T> {
        entries_map(self.entries@)
    }

    pub fn new() -> (store: Self)
        ensures
            store.wf(),
            store.map() == Map::<K::V, T>::empty(),
            store.entries@ == Seq::<(K, T)>::empty(),
    {
        let store = Store { entries: Vec::new() };
        assert(store.entries@ =~= Seq::<(K, T)>::empty());
        store
    }

    /// The position of the entry for `key`, if there is one.
    pub fn find(&self, key: &K) -> (pos: Option<usize>)
        requires
            self.wf(),
        ensures
            match pos {
                Some(i) => i < self.entries@.len() && self.entries@[i as int].0@ == key@
                    && self.map().contains_key(key@),
                None => !self.map().contains_key(key@),
            },
    {
        let mut i: usize = 0;
        while i < self.entries.len()
            invariant
                self.wf(),
                i <= self.entries@.len(),
                forall|j: int| 0 <= j < i ==> self.entries@[j].0@ != key@,
            decreases self.entries@.len() - i,
        {
            if self.entries[i].0.same_key(key) {
                proof {
                    lemma_entries_map_at(self.entries@, i as int);
                }
                return Some(i);
            }
            i = i + 1;
        }
        proof {
            lemma_entries_map_dom(self.entries@, key@);
        }
        None
    }

    pub fn contains_key(&self, key: &K) -> (found: bool)
        requires
            self.wf(),
        ensures
            found == self.map().contains_key(key@),
    {
        self.find(key).is_some()
    }

    pub fn get(&self, key: &K) -> (value: Option<&T>)
        requires
            self.wf(),
        ensures
            match value {
                Some(v) => self.map().contains_key(key@) && *v == self.map()[key@],
                None => !self.map().contains_key(key@),
            },
    {
        match self.find(key) {
            Some(i) => {
                proof {
                    lemma_entries_map_at(self.entries@, i as int);
                }
                Some(&self.entries[i].1)
            },
            None => None,
        }
    }

    /// Sets the value stored under `key`. A new key goes after the others.
    pub fn insert(&mut self, key: K, value: T)
        requires
            old(self).wf(),
        ensures
            final(self).wf(),
            final(self).map() == old(self).map().insert(key@, value),
            !old(self).map().contains_key(key@) ==> final(self).entries@ == old(
                self,
            ).entries@.push((key, value)),
            old(self).map().contains_key(key@) ==> exists|i: int|
                0 <= i < old(self).entries@.len() && old(self).entries@[i].0@ == key@
                    && final(self).entries@ == old(self).entries@.remove(i).push((key, value)),
    {
        match self.find(&key) {
            Some(i) => {
                proof {
                    lemma_entries_map_remove(self.entries@, i as int);
                }
                let ghost k = key@;
                let ghost before = self.entries@;
                let _old_entry = self.entries.remove(i);
                let ghost removed = self.entries@;
                proof {
                    lemma_entries_map_dom(removed, k);
                    assert(!entries_map(removed).contains_key(k));
                    lemma_entries_map_push(removed, (key, value));
                    assert(entries_map(removed).insert(k, value) =~= entries_map(before).insert(
                        k,
                        value,
                    ));
                }
                self.entries.push((key, value));
                assert(self.entries@ == before.remove(i as int).push((key, value)));
            },
            None => {
                proof {
                    lemma_entries_map_push(self.entries@, (key, value));
                }
                self.entries.push((key, value));
            },
        }
    }

    /// Removes the entry for `key` and hands back its value.
    pub fn take(&mut self, key: &K) -> (value: Option<T>)
        requires
            old(self).wf(),
        ensures
            final(self).wf(),
            final(self).map() == old(self).map().remove(key@),
            match value {
                Some(v) => old(self).map().contains_key(key@) && v == old(self).map()[key@],
                None => !old(self).map().contains_key(key@),
            },
            value is None ==> *final(self) == *old(self),
            value matches Some(v) ==> exists|i: int|
                0 <= i < old(self).entries@.len() && old(self).entries@[i] == (old(
                    self,
                ).entries@[i].0, v) && old(self).entries@[i].0@ == key@ && final(self).entries@
                    == old(self).entries@.remove(i),
    {
        match self.find(key) {
            Some(i) => {
                proof {
                    lemma_entries_map_at(self.entries@, i as int);
                    lemma_entries_map_remove(self.entries@, i as int);
                }
                let ghost before = self.entries@;
                let entry = self.entries.remove(i);
                assert(before[i as int] == entry);
                Some(entry.1)
            },
            None => {
                assert(old(self).map().remove(key@) =~= old(self).map());
                None
            },
        }
    }
}

impl<K: StoreKey, T: Copy> Store<K, T> {
    /// A copy of the store with the same keys and values.
    pub fn copy(&self) -> (copy: Self)
        requires
            self.wf(),
        ensures
            copy.wf(),
            copy.map() == self.map(),
    {
        let mut entries: Vec<(K, T)> = Vec::new();
        let mut i: usize = 0;
        while i < self.entries.len()
            invariant
                i <= self.entries@.len(),
                entries@.len() == i,
                forall|j: int| 0 <= j < i ==> (#[trigger] entries@[j]).0@ == self.entries@[j].0@ && entries@[j].1 == self.entries@[j].1,
            decreases self.entries@.len() - i,
        {
            let entry = &self.entries[i];
            entries.push((entry.0.copy_key(), entry.1));
            i = i + 1;
        }
        proof {
            lemma_entries_map_same_views(entries@, self.entries@);
        }
        Store { entries }
    }
}

/// Entries with the same key views and values denote the same map.
pub proof fn lemma_entries_map_same_views<K: View, T>(a: Seq<(K, T)>, b: Seq<(K, T)>)
    requires
        a.len() == b.len(),
        forall|j: int| 0 <= j < a.len() ==> (#[trigger] a[j]).0@ == b[j].0@ && a[j].1 == b[j].1,
    ensures
        entries_map(a) == entries_map(b),
        keys_unique(a) == keys_unique(b),
    decreases a.len(),
{
    if a.len() > 0 {
        assert forall|j: int| 0 <= j < a.drop_last().len() implies (#[trigger] a.drop_last()[j]).0@ == b.drop_last()[j].0@ && a.drop_last()[j].1 == b.drop_last()[j].1 by {
            assert(a[j].0@ == b[j].0@);
        }
        lemma_entries_map_same_views(a.drop_last(), b.drop_last());
        assert(a.last().0@ == b.last().0@ && a.last().1 == b.last().1) by {
            assert(a[a.len() - 1].0@ == b[b.len() - 1].0@);
        }
    }
    assert(keys_unique(a) == keys_unique(b)) by {
        if keys_unique(a) {
            assert forall|x: int, y: int| 0 <= x < b.len() && 0 <= y < b.len() && x != y implies b[x].0@ != b[y].0@ by {
                assert(a[x].0@ == b[x].0@);
                assert(a[y].0@ == b[y].0@);
            }
        }
        if keys_unique(b) {
            assert forall|x: int, y: int| 0 <= x < a.len() && 0 <= y < a.len() && x != y implies a[x].0@ != a[y].0@ by {
                assert(a[x].0@ == b[x].0@);
                assert(a[y].0@ == b[y].0@);
            }
        }
    }
}

/// The views of a sequence of keys.
pub open spec fn views<K: View>(s: Seq<K>) -> Seq<K::V> {
    s.map_values(|k: K| k@)
}

/// Whether a set (kept as a sequence without duplicates, as the contract's
/// unordered set mappers keep it) holds `x`.
pub fn set_contains<K: StoreKey>(v: &Vec<K>, x: &K) -> (found: bool)
    ensures
        found == views(v@).contains(x@),
{
    match set_position(v, x) {
        Some(_) => true,
        None => false,
    }
}

/// The position of `x` in the set `v`.
pub fn set_position<K: StoreKey>(v: &Vec<K>, x: &K) -> (pos: Option<usize>)
    ensures
        match pos {
            Some(i) => i < v@.len() && v@[i as int]@ == x@ && views(v@).contains(x@)
                && forall|j: int| 0 <= j < i ==> v@[j]@ != x@,
            None => !views(v@).contains(x@),
        },
{
    let mut i: usize = 0;
    while i < v.len()
        invariant
            i <= v@.len(),
            forall|j: int| 0 <= j < i ==> v@[j]@ != x@,
        decreases v@.len() - i,
    {
        if v[i].same_key(x) {
            assert(views(v@)[i as int] == x@);
            return Some(i);
        }
        i = i + 1;
    }
    assert(!views(v@).contains(x@)) by {
        if views(v@).contains(x@) {
            let j = choose|j: int| 0 <= j < views(v@).len() && views(v@)[j] == x@;
            assert(v@[j]@ == x@);
        }
    }
    None
}

/// Adds `x` to the set `v` unless it is there already; reports whether it
/// was added.
pub fn set_insert<K: StoreKey>(v: &mut Vec<K>, x: K) -> (added: bool)
    ensures
        added == !views(old(v)@).contains(x@),
        added ==> final(v)@ == old(v)@.push(x),
        !added ==> *final(v) == *old(v),
        views(final(v)@) == if added { views(old(v)@).push(x@) } else { views(old(v)@) },
{
    if set_contains(v, &x) {
        false
    } else {
        let ghost before = v@;
        v.push(x);
        assert(views(v@) =~= views(before).push(x@));
        true
    }
}

/// The first position of `x` in `s`.
pub open spec fn first_index_of<A>(s: Seq<A>, x: A) -> int {
    choose|i: int| 0 <= i < s.len() && s[i] == x && forall|j: int| 0 <= j < i ==> s[j] != x
}

/// The set `s` after removing `x` the way the contract's unordered sets do
/// it: the last element takes the place of the removed one.
pub open spec fn swap_removed<A>(s: Seq<A>, x: A) -> Seq<A> {
    if s.contains(x) {
        s.update(first_index_of(s, x), s.last()).drop_last()
    } else {
        s
    }
}

pub proof fn lemma_first_index_of<A>(s: Seq<A>, x: A, i: int)
    requires
        0 <= i < s.len(),
        s[i] == x,
        forall|j: int| 0 <= j < i ==> s[j] != x,
    ensures
        first_index_of(s, x) == i,
{
    let k = first_index_of(s, x);
    assert(0 <= k < s.len() && s[k] == x && forall|j: int| 0 <= j < k ==> s[j] != x);
    if k < i {
        assert(s[k] != x);
    } else if k > i {
        assert(s[i] != x);
    }
}

/// Removes `x` from the set `v`, moving the last element into its place;
/// reports whether it was there.
pub fn set_swap_remove<K: StoreKey>(v: &mut Vec<K>, x: &K) -> (removed: bool)
    ensures
        removed == views(old(v)@).contains(x@),
        !removed ==> *final(v) == *old(v),
        views(final(v)@) == swap_removed(views(old(v)@), x@),
        removed ==> 0 <= first_index_of(views(old(v)@), x@) < old(v)@.len() && views(
            old(v)@,
        )[first_index_of(views(old(v)@), x@)] == x@,
        removed ==> exists|i: int|
            0 <= i < old(v)@.len() && old(v)@[i]@ == x@ && final(v)@ == old(v)@.update(
                i,
                old(v)@.last(),
            ).drop_last(),
{
    let ghost before = v@;
    match set_position(v, x) {
        Some(i) => {
            let _gone = v.swap_remove(i);
            proof {
                let w = views(before);
                assert(w[i as int] == x@);
                assert forall|j: int| 0 <= j < i implies w[j] != x@ by {}
                lemma_first_index_of(w, x@, i as int);
                assert(views(v@) =~= w.update(i as int, w.last()).drop_last());
            }
            true
        },
        None => false,
    }
}

/// Removing one element from a set without duplicates by swapping in the
/// last one keeps every other element and drops that one.
pub proof fn lemma_swap_remove_views<K: View>(s: Seq<K>, i: int)
    requires
        0 <= i < s.len(),
        views(s).no_duplicates(),
    ensures
        views(s.update(i, s.last()).drop_last()).no_duplicates(),
        forall|y: K::V|
            views(s.update(i, s.last()).drop_last()).contains(y) <==> (views(s).contains(y) && y
                != s[i]@),
        views(s.update(i, s.last()).drop_last()).len() == views(s).len() - 1,
{
    let r = s.update(i, s.last()).drop_last();
    let n = s.len();
    assert forall|a: int| 0 <= a < r.len() implies (a == i ==> r[a] == s[n - 1]) && (a != i
        ==> r[a] == s[a]) by {}
    assert(views(r).no_duplicates()) by {
        assert forall|a: int, b: int|
            0 <= a < views(r).len() && 0 <= b < views(r).len() && a != b implies views(r)[a]
            != views(r)[b] by {
            let a2 = if a == i { n - 1 } else { a };
            let b2 = if b == i { n - 1 } else { b };
            assert(views(s)[a2] != views(s)[b2]);
        }
    }
    assert forall|y: K::V| views(r).contains(y) <==> (views(s).contains(y) && y != s[i]@) by {
        if views(r).contains(y) {
            let a = choose|a: int| 0 <= a < views(r).len() && views(r)[a] == y;
            let a2 = if a == i { n - 1 } else { a };
            assert(views(s)[a2] == y);
            assert(a2 != i);
            assert(views(s)[a2] != views(s)[i]);
        }
        if views(s).contains(y) && y != s[i]@ {
            let b = choose|b: int| 0 <= b < views(s).len() && views(s)[b] == y;
            assert(b != i);
            if b == n - 1 {
                assert(views(r)[i] == y);
            } else {
                assert(views(r)[b] == y);
            }
        }
    }
}

/// Compares two lists of byte strings.
pub fn bytes_lists_eq(a: &Vec<Vec<u8>>, b: &Vec<Vec<u8>>) -> (same: bool)
    ensures
        same == (views(a@) == views(b@)),
{
    if a.len() != b.len() {
        assert(views(a@).len() != views(b@).len());
        return false;
    }
    let mut i: usize = 0;
    while i < a.len()
        invariant
            a@.len() == b@.len(),
            i <= a@.len(),
            forall|j: int| 0 <= j < i ==> a@[j]@ == b@[j]@,
        decreases a@.len() - i,
    {
        if !bytes_eq(&a[i], &b[i]) {
            assert(views(a@)[i as int] != views(b@)[i as int]);
            return false;
        }
        i = i + 1;
    }
    assert(views(a@) =~= views(b@));
    true
}

/// Copies a list of byte strings.
pub fn copy_bytes_list(list: &Vec<Vec<u8>>) -> (copy: Vec<Vec<u8>>)
    ensures
        views(copy@) == views(list@),
{
    let mut out: Vec<Vec<u8>> = Vec::new();
    let mut i: usize = 0;
    while i < list.len()
        invariant
            i <= list@.len(),
            out@.len() == i,
            forall|j: int| 0 <= j < i ==> out@[j]@ == list@[j]@,
        decreases list@.len() - i,
    {
        out.push(copy_bytes(&list[i]));
        i = i + 1;
    }
    assert(views(out@) =~= views(list@));
    out
}

/// Appends the bytes of `b` to `out`.
pub fn append_bytes(out: &mut Vec<u8>, b: &Vec<u8>)
    ensures
        final(out)@ == old(out)@ + b@,
{
    let mut i: usize = 0;
    while i < b.len()
        invariant
            i <= b@.len(),
            out@ == old(out)@ + b@.subrange(0, i as int),
        decreases b@.len() - i,
    {
        out.push(b[i]);
        i = i + 1;
        assert(out@ =~= old(out)@ + b@.subrange(0, i as int));
    }
    assert(b@.subrange(0, b@.len() as int) =~= b@);
}

} // verus!
