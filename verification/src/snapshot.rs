use vstd::prelude::*;
use vstd::slice::slice_to_vec;

verus! {

/// What a snapshot holds: every key that is present, with its value.
pub type Store = Map<Seq<u8>, Seq<u8>>;

/// The key of the `i`-th of `entries`.
pub open spec fn key_at(entries: Seq<(Vec<u8>, Vec<u8>)>, i: int) -> Seq<u8> {
    entries[i].0@
}

/// The value of the `i`-th of `entries`.
pub open spec fn value_at(entries: Seq<(Vec<u8>, Vec<u8>)>, i: int) -> Seq<u8> {
    entries[i].1@
}

/// `entries` are the keys of `store` that begin with `prefix`, each once and with its value.
pub open spec fn lists_prefix(
    entries: Seq<(Vec<u8>, Vec<u8>)>,
    store: Store,
    prefix: Seq<u8>,
) -> bool {
    &&& forall|i: int|
        0 <= i < entries.len() ==> {
            &&& prefix.is_prefix_of(#[trigger] key_at(entries, i))
            &&& store.contains_key(key_at(entries, i))
            &&& store[key_at(entries, i)] == value_at(entries, i)
        }
    &&& forall|i: int, j: int|
        0 <= i < j < entries.len() ==> #[trigger] key_at(entries, i) != #[trigger] key_at(
            entries,
            j,
        )
    &&& forall|key: Seq<u8>|
        #[trigger] store.contains_key(key) && prefix.is_prefix_of(key) ==> exists|i: int|
            0 <= i < entries.len() && #[trigger] key_at(entries, i) == key
    &&& ascending(entries)
}

/// Whether `left` comes before `right` in the order of keys: byte by byte, a key before
/// every key that it begins.
pub open spec fn key_before(left: Seq<u8>, right: Seq<u8>) -> bool {
    exists|at: int| #[trigger] differs_at(left, right, at)
}

/// Whether `left` and `right` agree before `at`, and there `left` ends or has the lesser
/// byte.
pub open spec fn differs_at(left: Seq<u8>, right: Seq<u8>, at: int) -> bool {
    &&& 0 <= at <= left.len()
    &&& at < right.len()
    &&& forall|i: int| 0 <= i < at ==> left[i] == right[i]
    &&& at < left.len() ==> left[at] < right[at]
}

/// Whether the keys of `entries` rise from each entry to the next.
pub open spec fn ascending(entries: Seq<(Vec<u8>, Vec<u8>)>) -> bool {
    forall|i: int, j: int|
        0 <= i < j < entries.len() ==> key_before(
            #[trigger] key_at(entries, i),
            #[trigger] key_at(entries, j),
        )
}

/// A key that comes before another is another key.
pub proof fn lemma_key_before_differs(left: Seq<u8>, right: Seq<u8>)
    requires
        key_before(left, right),
    ensures
        left != right,
        !key_before(right, left),
{
    let at = choose|at: int| #[trigger] differs_at(left, right, at);
    if key_before(right, left) {
        let back = choose|back: int| #[trigger] differs_at(right, left, back);
        if back < at {
            assert(left[back] == right[back]);
        } else if at < back {
            assert(right[at] == left[at]);
        }
    }
}

/// The order of keys is transitive.
pub proof fn lemma_key_before_transitive(first: Seq<u8>, second: Seq<u8>, third: Seq<u8>)
    requires
        key_before(first, second),
        key_before(second, third),
    ensures
        key_before(first, third),
{
    let a = choose|at: int| #[trigger] differs_at(first, second, at);
    let b = choose|at: int| #[trigger] differs_at(second, third, at);
    if a <= b {
        assert forall|i: int| 0 <= i < a implies first[i] == third[i] by {
            assert(first[i] == second[i]);
            assert(second[i] == third[i]);
        }
        if a < b {
            assert(second[a] == third[a]);
        }
        assert(differs_at(first, third, a));
    } else {
        assert forall|i: int| 0 <= i < b implies first[i] == third[i] by {
            assert(first[i] == second[i]);
            assert(second[i] == third[i]);
        }
        assert(first[b] == second[b]);
        assert(differs_at(first, third, b));
    }
}

/// How one key stands to another in the order of keys.
#[derive(Clone, Copy, Debug, PartialEq, Eq, Structural)]
pub enum KeyOrder {
    Before,
    Same,
    After,
}

/// How `left` stands to `right` in the order of keys.
pub fn key_order(left: &[u8], right: &[u8]) -> (order: KeyOrder)
    ensures
        match order {
            KeyOrder::Before => key_before(left@, right@),
            KeyOrder::Same => left@ == right@,
            KeyOrder::After => key_before(right@, left@),
        },
{
    let mut i: usize = 0;
    while i < left.len() && i < right.len()
        invariant
            0 <= i <= left@.len(),
            i <= right@.len(),
            forall|j: int| 0 <= j < i ==> left@[j] == right@[j],
        decreases left@.len() - i,
    {
        if left[i] < right[i] {
            assert(differs_at(left@, right@, i as int));
            return KeyOrder::Before;
        }
        if left[i] > right[i] {
            assert(differs_at(right@, left@, i as int));
            return KeyOrder::After;
        }
        i += 1;
    }
    if left.len() < right.len() {
        assert(differs_at(left@, right@, i as int));
        KeyOrder::Before
    } else if left.len() > right.len() {
        assert(differs_at(right@, left@, i as int));
        KeyOrder::After
    } else {
        assert(left@ =~= right@);
        KeyOrder::Same
    }
}

/// A view of the key-value store that can be read.
pub trait ReadableSnapshot {
    /// Every key that the snapshot holds, with its value.
    spec fn contents(&self) -> Store;

    /// The value stored under `key`, if the key is present.
    fn get(&self, key: &[u8]) -> (value: Option<Vec<u8>>)
        ensures
            match value {
                Some(value) => self.contents().contains_key(key@) && self.contents()[key@]
                    == value@,
                None => !self.contents().contains_key(key@),
            },
    ;

    /// The entries whose key begins with `prefix`, in the order of their keys.
    fn iterate_prefix(&self, prefix: &[u8]) -> (entries: Vec<(Vec<u8>, Vec<u8>)>)
        ensures
            lists_prefix(entries@, self.contents(), prefix@),
    ;
}

/// A view of the key-value store that can also be written.
pub trait WritableSnapshot: ReadableSnapshot {
    /// Makes `key` present, with an empty value.
    fn put(&mut self, key: Vec<u8>)
        ensures
            final(self).contents() == old(self).contents().insert(key@, Seq::empty()),
    ;

    /// Makes `key` present, with `value`.
    fn put_val(&mut self, key: Vec<u8>, value: Vec<u8>)
        ensures
            final(self).contents() == old(self).contents().insert(key@, value@),
    ;

    /// Makes `key` absent.
    fn delete(&mut self, key: Vec<u8>)
        ensures
            final(self).contents() == old(self).contents().remove(key@),
    ;
}

/// Whether two byte strings are the same.
pub fn bytes_equal(left: &[u8], right: &[u8]) -> (equal: bool)
    ensures
        equal == (left@ == right@),
{
    if left.len() != right.len() {
        return false;
    }
    let mut i: usize = 0;
    while i < left.len()
        invariant
            0 <= i <= left@.len(),
            left@.len() == right@.len(),
            forall|j: int| 0 <= j < i ==> left@[j] == right@[j],
        decreases left@.len() - i,
    {
        if left[i] != right[i] {
            return false;
        }
        i += 1;
    }
    assert(left@ =~= right@);
    true
}

/// Whether `key` begins with `prefix`.
pub fn starts_with(key: &[u8], prefix: &[u8]) -> (begins: bool)
    ensures
        begins == prefix@.is_prefix_of(key@),
{
    if prefix.len() > key.len() {
        return false;
    }
    let mut i: usize = 0;
    while i < prefix.len()
        invariant
            0 <= i <= prefix@.len(),
            prefix@.len() <= key@.len(),
            forall|j: int| 0 <= j < i ==> prefix@[j] == key@[j],
        decreases prefix@.len() - i,
    {
        if prefix[i] != key[i] {
            assert(key@.subrange(0, prefix@.len() as int)[i as int] != prefix@[i as int]);
            return false;
        }
        i += 1;
    }
    assert(prefix@ =~= key@.subrange(0, prefix@.len() as int));
    true
}

/// The position in the old entries of what stands at `i` once the entry at `skip` is left out.
pub open spec fn shifted(skip: int, i: int) -> int {
    if i < skip {
        i
    } else {
        i + 1
    }
}

/// The position at which the old entry `o` stands once the entry at `skip` is left out.
pub open spec fn unshifted(skip: int, o: int) -> int {
    if o < skip {
        o
    } else {
        o - 1
    }
}

/// `entries` hold each key of `store` once, with its value, and nothing else.
pub open spec fn holds_exactly(entries: Seq<(Vec<u8>, Vec<u8>)>, store: Store) -> bool {
    &&& forall|i: int|
        0 <= i < entries.len() ==> {
            &&& store.contains_key(#[trigger] key_at(entries, i))
            &&& store[key_at(entries, i)] == value_at(entries, i)
        }
    &&& forall|i: int, j: int|
        0 <= i < j < entries.len() ==> #[trigger] key_at(entries, i) != #[trigger] key_at(
            entries,
            j,
        )
    &&& forall|key: Seq<u8>| #[trigger]
        store.contains_key(key) ==> exists|i: int|
            0 <= i < entries.len() && #[trigger] key_at(entries, i) == key
}

/// Entries whose keys rise hold no key twice.
pub proof fn lemma_ascending_is_distinct(entries: Seq<(Vec<u8>, Vec<u8>)>)
    requires
        ascending(entries),
    ensures
        forall|i: int, j: int|
            0 <= i < j < entries.len() ==> #[trigger] key_at(entries, i) != #[trigger] key_at(
                entries,
                j,
            ),
{
    assert forall|i: int, j: int| 0 <= i < j < entries.len() implies #[trigger] key_at(
        entries,
        i,
    ) != #[trigger] key_at(entries, j) by {
        lemma_key_before_differs(key_at(entries, i), key_at(entries, j));
    }
}

/// What a store holds once the entries are written to it one after the other.
pub open spec fn store_of(entries: Seq<(Vec<u8>, Vec<u8>)>) -> Store
    decreases entries.len(),
{
    if entries.len() == 0 {
        Store::empty()
    } else {
        store_of(entries.drop_last()).insert(entries.last().0@, entries.last().1@)
    }
}

/// A snapshot held in memory: the entries in the order of their keys.
pub struct MemorySnapshot {
    entries: Vec<(Vec<u8>, Vec<u8>)>,
    store: Ghost<Store>,
}

impl MemorySnapshot {
    #[verifier::type_invariant]
    spec fn consistent(&self) -> bool {
        holds_exactly(self.entries@, self.store@) && ascending(self.entries@)
    }

    /// A snapshot that holds nothing.
    pub fn new() -> (snapshot: MemorySnapshot)
        ensures
            snapshot.contents() == Store::empty(),
    {
        MemorySnapshot { entries: Vec::new(), store: Ghost(Map::empty()) }
    }

    /// A snapshot that holds the entries, a later entry in place of an earlier one with the
    /// same key.
    pub fn from_entries(entries: &Vec<(Vec<u8>, Vec<u8>)>) -> (snapshot: MemorySnapshot)
        ensures
            snapshot.contents() == store_of(entries@),
    {
        let mut snapshot = MemorySnapshot::new();
        let mut i: usize = 0;
        assert(entries@.subrange(0, 0) =~= Seq::<(Vec<u8>, Vec<u8>)>::empty());
        while i < entries.len()
            invariant
                0 <= i <= entries@.len(),
                snapshot.contents() == store_of(entries@.subrange(0, i as int)),
            decreases entries@.len() - i,
        {
            let key = slice_to_vec(entries[i].0.as_slice());
            let value = slice_to_vec(entries[i].1.as_slice());
            snapshot.put_val(key, value);
            proof {
                let next = entries@.subrange(0, i + 1);
                assert(next.drop_last() =~= entries@.subrange(0, i as int));
                assert(next.last() == entries@[i as int]);
            }
            i += 1;
        }
        assert(entries@.subrange(0, entries@.len() as int) =~= entries@);
        snapshot
    }

    /// Every entry of the snapshot, in the order of the keys.
    pub fn entries(&self) -> (entries: Vec<(Vec<u8>, Vec<u8>)>)
        ensures
            lists_prefix(entries@, self.contents(), Seq::<u8>::empty()),
    {
        let prefix: Vec<u8> = Vec::new();
        self.iterate_prefix(prefix.as_slice())
    }

    /// The snapshot as one that can only be read.
    pub fn into_read(self) -> (snapshot: ReadSnapshot)
        ensures
            snapshot.contents() == self.contents(),
    {
        ReadSnapshot { held: self }
    }

    /// The number of keys that are present.
    pub fn len(&self) -> (count: usize)
        ensures
            count == self.contents().dom().len(),
            self.contents().dom().finite(),
    {
        proof {
            use_type_invariant(self);
            self.lemma_counts(self.entries@.len() as int);
            assert(self.keys_up_to(self.entries@.len() as int) =~= self.contents().dom());
        }
        self.entries.len()
    }

    /// The keys of the first `n` entries.
    spec fn keys_up_to(&self, n: int) -> Set<Seq<u8>> {
        Set::new(
            |key: Seq<u8>| exists|i: int| 0 <= i < n && #[trigger] key_at(self.entries@, i) == key,
        )
    }

    proof fn lemma_counts(&self, n: int)
        requires
            self.consistent(),
            0 <= n <= self.entries@.len(),
        ensures
            self.keys_up_to(n).finite(),
            self.keys_up_to(n).len() == n,
        decreases n,
    {
        if n == 0 {
            assert(self.keys_up_to(0) =~= Set::empty());
        } else {
            self.lemma_counts(n - 1);
            let key = key_at(self.entries@, n - 1);
            assert(self.keys_up_to(n) =~= self.keys_up_to(n - 1).insert(key));
            assert(!self.keys_up_to(n - 1).contains(key));
        }
    }

    /// Where `key` stands among the entries, or where it would stand: every entry before that
    /// place has a key before `key`, and every entry from that place on, but the one found,
    /// has a key after it.
    fn position(&self, key: &[u8]) -> (place: (usize, bool))
        ensures
            place.0 <= self.entries@.len(),
            place.1 ==> place.0 < self.entries@.len() && key_at(self.entries@, place.0 as int)
                == key@,
            forall|i: int| 0 <= i < place.0 ==> key_before(#[trigger] key_at(self.entries@, i), key@),
            forall|i: int|
                place.0 + (if place.1 {
                    1int
                } else {
                    0int
                }) <= i < self.entries@.len() ==> key_before(
                    key@,
                    #[trigger] key_at(self.entries@, i),
                ),
    {
        proof {
            use_type_invariant(self);
        }
        let mut low: usize = 0;
        let mut high: usize = self.entries.len();
        while low < high
            invariant
                0 <= low <= high <= self.entries@.len(),
                ascending(self.entries@),
                forall|i: int| 0 <= i < low ==> key_before(#[trigger] key_at(self.entries@, i), key@),
                forall|i: int|
                    high <= i < self.entries@.len() ==> key_before(
                        key@,
                        #[trigger] key_at(self.entries@, i),
                    ),
            decreases high - low,
        {
            let middle = low + (high - low) / 2;
            let ghost pivot = key_at(self.entries@, middle as int);
            match key_order(self.entries[middle].0.as_slice(), key) {
                KeyOrder::Same => {
                    proof {
                        assert forall|i: int| 0 <= i < middle implies key_before(
                            #[trigger] key_at(self.entries@, i),
                            key@,
                        ) by {}
                        assert forall|i: int| middle + 1 <= i < self.entries@.len() implies key_before(
                            key@,
                            #[trigger] key_at(self.entries@, i),
                        ) by {
                            assert(key_before(pivot, key_at(self.entries@, i)));
                        }
                    }
                    return (middle, true);
                },
                KeyOrder::Before => {
                    proof {
                        assert forall|i: int| 0 <= i < middle + 1 implies key_before(
                            #[trigger] key_at(self.entries@, i),
                            key@,
                        ) by {
                            if i < middle {
                                lemma_key_before_transitive(key_at(self.entries@, i), pivot, key@);
                            }
                        }
                    }
                    low = middle + 1;
                },
                KeyOrder::After => {
                    proof {
                        assert forall|i: int| middle <= i < self.entries@.len() implies key_before(
                            key@,
                            #[trigger] key_at(self.entries@, i),
                        ) by {
                            if i > middle {
                                lemma_key_before_transitive(key@, pivot, key_at(self.entries@, i));
                            }
                        }
                    }
                    high = middle;
                },
            }
        }
        (low, false)
    }
}

impl ReadableSnapshot for MemorySnapshot {
    closed spec fn contents(&self) -> Store {
        self.store@
    }

    fn get(&self, key: &[u8]) -> (value: Option<Vec<u8>>) {
        proof {
            use_type_invariant(self);
        }
        let (at, found) = self.position(key);
        if found {
            assert(key_at(self.entries@, at as int) == key@);
            assert(value_at(self.entries@, at as int) == self.store@[key@]);
            Some(slice_to_vec(self.entries[at].1.as_slice()))
        } else {
            proof {
                if self.store@.contains_key(key@) {
                    let i = choose|i: int|
                        0 <= i < self.entries@.len() && #[trigger] key_at(self.entries@, i)
                            == key@;
                    if i < at {
                        lemma_key_before_differs(key_at(self.entries@, i), key@);
                    } else {
                        lemma_key_before_differs(key@, key_at(self.entries@, i));
                    }
                }
            }
            None
        }
    }

    fn iterate_prefix(&self, prefix: &[u8]) -> (entries: Vec<(Vec<u8>, Vec<u8>)>) {
        proof {
            use_type_invariant(self);
        }
        let ghost store = self.store@;
        let mut found: Vec<(Vec<u8>, Vec<u8>)> = Vec::new();
        let mut i: usize = 0;
        while i < self.entries.len()
            invariant
                0 <= i <= self.entries@.len(),
                holds_exactly(self.entries@, store),
                ascending(self.entries@),
                forall|k: int|
                    0 <= k < found@.len() ==> {
                        &&& prefix@.is_prefix_of(#[trigger] key_at(found@, k))
                        &&& store.contains_key(key_at(found@, k))
                        &&& store[key_at(found@, k)] == value_at(found@, k)
                    },
                ascending(found@),
                forall|k: int, j: int|
                    0 <= k < found@.len() && i <= j < self.entries@.len() ==> key_before(
                        #[trigger] key_at(found@, k),
                        #[trigger] key_at(self.entries@, j),
                    ),
                forall|j: int|
                    0 <= j < i && prefix@.is_prefix_of(#[trigger] key_at(self.entries@, j))
                        ==> exists|k: int|
                        0 <= k < found@.len() && #[trigger] key_at(found@, k) == key_at(
                            self.entries@,
                            j,
                        ),
            decreases self.entries@.len() - i,
        {
            if starts_with(self.entries[i].0.as_slice(), prefix) {
                let key = slice_to_vec(self.entries[i].0.as_slice());
                let value = slice_to_vec(self.entries[i].1.as_slice());
                let ghost before = found@;
                found.push((key, value));
                proof {
                    let last = before.len() as int;
                    assert(key_at(found@, last) == key_at(self.entries@, i as int));
                    assert(value_at(found@, last) == value_at(self.entries@, i as int));
                    assert(prefix@.is_prefix_of(key_at(self.entries@, i as int)));
                    assert forall|k: int| 0 <= k < last implies #[trigger] key_at(found@, k)
                        == key_at(before, k) && value_at(found@, k) == value_at(before, k) by {
                        assert(found@[k] == before[k]);
                    }
                    assert forall|k: int| 0 <= k < found@.len() implies {
                        &&& prefix@.is_prefix_of(#[trigger] key_at(found@, k))
                        &&& store.contains_key(key_at(found@, k))
                        &&& store[key_at(found@, k)] == value_at(found@, k)
                    } by {
                        if k < last {
                            assert(key_at(found@, k) == key_at(before, k));
                        }
                    }
                    assert forall|k: int, j: int|
                        0 <= k < found@.len() && i + 1 <= j < self.entries@.len()
                        implies key_before(
                        #[trigger] key_at(found@, k),
                        #[trigger] key_at(self.entries@, j),
                    ) by {
                        if k < last {
                            assert(key_at(found@, k) == key_at(before, k));
                        } else {
                            assert(key_before(
                                key_at(self.entries@, i as int),
                                key_at(self.entries@, j),
                            ));
                        }
                    }
                    assert forall|k: int, l: int| 0 <= k < l < found@.len() implies key_before(
                        #[trigger] key_at(found@, k),
                        #[trigger] key_at(found@, l),
                    ) by {
                        assert(key_at(found@, k) == key_at(before, k));
                        if l < last {
                            assert(key_at(found@, l) == key_at(before, l));
                        } else {
                            assert(key_before(key_at(before, k), key_at(self.entries@, i as int)));
                        }
                    }
                    assert forall|j: int|
                        0 <= j < i + 1 && prefix@.is_prefix_of(
                            #[trigger] key_at(self.entries@, j),
                        ) implies exists|k: int|
                        0 <= k < found@.len() && #[trigger] key_at(found@, k) == key_at(
                            self.entries@,
                            j,
                        ) by {
                        if j < i {
                            let k = choose|k: int|
                                0 <= k < before.len() && #[trigger] key_at(before, k) == key_at(
                                    self.entries@,
                                    j,
                                );
                            assert(key_at(found@, k) == key_at(before, k));
                        } else {
                            assert(key_at(found@, last) == key_at(self.entries@, j));
                        }
                    }
                }
            }
            i += 1;
        }
        proof {
            lemma_ascending_is_distinct(found@);
            assert forall|key: Seq<u8>| #[trigger]
                store.contains_key(key) && prefix@.is_prefix_of(key) implies exists|k: int|
                0 <= k < found@.len() && #[trigger] key_at(found@, k) == key by {
                let j = choose|j: int|
                    0 <= j < self.entries@.len() && #[trigger] key_at(self.entries@, j) == key;
                assert(prefix@.is_prefix_of(key_at(self.entries@, j)));
            }
        }
        found
    }
}

/// A snapshot held in memory that can be read and not written.
pub struct ReadSnapshot {
    held: MemorySnapshot,
}

impl ReadableSnapshot for ReadSnapshot {
    closed spec fn contents(&self) -> Store {
        self.held.contents()
    }

    fn get(&self, key: &[u8]) -> (value: Option<Vec<u8>>) {
        self.held.get(key)
    }

    fn iterate_prefix(&self, prefix: &[u8]) -> (entries: Vec<(Vec<u8>, Vec<u8>)>) {
        self.held.iterate_prefix(prefix)
    }
}

impl WritableSnapshot for MemorySnapshot {
    fn put(&mut self, key: Vec<u8>) {
        self.put_val(key, Vec::new());
    }

    fn put_val(&mut self, key: Vec<u8>, value: Vec<u8>) {
        proof {
            use_type_invariant(&*self);
        }
        let (at, found) = self.position(key.as_slice());
        let mut taken = MemorySnapshot::new();
        std::mem::swap(self, &mut taken);
        let MemorySnapshot { entries, store } = taken;
        let mut entries = entries;
        let ghost before = entries@;
        let ghost after = store@.insert(key@, value@);
        if found {
            entries[at] = (key, value);
            proof {
                assert forall|i: int| 0 <= i < entries@.len() implies #[trigger] key_at(
                    entries@,
                    i,
                ) == key_at(before, i) && (i != at ==> value_at(entries@, i) == value_at(
                    before,
                    i,
                )) by {
                    if i != at {
                        assert(entries@[i] == before[i]);
                    }
                }
                assert forall|i: int| 0 <= i < entries@.len() implies {
                    &&& after.contains_key(#[trigger] key_at(entries@, i))
                    &&& after[key_at(entries@, i)] == value_at(entries@, i)
                } by {
                    assert(key_at(entries@, i) == key_at(before, i));
                    if i < at {
                        assert(key_at(before, i) != key_at(before, at as int));
                    }
                    if i > at {
                        assert(key_at(before, at as int) != key_at(before, i));
                    }
                }
                assert forall|i: int, j: int| 0 <= i < j < entries@.len() implies key_before(
                    #[trigger] key_at(entries@, i),
                    #[trigger] key_at(entries@, j),
                ) by {
                    assert(key_at(entries@, i) == key_at(before, i));
                    assert(key_at(entries@, j) == key_at(before, j));
                }
                assert forall|k: Seq<u8>| #[trigger] after.contains_key(k) implies exists|i: int|
                    0 <= i < entries@.len() && #[trigger] key_at(entries@, i) == k by {
                    if k == key@ {
                        assert(key_at(entries@, at as int) == k);
                    } else {
                        let i = choose|i: int|
                            0 <= i < before.len() && #[trigger] key_at(before, i) == k;
                        assert(key_at(entries@, i) == k);
                    }
                }
            }
        } else {
            entries.insert(at, (key, value));
            proof {
                let place = at as int;
                assert(key_at(entries@, place) == key@);
                assert(value_at(entries@, place) == value@);
                assert forall|i: int| 0 <= i < entries@.len() && i != place implies #[trigger] key_at(
                    entries@,
                    i,
                ) == key_at(before, unshifted(place, i)) && value_at(entries@, i) == value_at(
                    before,
                    unshifted(place, i),
                ) by {
                    assert(entries@[i] == before[unshifted(place, i)]);
                }
                assert forall|i: int, j: int| 0 <= i < j < entries@.len() implies key_before(
                    #[trigger] key_at(entries@, i),
                    #[trigger] key_at(entries@, j),
                ) by {
                    if i == place {
                        assert(key_at(entries@, j) == key_at(before, unshifted(place, j)));
                    } else if j == place {
                        assert(key_at(entries@, i) == key_at(before, unshifted(place, i)));
                    } else {
                        assert(key_at(entries@, i) == key_at(before, unshifted(place, i)));
                        assert(key_at(entries@, j) == key_at(before, unshifted(place, j)));
                    }
                }
                assert forall|i: int| 0 <= i < entries@.len() implies {
                    &&& after.contains_key(#[trigger] key_at(entries@, i))
                    &&& after[key_at(entries@, i)] == value_at(entries@, i)
                } by {
                    if i != place {
                        let o = unshifted(place, i);
                        assert(key_at(entries@, i) == key_at(before, o));
                        if o < place {
                            lemma_key_before_differs(key_at(before, o), key@);
                        } else {
                            lemma_key_before_differs(key@, key_at(before, o));
                        }
                    }
                }
                assert forall|k: Seq<u8>| #[trigger] after.contains_key(k) implies exists|i: int|
                    0 <= i < entries@.len() && #[trigger] key_at(entries@, i) == k by {
                    if k == key@ {
                        assert(key_at(entries@, place) == k);
                    } else {
                        let o = choose|o: int|
                            0 <= o < before.len() && #[trigger] key_at(before, o) == k;
                        let i = shifted(place, o);
                        assert(unshifted(place, i) == o);
                        assert(key_at(entries@, i) == k);
                    }
                }
            }
        }
        proof {
            lemma_ascending_is_distinct(entries@);
            assert(holds_exactly(entries@, after));
        }
        *self = MemorySnapshot { entries, store: Ghost(after) };
    }

    fn delete(&mut self, key: Vec<u8>) {
        proof {
            use_type_invariant(&*self);
        }
        let (at, found) = self.position(key.as_slice());
        let mut taken = MemorySnapshot::new();
        std::mem::swap(self, &mut taken);
        let MemorySnapshot { entries, store } = taken;
        let mut entries = entries;
        let ghost before = entries@;
        let ghost after = store@.remove(key@);
        if found {
            entries.remove(at);
            proof {
                let skip = at as int;
                assert forall|i: int| 0 <= i < entries@.len() implies #[trigger] key_at(
                    entries@,
                    i,
                ) == key_at(before, shifted(skip, i)) && value_at(entries@, i) == value_at(
                    before,
                    shifted(skip, i),
                ) by {
                    assert(entries@[i] == before[shifted(skip, i)]);
                }
                assert forall|i: int| 0 <= i < entries@.len() implies {
                    &&& after.contains_key(#[trigger] key_at(entries@, i))
                    &&& after[key_at(entries@, i)] == value_at(entries@, i)
                } by {
                    let o = shifted(skip, i);
                    assert(key_at(entries@, i) == key_at(before, o));
                    if o < skip {
                        assert(key_at(before, o) != key_at(before, skip));
                    } else {
                        assert(key_at(before, skip) != key_at(before, o));
                    }
                }
                assert forall|i: int, j: int| 0 <= i < j < entries@.len() implies key_before(
                    #[trigger] key_at(entries@, i),
                    #[trigger] key_at(entries@, j),
                ) by {
                    assert(key_at(entries@, i) == key_at(before, shifted(skip, i)));
                    assert(key_at(entries@, j) == key_at(before, shifted(skip, j)));
                }
                assert forall|k: Seq<u8>| #[trigger] after.contains_key(k) implies exists|i: int|
                    0 <= i < entries@.len() && #[trigger] key_at(entries@, i) == k by {
                    let o = choose|o: int|
                        0 <= o < before.len() && #[trigger] key_at(before, o) == k;
                    let i = unshifted(skip, o);
                    assert(shifted(skip, i) == o);
                    assert(key_at(entries@, i) == k);
                }
            }
        } else {
            proof {
                if store@.contains_key(key@) {
                    let i = choose|i: int|
                        0 <= i < before.len() && #[trigger] key_at(before, i) == key@;
                    if i < at {
                        lemma_key_before_differs(key_at(before, i), key@);
                    } else {
                        lemma_key_before_differs(key@, key_at(before, i));
                    }
                }
                assert(after =~= store@);
            }
        }
        proof {
            lemma_ascending_is_distinct(entries@);
            assert(holds_exactly(entries@, after));
        }
        *self = MemorySnapshot { entries, store: Ghost(after) };
    }
}

} // verus!
