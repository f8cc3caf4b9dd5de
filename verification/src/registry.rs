//! A keyed store for one kind of record. Records are found by their identifier
//! and walked in the order of their identifiers, which is the order of the
//! identifiers' UTF-8 bytes.

use vstd::prelude::*;
use vstd::seq_lib::*;
use vstd::string::*;
use vstd::utf8::*;

verus! {

/// Whether `a` comes before `b` when the two are held byte by byte: at the first
/// place where they differ `a` has the smaller byte, or `a` ends there and `b` does not.
pub open spec fn bytes_lt(a: Seq<u8>, b: Seq<u8>) -> bool
    decreases a.len(),
{
    if b.len() == 0 {
        false
    } else if a.len() == 0 {
        true
    } else if a[0] != b[0] {
        a[0] < b[0]
    } else {
        bytes_lt(a.drop_first(), b.drop_first())
    }
}

/// The order of identifiers: that of their UTF-8 bytes.
pub open spec fn key_lt(a: Seq<char>, b: Seq<char>) -> bool {
    bytes_lt(encode_utf8(a), encode_utf8(b))
}

/// Nothing comes before itself.
pub proof fn lemma_bytes_lt_irreflexive(a: Seq<u8>)
    ensures
        !bytes_lt(a, a),
    decreases a.len(),
{
    if a.len() > 0 {
        lemma_bytes_lt_irreflexive(a.drop_first());
    }
}

/// What comes before something that comes before a third comes before the third.
pub proof fn lemma_bytes_lt_transitive(a: Seq<u8>, b: Seq<u8>, c: Seq<u8>)
    requires
        bytes_lt(a, b),
        bytes_lt(b, c),
    ensures
        bytes_lt(a, c),
    decreases a.len(),
{
    if a.len() > 0 && a[0] == b[0] && b[0] == c[0] {
        lemma_bytes_lt_transitive(a.drop_first(), b.drop_first(), c.drop_first());
    }
}

/// Of two byte strings one comes before the other, or they are the same.
pub proof fn lemma_bytes_lt_total(a: Seq<u8>, b: Seq<u8>)
    ensures
        bytes_lt(a, b) || bytes_lt(b, a) || a == b,
    decreases a.len(),
{
    if a.len() > 0 && b.len() > 0 && a[0] == b[0] {
        lemma_bytes_lt_total(a.drop_first(), b.drop_first());
        if a.drop_first() == b.drop_first() {
            assert(a =~= seq![a[0]] + a.drop_first());
            assert(b =~= seq![b[0]] + b.drop_first());
        }
    } else if a.len() == 0 && b.len() == 0 {
        assert(a =~= b);
    }
}

/// No identifier comes before itself.
pub proof fn lemma_key_lt_irreflexive(a: Seq<char>)
    ensures
        !key_lt(a, a),
{
    lemma_bytes_lt_irreflexive(encode_utf8(a));
}

/// The order of identifiers is transitive.
pub proof fn lemma_key_lt_transitive(a: Seq<char>, b: Seq<char>, c: Seq<char>)
    requires
        key_lt(a, b),
        key_lt(b, c),
    ensures
        key_lt(a, c),
{
    lemma_bytes_lt_transitive(encode_utf8(a), encode_utf8(b), encode_utf8(c));
}

/// Of two identifiers one comes before the other, or they are the same.
pub proof fn lemma_key_lt_total(a: Seq<char>, b: Seq<char>)
    ensures
        key_lt(a, b) || key_lt(b, a) || a == b,
{
    lemma_bytes_lt_total(encode_utf8(a), encode_utf8(b));
    if encode_utf8(a) == encode_utf8(b) {
        encode_utf8_decode_utf8(a);
        encode_utf8_decode_utf8(b);
    }
}

/// Whether the identifiers stand in strictly ascending order.
pub open spec fn ascending(keys: Seq<Seq<char>>) -> bool {
    forall|i: int, j: int| 0 <= i < j < keys.len() ==> key_lt(#[trigger] keys[i], #[trigger] keys[j])
}

/// Where `key` belongs among ascending `keys`: behind the last one that comes before it.
pub open spec fn rank(keys: Seq<Seq<char>>, key: Seq<char>) -> int
    decreases keys.len(),
{
    if keys.len() == 0 {
        0
    } else if key_lt(keys.last(), key) {
        keys.len() as int
    } else {
        rank(keys.drop_last(), key)
    }
}

/// Whether `at` parts `keys` into those that come before `key` and those that do not.
pub open spec fn parts_at(keys: Seq<Seq<char>>, key: Seq<char>, at: int) -> bool {
    &&& 0 <= at <= keys.len()
    &&& forall|j: int| 0 <= j < at ==> key_lt(#[trigger] keys[j], key)
    &&& forall|j: int| at <= j < keys.len() ==> !key_lt(#[trigger] keys[j], key)
}

/// Among ascending identifiers the rank of `key` parts them, and nothing else does.
pub proof fn lemma_rank(keys: Seq<Seq<char>>, key: Seq<char>)
    requires
        ascending(keys),
    ensures
        parts_at(keys, key, rank(keys, key)),
        forall|at: int| parts_at(keys, key, at) ==> at == rank(keys, key),
    decreases keys.len(),
{
    if keys.len() == 0 {
    } else if key_lt(keys.last(), key) {
        assert forall|j: int| 0 <= j < keys.len() implies key_lt(#[trigger] keys[j], key) by {
            if j < keys.len() - 1 {
                lemma_key_lt_transitive(keys[j], keys.last(), key);
            }
        }
    } else {
        let front = keys.drop_last();
        assert forall|i: int, j: int| 0 <= i < j < front.len() implies key_lt(
            #[trigger] front[i],
            #[trigger] front[j],
        ) by {
            assert(front[i] == keys[i] && front[j] == keys[j]);
        }
        lemma_rank(front, key);
        let r = rank(front, key);
        assert forall|j: int| 0 <= j < r implies key_lt(#[trigger] keys[j], key) by {
            assert(keys[j] == front[j]);
        }
        assert forall|j: int| r <= j < keys.len() implies !key_lt(#[trigger] keys[j], key) by {
            if j < front.len() {
                assert(keys[j] == front[j]);
            }
        }
    }
    let r = rank(keys, key);
    assert forall|at: int| parts_at(keys, key, at) implies at == r by {
        if at < r {
            assert(key_lt(keys[at], key));
            assert(!key_lt(keys[at], key));
        } else if r < at {
            assert(key_lt(keys[r], key));
            assert(!key_lt(keys[r], key));
        }
    }
}

/// What a registry holds: the record under each identifier, and the identifiers
/// in the order in which the registry is walked.
pub struct RegistryView<V> {
    pub map: Map<Seq<char>, V>,
    pub keys: Seq<Seq<char>>,
}

impl<V> RegistryView<V> {
    /// The identifiers are in strictly ascending order and are those that have a record.
    pub open spec fn wf(self) -> bool {
        &&& ascending(self.keys)
        &&& forall|k: Seq<char>| self.map.contains_key(k) <==> self.keys.contains(k)
    }

    /// The registry without any record.
    pub open spec fn empty() -> Self {
        RegistryView { map: Map::empty(), keys: Seq::empty() }
    }

    /// Whether there is a record under `key`.
    pub open spec fn contains_key(self, key: Seq<char>) -> bool {
        self.map.contains_key(key)
    }

    /// The record under `key`, if there is one.
    pub open spec fn get(self, key: Seq<char>) -> Option<V> {
        if self.map.contains_key(key) {
            Some(self.map[key])
        } else {
            None
        }
    }

    /// The registry with `value` under `key`, in place of what was there.
    pub open spec fn put(self, key: Seq<char>, value: V) -> Self {
        RegistryView {
            map: self.map.insert(key, value),
            keys: if self.map.contains_key(key) {
                self.keys
            } else {
                self.keys.insert(rank(self.keys, key), key)
            },
        }
    }

    /// The registry without the record under `key`.
    pub open spec fn without(self, key: Seq<char>) -> Self {
        RegistryView {
            map: self.map.remove(key),
            keys: if self.map.contains_key(key) {
                self.keys.remove(self.keys.index_of(key))
            } else {
                self.keys
            },
        }
    }

    /// How many records there are.
    pub open spec fn len(self) -> nat {
        self.keys.len()
    }

    /// The record at place `i` of the walk.
    pub open spec fn value_at(self, i: int) -> V {
        self.map[self.keys[i]]
    }

    /// The records in the order in which the registry is walked.
    pub open spec fn values(self) -> Seq<V> {
        Seq::new(self.keys.len(), |i: int| self.map[self.keys[i]])
    }

    /// Placing a record keeps the registry well formed.
    pub proof fn lemma_put_wf(self, key: Seq<char>, value: V)
        requires
            self.wf(),
        ensures
            self.put(key, value).wf(),
    {
        let after = self.put(key, value);
        if self.map.contains_key(key) {
            assert forall|k: Seq<char>| after.map.contains_key(k) <==> after.keys.contains(k) by {
            }
        } else {
            lemma_rank(self.keys, key);
            let r = rank(self.keys, key);
            assert forall|i: int, j: int| 0 <= i < j < after.keys.len() implies key_lt(
                #[trigger] after.keys[i],
                #[trigger] after.keys[j],
            ) by {
                if j < r {
                    assert(after.keys[i] == self.keys[i] && after.keys[j] == self.keys[j]);
                } else if j == r {
                    assert(after.keys[i] == self.keys[i]);
                } else if i < r {
                    assert(after.keys[i] == self.keys[i] && after.keys[j] == self.keys[j - 1]);
                    if j - 1 > i {
                    } else {
                    }
                    lemma_key_lt_total(self.keys[j - 1], key);
                    assert(self.keys.contains(self.keys[j - 1]));
                    lemma_key_lt_transitive(self.keys[i], key, self.keys[j - 1]);
                } else if i == r {
                    assert(after.keys[j] == self.keys[j - 1]);
                    lemma_key_lt_total(self.keys[j - 1], key);
                    assert(self.keys.contains(self.keys[j - 1]));
                } else {
                    assert(after.keys[i] == self.keys[i - 1] && after.keys[j] == self.keys[j - 1]);
                }
            }
            assert forall|k: Seq<char>| after.map.contains_key(k) <==> after.keys.contains(k) by {
                if after.keys.contains(k) {
                    let i = choose|i: int| 0 <= i < after.keys.len() && after.keys[i] == k;
                    if i < r {
                        assert(self.keys.contains(self.keys[i]));
                    } else if i > r {
                        assert(self.keys.contains(self.keys[i - 1]));
                    }
                }
                if after.map.contains_key(k) {
                    if k == key {
                        assert(after.keys[r] == key);
                    } else {
                        assert(self.keys.contains(k));
                        let i = choose|i: int| 0 <= i < self.keys.len() && self.keys[i] == k;
                        if i < r {
                            assert(after.keys[i] == k);
                        } else {
                            assert(after.keys[i + 1] == k);
                        }
                    }
                }
            }
        }
    }

    /// Taking a record away keeps the registry well formed.
    pub proof fn lemma_without_wf(self, key: Seq<char>)
        requires
            self.wf(),
        ensures
            self.without(key).wf(),
    {
        let after = self.without(key);
        if self.map.contains_key(key) {
            assert(self.keys.contains(key));
            let at = self.keys.index_of(key);
            self.lemma_keys_distinct();
            assert forall|i: int, j: int| 0 <= i < j < after.keys.len() implies key_lt(
                #[trigger] after.keys[i],
                #[trigger] after.keys[j],
            ) by {
                let a = if i < at {
                    i
                } else {
                    i + 1
                };
                let b = if j < at {
                    j
                } else {
                    j + 1
                };
                assert(after.keys[i] == self.keys[a] && after.keys[j] == self.keys[b]);
            }
            assert forall|k: Seq<char>| after.map.contains_key(k) <==> after.keys.contains(k) by {
                if after.keys.contains(k) {
                    let i = choose|i: int| 0 <= i < after.keys.len() && after.keys[i] == k;
                    let a = if i < at {
                        i
                    } else {
                        i + 1
                    };
                    assert(self.keys[a] == k);
                    assert(self.keys.contains(k));
                }
                if after.map.contains_key(k) {
                    assert(self.keys.contains(k));
                    let a = choose|a: int| 0 <= a < self.keys.len() && self.keys[a] == k;
                    if a < at {
                        assert(after.keys[a] == k);
                    } else {
                        assert(after.keys[a - 1] == k);
                    }
                }
            }
        }
    }

    /// Every record in the walk is the record under its identifier, and every
    /// record under an identifier is met in the walk.
    pub proof fn lemma_values(self)
        requires
            self.wf(),
        ensures
            self.values().len() == self.keys.len(),
            forall|i: int|
                0 <= i < self.keys.len() ==> self.map.contains_key(#[trigger] self.keys[i])
                    && self.values()[i] == self.map[self.keys[i]],
            forall|k: Seq<char>| #[trigger]
                self.map.contains_key(k) ==> 0 <= self.keys.index_of(k) < self.keys.len()
                    && self.keys[self.keys.index_of(k)] == k,
    {
        assert forall|i: int| 0 <= i < self.keys.len() implies self.map.contains_key(
            #[trigger] self.keys[i],
        ) by {
            assert(self.keys.contains(self.keys[i]));
        }
        assert forall|k: Seq<char>| #[trigger] self.map.contains_key(k) implies 0
            <= self.keys.index_of(k) < self.keys.len() && self.keys[self.keys.index_of(k)] == k by {
            assert(self.keys.contains(k));
        }
    }

    /// No identifier stands at two places of the walk.
    pub proof fn lemma_keys_distinct(self)
        requires
            self.wf(),
        ensures
            forall|i: int, j: int|
                0 <= i < self.keys.len() && 0 <= j < self.keys.len() && #[trigger] self.keys[i]
                    == #[trigger] self.keys[j] ==> i == j,
    {
        assert forall|i: int, j: int|
            0 <= i < self.keys.len() && 0 <= j < self.keys.len() && #[trigger] self.keys[i]
                == #[trigger] self.keys[j] implies i == j by {
            lemma_key_lt_irreflexive(self.keys[i]);
        }
    }
}

/// Walking one record further: the records taken so far that meet `pred` are
/// those of the walk before, and the next record where it meets `pred`.
pub proof fn lemma_filter_step<A>(values: Seq<A>, i: int, pred: spec_fn(A) -> bool)
    requires
        0 <= i < values.len(),
    ensures
        values.take(i + 1).filter(pred) == if pred(values[i]) {
            values.take(i).filter(pred).push(values[i])
        } else {
            values.take(i).filter(pred)
        },
{
    values.lemma_take_succ_push(i);
    values.take(i).lemma_filter_push(values[i], pred);
}

/// Before the walk begins no record is taken, and at its end all are.
pub proof fn lemma_filter_ends<A>(values: Seq<A>, pred: spec_fn(A) -> bool)
    ensures
        values.take(0).filter(pred) == Seq::<A>::empty(),
        values.take(values.len() as int) == values,
{
    reveal(Seq::filter);
    assert(values.take(0) =~= Seq::<A>::empty());
    assert(values.take(values.len() as int) =~= values);
}

/// Whether identifier `a` comes before identifier `b`.
pub fn key_less(a: &str, b: &str) -> (r: bool)
    ensures
        r == key_lt(a@, b@),
{
    let x = a.as_bytes();
    let y = b.as_bytes();
    let mut i: usize = 0;
    assert(x@.skip(0) =~= x@ && y@.skip(0) =~= y@);
    loop
        invariant
            i <= x@.len(),
            i <= y@.len(),
            x@ == encode_utf8(a@),
            y@ == encode_utf8(b@),
            bytes_lt(x@, y@) == bytes_lt(x@.skip(i as int), y@.skip(i as int)),
        decreases x@.len() - i,
    {
        proof {
            if i < x@.len() && i < y@.len() {
                assert(x@.skip(i as int).drop_first() =~= x@.skip(i + 1));
                assert(y@.skip(i as int).drop_first() =~= y@.skip(i + 1));
            }
        }
        if i >= y.len() {
            return false;
        }
        if i >= x.len() {
            return true;
        }
        if x[i] != y[i] {
            return x[i] < y[i];
        }
        i += 1;
    }
}

/// One record with its identifier.
struct Entry<V> {
    key: String,
    value: V,
}

/// A keyed store for records of one kind.
pub struct Registry<V> {
    entries: Vec<Entry<V>>,
}

/// Whether the entries stand in strictly ascending order of their identifiers.
spec fn sorted<V>(entries: Seq<Entry<V>>) -> bool {
    forall|i: int, j: int|
        0 <= i < j < entries.len() ==> key_lt(#[trigger] entries[i].key@, #[trigger] entries[j].key@)
}

/// Whether some entry has the identifier `k`.
spec fn holds<V>(entries: Seq<Entry<V>>, k: Seq<char>) -> bool {
    exists|i: int| 0 <= i < entries.len() && #[trigger] entries[i].key@ == k
}

/// The place of an entry that has the identifier `k`.
spec fn place<V>(entries: Seq<Entry<V>>, k: Seq<char>) -> int {
    choose|i: int| 0 <= i < entries.len() && #[trigger] entries[i].key@ == k
}

/// What a sequence of entries holds.
spec fn model<V: View>(entries: Seq<Entry<V>>) -> RegistryView<V::V> {
    RegistryView {
        map: Map::new(|k: Seq<char>| holds(entries, k), |k: Seq<char>| entries[place(entries, k)].value@),
        keys: Seq::new(entries.len(), |i: int| entries[i].key@),
    }
}

/// In ascending entries the place of an entry's identifier is the entry's own.
proof fn lemma_place<V>(entries: Seq<Entry<V>>, i: int)
    requires
        sorted(entries),
        0 <= i < entries.len(),
    ensures
        holds(entries, entries[i].key@),
        place(entries, entries[i].key@) == i,
{
    let k = entries[i].key@;
    let j = place(entries, k);
    lemma_key_lt_irreflexive(k);
    if i < j {
        assert(key_lt(entries[i].key@, entries[j].key@));
    } else if j < i {
        assert(key_lt(entries[j].key@, entries[i].key@));
    }
}

/// What ascending entries hold is well formed, and holds each entry under its identifier.
proof fn lemma_model<V: View>(entries: Seq<Entry<V>>)
    requires
        sorted(entries),
    ensures
        model(entries).wf(),
        model(entries).keys.len() == entries.len(),
        forall|i: int|
            0 <= i < entries.len() ==> #[trigger] model(entries).keys[i] == entries[i].key@,
        forall|i: int|
            0 <= i < entries.len() ==> model(entries).map.contains_key(#[trigger] entries[i].key@)
                && model(entries).map[entries[i].key@] == entries[i].value@,
        forall|k: Seq<char>| #[trigger] model(entries).map.contains_key(k) == holds(entries, k),
{
    let v = model::<V>(entries);
    assert forall|i: int, j: int| 0 <= i < j < v.keys.len() implies key_lt(
        #[trigger] v.keys[i],
        #[trigger] v.keys[j],
    ) by {
        assert(key_lt(entries[i].key@, entries[j].key@));
    }
    assert forall|k: Seq<char>| v.map.contains_key(k) <==> v.keys.contains(k) by {
        if v.keys.contains(k) {
            let i = choose|i: int| 0 <= i < v.keys.len() && v.keys[i] == k;
            assert(entries[i].key@ == k);
        }
        if v.map.contains_key(k) {
            let i = place(entries, k);
            assert(v.keys[i] == k);
        }
    }
    assert forall|i: int| 0 <= i < entries.len() implies v.map.contains_key(
        #[trigger] entries[i].key@,
    ) && v.map[entries[i].key@] == entries[i].value@ by {
        lemma_place(entries, i);
    }
}

/// Putting a new value under the identifier of the entry at `at` is placing it in the model.
proof fn lemma_model_update<V: View>(entries: Seq<Entry<V>>, at: int, fresh: Entry<V>)
    requires
        sorted(entries),
        0 <= at < entries.len(),
        entries[at].key@ == fresh.key@,
    ensures
        sorted(entries.update(at, fresh)),
        model(entries).map.contains_key(fresh.key@),
        model(entries).map[fresh.key@] == entries[at].value@,
        model(entries.update(at, fresh)) == model(entries).put(fresh.key@, fresh.value@),
{
    let next = entries.update(at, fresh);
    assert forall|i: int, j: int| 0 <= i < j < next.len() implies key_lt(
        #[trigger] next[i].key@,
        #[trigger] next[j].key@,
    ) by {
        assert(key_lt(entries[i].key@, entries[j].key@));
    }
    lemma_model(entries);
    lemma_model(next);
    let after = model::<V>(next);
    let want = model::<V>(entries).put(fresh.key@, fresh.value@);
    assert(after.keys =~= want.keys);
    assert forall|k: Seq<char>| after.map.contains_key(k) == want.map.contains_key(k) by {
        if holds(next, k) {
            let i = place(next, k);
            assert(entries[i].key@ == k);
        }
        if holds(entries, k) {
            let i = place(entries, k);
            assert(next[i].key@ == k);
        }
    }
    assert forall|k: Seq<char>| after.map.contains_key(k) implies after.map[k] == want.map[k] by {
        let i = place(next, k);
        lemma_place(next, i);
        lemma_place(entries, i);
        assert(after.map[next[i].key@] == next[i].value@);
        assert(model::<V>(entries).map[entries[i].key@] == entries[i].value@);
        if i != at {
            lemma_place(next, at);
        }
    }
    assert(after.map =~= want.map);
}

/// Setting a new entry in at the rank of its identifier is placing it in the model.
proof fn lemma_model_insert<V: View>(entries: Seq<Entry<V>>, at: int, fresh: Entry<V>)
    requires
        sorted(entries),
        0 <= at <= entries.len(),
        forall|j: int| 0 <= j < at ==> key_lt(#[trigger] entries[j].key@, fresh.key@),
        at < entries.len() ==> !key_lt(entries[at].key@, fresh.key@) && entries[at].key@
            != fresh.key@,
    ensures
        sorted(entries.insert(at, fresh)),
        !model(entries).map.contains_key(fresh.key@),
        model(entries.insert(at, fresh)) == model(entries).put(fresh.key@, fresh.value@),
{
    let key = fresh.key@;
    let next = entries.insert(at, fresh);
    lemma_model(entries);
    lemma_key_lt_irreflexive(key);
    assert forall|j: int| at <= j < entries.len() implies key_lt(key, #[trigger] entries[j].key@) by {
        lemma_key_lt_total(entries[at].key@, key);
        if j > at {
            assert(key_lt(entries[at].key@, entries[j].key@));
            lemma_key_lt_transitive(key, entries[at].key@, entries[j].key@);
        }
    }
    assert forall|j: int| at <= j < entries.len() implies !key_lt(
        #[trigger] model::<V>(entries).keys[j],
        key,
    ) by {
        assert(key_lt(key, entries[j].key@));
        if key_lt(entries[j].key@, key) {
            lemma_key_lt_transitive(key, entries[j].key@, key);
        }
    }
    assert forall|j: int| 0 <= j < at implies key_lt(#[trigger] model::<V>(entries).keys[j], key) by {
        assert(key_lt(entries[j].key@, key));
    }
    assert(parts_at(model::<V>(entries).keys, key, at));
    lemma_rank(model::<V>(entries).keys, key);
    if holds(entries, key) {
        let j = place(entries, key);
        if j < at {
            assert(key_lt(entries[j].key@, key));
        } else {
            assert(key_lt(key, entries[j].key@));
        }
    }
    assert forall|i: int, j: int| 0 <= i < j < next.len() implies key_lt(
        #[trigger] next[i].key@,
        #[trigger] next[j].key@,
    ) by {
        if j < at {
            assert(key_lt(entries[i].key@, entries[j].key@));
        } else if j == at {
            assert(key_lt(entries[i].key@, key));
        } else if i < at {
            assert(next[i] == entries[i] && next[j] == entries[j - 1]);
            assert(key_lt(key, entries[j - 1].key@));
            lemma_key_lt_transitive(entries[i].key@, key, entries[j - 1].key@);
        } else if i == at {
            assert(next[j] == entries[j - 1]);
            assert(key_lt(key, entries[j - 1].key@));
        } else {
            assert(next[i] == entries[i - 1] && next[j] == entries[j - 1]);
            assert(key_lt(entries[i - 1].key@, entries[j - 1].key@));
        }
    }
    lemma_model(next);
    let after = model::<V>(next);
    let want = model::<V>(entries).put(key, fresh.value@);
    assert(after.keys =~= want.keys);
    assert forall|k: Seq<char>| after.map.contains_key(k) == want.map.contains_key(k) by {
        if holds(next, k) && k != key {
            let i = place(next, k);
            if i < at {
                assert(entries[i].key@ == k);
            } else {
                assert(entries[i - 1].key@ == k);
            }
        }
        if holds(entries, k) {
            let i = place(entries, k);
            if i < at {
                assert(next[i].key@ == k);
            } else {
                assert(next[i + 1].key@ == k);
            }
        }
        if k == key {
            assert(next[at].key@ == k);
        }
    }
    assert forall|k: Seq<char>| after.map.contains_key(k) implies after.map[k] == want.map[k] by {
        let i = place(next, k);
        lemma_place(next, i);
        assert(after.map[next[i].key@] == next[i].value@);
        if i < at {
            assert(model::<V>(entries).map[entries[i].key@] == entries[i].value@);
        } else if i > at {
            assert(model::<V>(entries).map[entries[i - 1].key@] == entries[i - 1].value@);
        }
    }
    assert(after.map =~= want.map);
}

/// Taking the entry at `at` out is taking its record away in the model.
proof fn lemma_model_remove<V: View>(entries: Seq<Entry<V>>, at: int)
    requires
        sorted(entries),
        0 <= at < entries.len(),
    ensures
        sorted(entries.remove(at)),
        model(entries).map.contains_key(entries[at].key@),
        model(entries).map[entries[at].key@] == entries[at].value@,
        model(entries.remove(at)) == model(entries).without(entries[at].key@),
{
    let key = entries[at].key@;
    let next = entries.remove(at);
    lemma_model(entries);
    lemma_place(entries, at);
    assert forall|i: int, j: int| 0 <= i < j < next.len() implies key_lt(
        #[trigger] next[i].key@,
        #[trigger] next[j].key@,
    ) by {
        let a = if i < at {
            i
        } else {
            i + 1
        };
        let b = if j < at {
            j
        } else {
            j + 1
        };
        assert(next[i] == entries[a] && next[j] == entries[b]);
        assert(key_lt(entries[a].key@, entries[b].key@));
    }
    lemma_model(next);
    let before = model::<V>(entries);
    let after = model::<V>(next);
    let want = before.without(key);
    before.lemma_keys_distinct();
    assert(before.keys[at] == key);
    assert(before.keys.contains(key));
    assert(before.keys.index_of(key) == at);
    assert(after.keys =~= want.keys);
    lemma_key_lt_irreflexive(key);
    assert forall|k: Seq<char>| after.map.contains_key(k) == want.map.contains_key(k) by {
        if holds(next, k) {
            let i = place(next, k);
            let a = if i < at {
                i
            } else {
                i + 1
            };
            assert(entries[a].key@ == k);
            if k == key {
                lemma_place(entries, a);
            }
        }
        if holds(entries, k) && k != key {
            let a = place(entries, k);
            if a < at {
                assert(next[a].key@ == k);
            } else {
                assert(next[a - 1].key@ == k);
            }
        }
    }
    assert forall|k: Seq<char>| after.map.contains_key(k) implies after.map[k] == want.map[k] by {
        let i = place(next, k);
        lemma_place(next, i);
        let a = if i < at {
            i
        } else {
            i + 1
        };
        assert(next[i] == entries[a]);
        assert(after.map[next[i].key@] == next[i].value@);
        assert(before.map[entries[a].key@] == entries[a].value@);
    }
    assert(after.map =~= want.map);
}

/// The place of the first entry whose identifier does not come before `key`,
/// found by halving: all entries before it come before `key`, and none from it on does.
fn first_not_before<V>(entries: &Vec<Entry<V>>, key: &String) -> (at: usize)
    requires
        sorted(entries@),
    ensures
        at <= entries@.len(),
        forall|j: int| 0 <= j < at ==> key_lt(#[trigger] entries@[j].key@, key@),
        forall|j: int| at <= j < entries@.len() ==> !key_lt(#[trigger] entries@[j].key@, key@),
{
    let mut low: usize = 0;
    let mut high: usize = entries.len();
    while low < high
        invariant
            low <= high <= entries@.len(),
            sorted(entries@),
            forall|j: int| 0 <= j < low ==> key_lt(#[trigger] entries@[j].key@, key@),
            forall|j: int| high <= j < entries@.len() ==> !key_lt(#[trigger] entries@[j].key@, key@),
        decreases high - low,
    {
        let mid = low + (high - low) / 2;
        if key_less(entries[mid].key.as_str(), key.as_str()) {
            proof {
                assert forall|j: int| 0 <= j < mid + 1 implies key_lt(
                    #[trigger] entries@[j].key@,
                    key@,
                ) by {
                    if j < mid {
                        assert(key_lt(entries@[j].key@, entries@[mid as int].key@));
                        lemma_key_lt_transitive(entries@[j].key@, entries@[mid as int].key@, key@);
                    }
                }
            }
            low = mid + 1;
        } else {
            proof {
                assert forall|j: int| mid <= j < entries@.len() implies !key_lt(
                    #[trigger] entries@[j].key@,
                    key@,
                ) by {
                    if j > mid && key_lt(entries@[j].key@, key@) {
                        assert(key_lt(entries@[mid as int].key@, entries@[j].key@));
                        lemma_key_lt_transitive(entries@[mid as int].key@, entries@[j].key@, key@);
                    }
                }
            }
            high = mid;
        }
    }
    low
}

impl<V: View> View for Registry<V> {
    type V = RegistryView<V::V>;

    closed spec fn view(&self) -> RegistryView<V::V> {
        if sorted(self.entries@) {
            model(self.entries@)
        } else {
            RegistryView::empty()
        }
    }
}

impl<V> Registry<V> {
    #[verifier::type_invariant]
    spec fn well_formed(&self) -> bool {
        sorted(self.entries@)
    }
}

impl<V: View> Registry<V> {
    /// What a registry holds is well formed.
    pub proof fn lemma_wf(&self)
        ensures
            self@.wf(),
    {
        if sorted(self.entries@) {
            lemma_model(self.entries@);
        }
    }

    /// A registry without any record.
    pub fn new() -> (r: Registry<V>)
        ensures
            r@ == RegistryView::<V::V>::empty(),
    {
        let r = Registry { entries: Vec::new() };
        assert(r@.map =~= Map::empty());
        assert(r@.keys =~= Seq::empty());
        r
    }

    /// How many records there are.
    pub fn len(&self) -> (r: u64)
        ensures
            r == self@.len(),
            self@.wf(),
    {
        proof {
            use_type_invariant(self);
            lemma_model(self.entries@);
        }
        self.entries.len() as u64
    }

    /// How many records there are, as an index.
    pub fn count(&self) -> (r: usize)
        ensures
            r == self@.len(),
            self@.wf(),
    {
        proof {
            use_type_invariant(self);
            lemma_model(self.entries@);
        }
        self.entries.len()
    }

    /// Whether there is no record.
    pub fn is_empty(&self) -> (r: bool)
        ensures
            r == (self@.len() == 0),
            self@.wf(),
    {
        proof {
            use_type_invariant(self);
            lemma_model(self.entries@);
        }
        self.entries.len() == 0
    }

    fn position(&self, key: &String) -> (r: Option<usize>)
        ensures
            match r {
                Some(i) => i < self.entries@.len() && self.entries@[i as int].key@ == key@,
                None => !holds(self.entries@, key@),
            },
    {
        proof {
            use_type_invariant(self);
        }
        let at = first_not_before(&self.entries, key);
        if at < self.entries.len() && self.entries[at].key == *key {
            Some(at)
        } else {
            proof {
                lemma_key_lt_irreflexive(key@);
                if holds(self.entries@, key@) {
                    let j = place(self.entries@, key@);
                    if j > at {
                        assert(key_lt(self.entries@[at as int].key@, self.entries@[j].key@));
                    }
                }
            }
            None
        }
    }

    /// Whether there is a record under `key`.
    pub fn contains_key(&self, key: &String) -> (r: bool)
        ensures
            r == self@.contains_key(key@),
            self@.wf(),
    {
        proof {
            use_type_invariant(self);
            lemma_model(self.entries@);
        }
        self.position(key).is_some()
    }

    /// The record under `key`, if there is one.
    pub fn get(&self, key: &String) -> (r: Option<&V>)
        ensures
            self@.wf(),
            r is Some == self@.contains_key(key@),
            r matches Some(v) ==> v@ == self@.map[key@],
    {
        proof {
            use_type_invariant(self);
            lemma_model(self.entries@);
        }
        match self.position(key) {
            Some(i) => Some(&self.entries[i].value),
            None => None,
        }
    }

    /// The identifier at place `i` of the walk.
    pub fn key_at(&self, i: usize) -> (r: &String)
        requires
            i < self@.len(),
        ensures
            r@ == self@.keys[i as int],
            self@.wf(),
    {
        proof {
            use_type_invariant(self);
            lemma_model(self.entries@);
        }
        &self.entries[i].key
    }

    /// The record at place `i` of the walk.
    pub fn value_at(&self, i: usize) -> (r: &V)
        requires
            i < self@.len(),
        ensures
            r@ == self@.value_at(i as int),
            self@.contains_key(self@.keys[i as int]),
            self@.wf(),
    {
        proof {
            use_type_invariant(self);
            lemma_model(self.entries@);
            assert(self@.keys[i as int] == self.entries@[i as int].key@);
        }
        &self.entries[i].value
    }

    /// Takes the record under `key` away and hands it back, if there is one.
    pub fn remove(&mut self, key: &String) -> (r: Option<V>)
        ensures
            final(self)@ == old(self)@.without(key@),
            final(self)@.wf(),
            r is Some == old(self)@.contains_key(key@),
            r matches Some(v) ==> v@ == old(self)@.map[key@],
    {
        proof {
            use_type_invariant(&*self);
            lemma_model(self.entries@);
        }
        match self.position(key) {
            Some(at) => {
                let mut entries: Vec<Entry<V>> = Vec::new();
                std::mem::swap(&mut self.entries, &mut entries);
                proof {
                    lemma_model_remove(entries@, at as int);
                }
                let entry = entries.remove(at);
                proof {
                    lemma_model(entries@);
                }
                std::mem::swap(&mut self.entries, &mut entries);
                Some(entry.value)
            },
            None => {
                assert(self@.without(key@).map =~= self@.map);
                None
            },
        }
    }

    /// Places `value` under `key` and hands back what was there.
    pub fn insert(&mut self, key: String, value: V) -> (r: Option<V>)
        ensures
            final(self)@ == old(self)@.put(key@, value@),
            final(self)@.wf(),
            r is Some == old(self)@.contains_key(key@),
            r matches Some(v) ==> v@ == old(self)@.map[key@],
    {
        proof {
            use_type_invariant(&*self);
        }
        let mut entries: Vec<Entry<V>> = Vec::new();
        std::mem::swap(&mut self.entries, &mut entries);
        let at = first_not_before(&entries, &key);
        let found = at < entries.len() && entries[at].key == key;
        let mut entry = Entry { key, value };
        let ghost fresh = entry;
        let ghost was = entries@;
        let previous = if found {
            proof {
                lemma_model_update(was, at as int, fresh);
            }
            std::mem::swap(&mut entries[at], &mut entry);
            assert(entries@ =~= was.update(at as int, fresh));
            Some(entry.value)
        } else {
            proof {
                lemma_model_insert(was, at as int, fresh);
            }
            entries.insert(at, entry);
            None
        };
        proof {
            lemma_model(entries@);
        }
        std::mem::swap(&mut self.entries, &mut entries);
        previous
    }
}

} // verus!
