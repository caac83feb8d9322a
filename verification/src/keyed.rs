//! Sequences of records with distinct text keys, read as maps, and the
//! lexicographic order on texts that keyset pagination uses.
use vstd::prelude::*;

verus! {

/// No two records of `s` have the same key.
pub open spec fn distinct_keys<V>(s: Seq<V>, key: spec_fn(V) -> Seq<char>) -> bool {
    forall|i: int, j: int| 0 <= i < j < s.len() ==> key(#[trigger] s[i]) != key(#[trigger] s[j])
}

/// Whether some record of `s` has key `k`.
pub open spec fn has_key<V>(s: Seq<V>, key: spec_fn(V) -> Seq<char>, k: Seq<char>) -> bool {
    exists|i: int| 0 <= i < s.len() && key(#[trigger] s[i]) == k
}

/// The records of `s`, each under its key.
pub open spec fn keyed_map<V>(s: Seq<V>, key: spec_fn(V) -> Seq<char>) -> Map<Seq<char>, V> {
    Map::new(
        |k: Seq<char>| has_key(s, key, k),
        |k: Seq<char>| s[choose|i: int| 0 <= i < s.len() && key(#[trigger] s[i]) == k],
    )
}

/// In a sequence with distinct keys, the map holds each record under its key.
pub proof fn lemma_keyed_index<V>(s: Seq<V>, key: spec_fn(V) -> Seq<char>, i: int)
    requires
        distinct_keys(s, key),
        0 <= i < s.len(),
    ensures
        keyed_map(s, key).contains_key(key(s[i])),
        keyed_map(s, key)[key(s[i])] == s[i],
{
    assert(has_key(s, key, key(s[i])));
    let j = choose|j: int| 0 <= j < s.len() && key(#[trigger] s[j]) == key(s[i]);
    if j != i {
        if j < i {
            assert(key(s[j]) != key(s[i]));
        } else {
            assert(key(s[i]) != key(s[j]));
        }
    }
}

/// Replacing the record at `i` by one with the same key replaces it in the map.
pub proof fn lemma_keyed_update<V>(s: Seq<V>, key: spec_fn(V) -> Seq<char>, i: int, x: V)
    requires
        distinct_keys(s, key),
        0 <= i < s.len(),
        key(x) == key(s[i]),
    ensures
        distinct_keys(s.update(i, x), key),
        keyed_map(s.update(i, x), key) == keyed_map(s, key).insert(key(x), x),
{
    let t = s.update(i, x);
    assert forall|a: int, b: int| 0 <= a < b < t.len() implies key(#[trigger] t[a]) != key(
        #[trigger] t[b],
    ) by {
        assert(key(t[a]) == key(s[a]));
        assert(key(t[b]) == key(s[b]));
    }
    assert forall|k: Seq<char>| has_key(t, key, k) == has_key(s, key, k) by {
        if has_key(t, key, k) {
            let j = choose|j: int| 0 <= j < t.len() && key(#[trigger] t[j]) == k;
            assert(key(s[j]) == k);
        }
        if has_key(s, key, k) {
            let j = choose|j: int| 0 <= j < s.len() && key(#[trigger] s[j]) == k;
            assert(key(t[j]) == k);
        }
    }
    assert forall|k: Seq<char>| #[trigger] keyed_map(t, key).contains_key(k) implies keyed_map(
        t,
        key,
    )[k] == keyed_map(s, key).insert(key(x), x)[k] by {
        let j = choose|j: int| 0 <= j < t.len() && key(#[trigger] t[j]) == k;
        lemma_keyed_index(t, key, j);
        if j != i {
            lemma_keyed_index(s, key, j);
        }
    }
    assert(keyed_map(t, key) =~= keyed_map(s, key).insert(key(x), x));
}

/// Appending a record with a new key adds it to the map.
pub proof fn lemma_keyed_push<V>(s: Seq<V>, key: spec_fn(V) -> Seq<char>, x: V)
    requires
        distinct_keys(s, key),
        !has_key(s, key, key(x)),
    ensures
        distinct_keys(s.push(x), key),
        keyed_map(s.push(x), key) == keyed_map(s, key).insert(key(x), x),
{
    let t = s.push(x);
    assert forall|a: int, b: int| 0 <= a < b < t.len() implies key(#[trigger] t[a]) != key(
        #[trigger] t[b],
    ) by {
        if b == s.len() {
            assert(key(s[a]) == key(t[a]));
        }
    }
    assert forall|k: Seq<char>| has_key(t, key, k) == (has_key(s, key, k) || k == key(x)) by {
        if has_key(t, key, k) {
            let j = choose|j: int| 0 <= j < t.len() && key(#[trigger] t[j]) == k;
            if j < s.len() {
                assert(key(s[j]) == k);
            }
        }
        if has_key(s, key, k) {
            let j = choose|j: int| 0 <= j < s.len() && key(#[trigger] s[j]) == k;
            assert(key(t[j]) == k);
        }
        if k == key(x) {
            assert(key(t[s.len() as int]) == k);
        }
    }
    assert forall|k: Seq<char>| #[trigger] keyed_map(t, key).contains_key(k) implies keyed_map(
        t,
        key,
    )[k] == keyed_map(s, key).insert(key(x), x)[k] by {
        let j = choose|j: int| 0 <= j < t.len() && key(#[trigger] t[j]) == k;
        lemma_keyed_index(t, key, j);
        if j < s.len() {
            lemma_keyed_index(s, key, j);
        }
    }
    assert(keyed_map(t, key) =~= keyed_map(s, key).insert(key(x), x));
}

/// Removing the record at `i` removes its key from the map.
pub proof fn lemma_keyed_remove<V>(s: Seq<V>, key: spec_fn(V) -> Seq<char>, i: int)
    requires
        distinct_keys(s, key),
        0 <= i < s.len(),
    ensures
        distinct_keys(s.remove(i), key),
        keyed_map(s.remove(i), key) == keyed_map(s, key).remove(key(s[i])),
{
    let t = s.remove(i);
    assert forall|a: int, b: int| 0 <= a < b < t.len() implies key(#[trigger] t[a]) != key(
        #[trigger] t[b],
    ) by {
        let a2 = if a < i { a } else { a + 1 };
        let b2 = if b < i { b } else { b + 1 };
        assert(t[a] == s[a2]);
        assert(t[b] == s[b2]);
    }
    assert forall|k: Seq<char>| has_key(t, key, k) == (has_key(s, key, k) && k != key(s[i])) by {
        if has_key(t, key, k) {
            let j = choose|j: int| 0 <= j < t.len() && key(#[trigger] t[j]) == k;
            let j2 = if j < i { j } else { j + 1 };
            assert(t[j] == s[j2]);
            assert(key(s[j2]) == k);
            if j2 < i {
                assert(key(s[j2]) != key(s[i]));
            } else {
                assert(key(s[i]) != key(s[j2]));
            }
        }
        if has_key(s, key, k) && k != key(s[i]) {
            let j = choose|j: int| 0 <= j < s.len() && key(#[trigger] s[j]) == k;
            let j2 = if j < i { j } else { j - 1 };
            assert(t[j2] == s[j]);
        }
    }
    assert forall|k: Seq<char>| #[trigger] keyed_map(t, key).contains_key(k) implies keyed_map(
        t,
        key,
    )[k] == keyed_map(s, key).remove(key(s[i]))[k] by {
        let j = choose|j: int| 0 <= j < t.len() && key(#[trigger] t[j]) == k;
        lemma_keyed_index(t, key, j);
        let j2 = if j < i { j } else { j + 1 };
        assert(t[j] == s[j2]);
        lemma_keyed_index(s, key, j2);
    }
    assert(keyed_map(t, key) =~= keyed_map(s, key).remove(key(s[i])));
}

/// Inserting a record with a new key at any position adds it to the map.
pub proof fn lemma_keyed_insert<V>(s: Seq<V>, key: spec_fn(V) -> Seq<char>, i: int, x: V)
    requires
        distinct_keys(s, key),
        !has_key(s, key, key(x)),
        0 <= i <= s.len(),
    ensures
        distinct_keys(s.insert(i, x), key),
        keyed_map(s.insert(i, x), key) == keyed_map(s, key).insert(key(x), x),
{
    let t = s.insert(i, x);
    assert forall|a: int, b: int| 0 <= a < b < t.len() implies key(#[trigger] t[a]) != key(
        #[trigger] t[b],
    ) by {
        if a == i {
            assert(t[b] == s[b - 1]);
            assert(key(s[b - 1]) != key(x));
        } else if b == i {
            assert(t[a] == s[a]);
            assert(key(s[a]) != key(x));
        } else {
            let a2 = if a < i { a } else { a - 1 };
            let b2 = if b < i { b } else { b - 1 };
            assert(t[a] == s[a2]);
            assert(t[b] == s[b2]);
        }
    }
    assert forall|k: Seq<char>| has_key(t, key, k) == (has_key(s, key, k) || k == key(x)) by {
        if has_key(t, key, k) {
            let j = choose|j: int| 0 <= j < t.len() && key(#[trigger] t[j]) == k;
            if j != i {
                let j2 = if j < i { j } else { j - 1 };
                assert(t[j] == s[j2]);
            }
        }
        if has_key(s, key, k) {
            let j = choose|j: int| 0 <= j < s.len() && key(#[trigger] s[j]) == k;
            let j2 = if j < i { j } else { j + 1 };
            assert(t[j2] == s[j]);
        }
        if k == key(x) {
            assert(t[i] == x);
        }
    }
    assert forall|k: Seq<char>| #[trigger] keyed_map(t, key).contains_key(k) implies keyed_map(
        t,
        key,
    )[k] == keyed_map(s, key).insert(key(x), x)[k] by {
        let j = choose|j: int| 0 <= j < t.len() && key(#[trigger] t[j]) == k;
        lemma_keyed_index(t, key, j);
        if j != i {
            let j2 = if j < i { j } else { j - 1 };
            assert(t[j] == s[j2]);
            lemma_keyed_index(s, key, j2);
        }
    }
    assert(keyed_map(t, key) =~= keyed_map(s, key).insert(key(x), x));
}

/// A sequence with no record has the empty map.
pub proof fn lemma_keyed_empty<V>(key: spec_fn(V) -> Seq<char>)
    ensures
        distinct_keys(Seq::<V>::empty(), key),
        keyed_map(Seq::<V>::empty(), key) == Map::<Seq<char>, V>::empty(),
{
    assert(keyed_map(Seq::<V>::empty(), key) =~= Map::<Seq<char>, V>::empty());
}

/// Lexicographic order of texts by character code, which is the byte order
/// of their UTF-8 encodings (the order of Rust's `str`).
pub open spec fn text_lt(a: Seq<char>, b: Seq<char>) -> bool
    decreases a.len(),
{
    if a.len() == 0 {
        b.len() > 0
    } else if b.len() == 0 {
        false
    } else if a[0] != b[0] {
        a[0] < b[0]
    } else {
        text_lt(a.drop_first(), b.drop_first())
    }
}

/// The order is irreflexive.
pub proof fn lemma_text_lt_irreflexive(a: Seq<char>)
    ensures
        !text_lt(a, a),
    decreases a.len(),
{
    if a.len() > 0 {
        lemma_text_lt_irreflexive(a.drop_first());
    }
}

/// The order is transitive.
pub proof fn lemma_text_lt_transitive(a: Seq<char>, b: Seq<char>, c: Seq<char>)
    requires
        text_lt(a, b),
        text_lt(b, c),
    ensures
        text_lt(a, c),
    decreases a.len(),
{
    if a.len() > 0 && b.len() > 0 && c.len() > 0 && a[0] == b[0] && b[0] == c[0] {
        lemma_text_lt_transitive(a.drop_first(), b.drop_first(), c.drop_first());
    }
}

/// Two different texts are ordered one way or the other, never both.
pub proof fn lemma_text_lt_total(a: Seq<char>, b: Seq<char>)
    ensures
        a != b ==> (text_lt(a, b) || text_lt(b, a)),
        !(text_lt(a, b) && text_lt(b, a)),
    decreases a.len(),
{
    if a.len() > 0 && b.len() > 0 {
        lemma_text_lt_total(a.drop_first(), b.drop_first());
        if a[0] == b[0] && a.drop_first() == b.drop_first() {
            assert forall|k: int| 0 <= k < a.len() implies a[k] == b[k] by {
                if k > 0 {
                    assert(a[k] == a.drop_first()[k - 1]);
                    assert(b[k] == b.drop_first()[k - 1]);
                }
            }
            assert(a =~= b);
        }
    } else if a.len() == 0 && b.len() == 0 {
        assert(a =~= b);
    }
}

/// Whether `a` comes before `b` in lexicographic order.
pub fn chars_lt(a: &[char], b: &[char]) -> (r: bool)
    ensures
        r == text_lt(a@, b@),
{
    let mut i: usize = 0;
    assert(a@.skip(0) =~= a@);
    assert(b@.skip(0) =~= b@);
    while i < a.len() && i < b.len() && a[i] == b[i]
        invariant
            i <= a@.len(),
            i <= b@.len(),
            a@.take(i as int) == b@.take(i as int),
            text_lt(a@.skip(i as int), b@.skip(i as int)) == text_lt(a@, b@),
        decreases a@.len() - i,
    {
        proof {
            assert(a@.skip(i as int).drop_first() =~= a@.skip(i as int + 1));
            assert(b@.skip(i as int).drop_first() =~= b@.skip(i as int + 1));
            assert(a@.take(i as int + 1) =~= a@.take(i as int).push(a@[i as int]));
            assert(b@.take(i as int + 1) =~= b@.take(i as int).push(b@[i as int]));
        }
        i = i + 1;
    }
    if i == a.len() {
        i < b.len()
    } else if i == b.len() {
        false
    } else {
        a[i] < b[i]
    }
}

/// Whether the text `a` comes before `b` in lexicographic order.
pub fn str_lt(a: &str, b: &str) -> (r: bool)
    ensures
        r == text_lt(a@, b@),
{
    let va = crate::text::chars_of(a);
    let vb = crate::text::chars_of(b);
    chars_lt(&va, &vb)
}

/// The keys of `s` strictly increase.
pub open spec fn sorted_by_key<V>(s: Seq<V>, key: spec_fn(V) -> Seq<char>) -> bool {
    forall|i: int, j: int| 0 <= i < j < s.len() ==> text_lt(key(#[trigger] s[i]), key(#[trigger] s[j]))
}

/// Keys that strictly increase are distinct.
pub proof fn lemma_sorted_distinct<V>(s: Seq<V>, key: spec_fn(V) -> Seq<char>)
    requires
        sorted_by_key(s, key),
    ensures
        distinct_keys(s, key),
{
    assert forall|i: int, j: int| 0 <= i < j < s.len() implies key(#[trigger] s[i]) != key(
        #[trigger] s[j],
    ) by {
        lemma_text_lt_irreflexive(key(s[i]));
    }
}

/// A prefix of a sequence whose keys strictly increase has increasing keys.
pub proof fn lemma_take_sorted<V>(s: Seq<V>, key: spec_fn(V) -> Seq<char>, n: int)
    requires
        sorted_by_key(s, key),
        0 <= n <= s.len(),
    ensures
        sorted_by_key(s.take(n), key),
{
    assert forall|i: int, j: int| 0 <= i < j < s.take(n).len() implies text_lt(
        key(#[trigger] s.take(n)[i]),
        key(#[trigger] s.take(n)[j]),
    ) by {
        assert(s.take(n)[i] == s[i] && s.take(n)[j] == s[j]);
    }
}

} // verus!
