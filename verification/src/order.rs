//! Sequences kept sorted by an integer key, with ties resolved by insertion
//! order: a new element is placed after every element whose key is less than
//! or equal to its own.
use vstd::prelude::*;

verus! {

/// Every pair of elements is ordered by its key.
pub open spec fn sorted_by_key<T>(s: Seq<T>, key: spec_fn(T) -> int) -> bool {
    forall|i: int, j: int| 0 <= i < j < s.len() ==> key(s[i]) <= key(s[j])
}

/// Insert `x` after every element whose key is at most `key(x)`.
pub open spec fn insert_by_key<T>(s: Seq<T>, x: T, key: spec_fn(T) -> int) -> Seq<T>
    decreases s.len(),
{
    if s.len() > 0 && key(s.last()) > key(x) {
        insert_by_key(s.drop_last(), x, key).push(s.last())
    } else {
        s.push(x)
    }
}

/// Inserting at the first position whose key exceeds `key(x)` realizes
/// `insert_by_key`.
pub proof fn lemma_insert_by_key_at<T>(s: Seq<T>, x: T, key: spec_fn(T) -> int, i: int)
    requires
        0 <= i <= s.len(),
        forall|j: int| i <= j < s.len() ==> key(s[j]) > key(x),
        i > 0 ==> key(s[i - 1]) <= key(x),
    ensures
        insert_by_key(s, x, key) == s.insert(i, x),
    decreases s.len(),
{
    if i == s.len() {
        assert(insert_by_key(s, x, key) =~= s.insert(i, x));
    } else {
        assert(key(s.last()) > key(x));
        lemma_insert_by_key_at(s.drop_last(), x, key, i);
        assert(insert_by_key(s, x, key) =~= s.insert(i, x));
    }
}

/// Sorted order is preserved by `insert_by_key` at that position.
pub proof fn lemma_insert_by_key_sorted<T>(s: Seq<T>, x: T, key: spec_fn(T) -> int, i: int)
    requires
        sorted_by_key(s, key),
        0 <= i <= s.len(),
        forall|j: int| i <= j < s.len() ==> key(s[j]) > key(x),
        i > 0 ==> key(s[i - 1]) <= key(x),
    ensures
        sorted_by_key(s.insert(i, x), key),
{
    let t = s.insert(i, x);
    assert forall|a: int, b: int| 0 <= a < b < t.len() implies key(t[a]) <= key(t[b]) by {
        if a < i && b < i {
            assert(t[a] == s[a] && t[b] == s[b]);
        } else if a < i && b == i {
            assert(t[a] == s[a] && t[b] == x);
            assert(key(s[a]) <= key(s[i - 1]));
        } else if a < i && b > i {
            assert(t[a] == s[a] && t[b] == s[b - 1]);
        } else if a == i {
            assert(t[a] == x && t[b] == s[b - 1]);
        } else {
            assert(t[a] == s[a - 1] && t[b] == s[b - 1]);
        }
    }
}

/// `insert_by_key` places the element at some position, leaving the rest.
pub proof fn lemma_insert_by_key_is_insert<T>(s: Seq<T>, x: T, key: spec_fn(T) -> int)
    ensures
        exists|i: int| 0 <= i <= s.len() && insert_by_key(s, x, key) == s.insert(i, x),
    decreases s.len(),
{
    if s.len() > 0 && key(s.last()) > key(x) {
        lemma_insert_by_key_is_insert(s.drop_last(), x, key);
        let i = choose|i: int|
            0 <= i <= s.drop_last().len() && insert_by_key(s.drop_last(), x, key)
                == s.drop_last().insert(i, x);
        assert(insert_by_key(s, x, key) =~= s.insert(i, x));
        assert(0 <= i <= s.len() && insert_by_key(s, x, key) == s.insert(i, x));
    } else {
        assert(insert_by_key(s, x, key) =~= s.insert(s.len() as int, x));
        assert(0 <= s.len() as int <= s.len() && insert_by_key(s, x, key) == s.insert(
            s.len() as int,
            x,
        ));
    }
}

} // verus!
