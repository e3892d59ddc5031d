//! Rows kept in a vector, one row per key, seen as a map from key to value.

use vstd::prelude::*;

verus! {

/// A row of a keyed collection: its key, and what the row says under it.
pub trait KeyedRow {
    type V;

    spec fn row_key(&self) -> Seq<char>;

    spec fn row_value(&self) -> Self::V;
}

/// No two rows share a key.
pub open spec fn unique_keys<T: KeyedRow>(s: Seq<T>) -> bool {
    forall|i: int, j: int|
        0 <= i < s.len() && 0 <= j < s.len() && i != j ==> #[trigger] s[i].row_key()
            != #[trigger] s[j].row_key()
}

/// Some row has key `k`.
pub open spec fn has_key<T: KeyedRow>(s: Seq<T>, k: Seq<char>) -> bool {
    exists|i: int| 0 <= i < s.len() && #[trigger] s[i].row_key() == k
}

/// The rows as a map from each key to the value of its row.
pub open spec fn table_map<T: KeyedRow>(s: Seq<T>) -> Map<Seq<char>, T::V> {
    Map::new(
        |k: Seq<char>| has_key(s, k),
        |k: Seq<char>| s[choose|i: int| 0 <= i < s.len() && #[trigger] s[i].row_key() == k].row_value(),
    )
}

pub proof fn lemma_table_index<T: KeyedRow>(s: Seq<T>, i: int)
    requires
        unique_keys(s),
        0 <= i < s.len(),
    ensures
        table_map(s).contains_key(s[i].row_key()),
        table_map(s)[s[i].row_key()] == s[i].row_value(),
{
    let k = s[i].row_key();
    assert(has_key(s, k));
    let j = choose|j: int| 0 <= j < s.len() && #[trigger] s[j].row_key() == k;
    assert(j == i);
}

pub proof fn lemma_table_push<T: KeyedRow>(s: Seq<T>, t: T)
    requires
        unique_keys(s),
        !table_map(s).contains_key(t.row_key()),
    ensures
        unique_keys(s.push(t)),
        table_map(s.push(t)) == table_map(s).insert(t.row_key(), t.row_value()),
{
    let s2 = s.push(t);
    let m = table_map(s).insert(t.row_key(), t.row_value());
    assert forall|i: int, j: int|
        0 <= i < s2.len() && 0 <= j < s2.len() && i != j implies #[trigger] s2[i].row_key()
        != #[trigger] s2[j].row_key() by {
        if i < s.len() && j < s.len() {
            assert(s2[i] == s[i] && s2[j] == s[j]);
        } else if i < s.len() {
            assert(has_key(s, s[i].row_key()));
        } else {
            assert(has_key(s, s[j].row_key()));
        }
    }
    assert forall|k: Seq<char>| #[trigger] table_map(s2).contains_key(k) == m.contains_key(k) by {
        if has_key(s2, k) {
            let i = choose|i: int| 0 <= i < s2.len() && #[trigger] s2[i].row_key() == k;
            if i < s.len() {
                assert(s2[i] == s[i]);
                assert(has_key(s, k));
            }
        }
        if has_key(s, k) {
            let i = choose|i: int| 0 <= i < s.len() && #[trigger] s[i].row_key() == k;
            assert(s2[i] == s[i]);
            assert(has_key(s2, k));
        }
        if k == t.row_key() {
            assert(s2[s.len() as int] == t);
            assert(has_key(s2, k));
        }
    }
    assert forall|k: Seq<char>| #[trigger] table_map(s2).contains_key(k) implies table_map(s2)[k]
        == m[k] by {
        let i = choose|i: int| 0 <= i < s2.len() && #[trigger] s2[i].row_key() == k;
        lemma_table_index(s2, i);
        if i < s.len() {
            assert(s2[i] == s[i]);
            lemma_table_index(s, i);
        }
    }
    assert(table_map(s2) =~= m);
}

pub proof fn lemma_table_remove<T: KeyedRow>(s: Seq<T>, i: int)
    requires
        unique_keys(s),
        0 <= i < s.len(),
    ensures
        unique_keys(s.remove(i)),
        table_map(s.remove(i)) == table_map(s).remove(s[i].row_key()),
{
    let s2 = s.remove(i);
    let m = table_map(s).remove(s[i].row_key());
    assert forall|a: int| 0 <= a < s2.len() implies #[trigger] s2[a] == s[if a < i {
        a
    } else {
        a + 1
    }] by {}
    assert forall|a: int, b: int|
        0 <= a < s2.len() && 0 <= b < s2.len() && a != b implies #[trigger] s2[a].row_key()
        != #[trigger] s2[b].row_key() by {
        let a1 = if a < i { a } else { a + 1 };
        let b1 = if b < i { b } else { b + 1 };
        assert(s2[a] == s[a1] && s2[b] == s[b1]);
    }
    assert forall|k: Seq<char>| #[trigger] table_map(s2).contains_key(k) == m.contains_key(k) by {
        if has_key(s2, k) {
            let a = choose|a: int| 0 <= a < s2.len() && #[trigger] s2[a].row_key() == k;
            let a1 = if a < i { a } else { a + 1 };
            assert(s2[a] == s[a1]);
            assert(has_key(s, k));
        }
        if has_key(s, k) && k != s[i].row_key() {
            let a = choose|a: int| 0 <= a < s.len() && #[trigger] s[a].row_key() == k;
            let a2 = if a < i { a } else { a - 1 };
            assert(s2[a2] == s[a]);
            assert(has_key(s2, k));
        }
    }
    assert forall|k: Seq<char>| #[trigger] table_map(s2).contains_key(k) implies table_map(s2)[k]
        == m[k] by {
        let a = choose|a: int| 0 <= a < s2.len() && #[trigger] s2[a].row_key() == k;
        let a1 = if a < i { a } else { a + 1 };
        assert(s2[a] == s[a1]);
        lemma_table_index(s2, a);
        lemma_table_index(s, a1);
    }
    assert(table_map(s2) =~= m);
}

pub proof fn lemma_table_update<T: KeyedRow>(s: Seq<T>, i: int, t: T)
    requires
        unique_keys(s),
        0 <= i < s.len(),
        t.row_key() == s[i].row_key(),
    ensures
        unique_keys(s.update(i, t)),
        table_map(s.update(i, t)) == table_map(s).insert(t.row_key(), t.row_value()),
{
    let s2 = s.update(i, t);
    let m = table_map(s).insert(t.row_key(), t.row_value());
    assert forall|a: int, b: int|
        0 <= a < s2.len() && 0 <= b < s2.len() && a != b implies #[trigger] s2[a].row_key()
        != #[trigger] s2[b].row_key() by {
        assert(s2[a].row_key() == s[a].row_key());
        assert(s2[b].row_key() == s[b].row_key());
    }
    assert forall|k: Seq<char>| #[trigger] table_map(s2).contains_key(k) == m.contains_key(k) by {
        if has_key(s2, k) {
            let a = choose|a: int| 0 <= a < s2.len() && #[trigger] s2[a].row_key() == k;
            assert(s2[a].row_key() == s[a].row_key());
            assert(has_key(s, k));
        }
        if has_key(s, k) {
            let a = choose|a: int| 0 <= a < s.len() && #[trigger] s[a].row_key() == k;
            assert(s2[a].row_key() == s[a].row_key());
            assert(has_key(s2, k));
        }
    }
    assert forall|k: Seq<char>| #[trigger] table_map(s2).contains_key(k) implies table_map(s2)[k]
        == m[k] by {
        let a = choose|a: int| 0 <= a < s2.len() && #[trigger] s2[a].row_key() == k;
        lemma_table_index(s2, a);
        if a != i {
            lemma_table_index(s, a);
        }
    }
    assert(table_map(s2) =~= m);
}

} // verus!
