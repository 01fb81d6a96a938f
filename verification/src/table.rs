//! The typed key-value tables that back the engine's persisted state.
//!
//! Every storage item of the engine is a table of rows, each row holding up
//! to three byte-string key parts and one value.  A table denotes a map from
//! the key triple to the value; well-formed tables never hold two rows with
//! the same key, and every operation below preserves that.  Unused key parts
//! of a narrower map are kept empty by the callers.

use vstd::prelude::*;

verus! {

use vstd::std_specs::cmp::PartialEqSpec;

/// One row of a storage table.
pub struct Rec<V> {
    pub k1: Vec<u8>,
    pub k2: Vec<u8>,
    pub k3: Vec<u8>,
    pub v: V,
}

/// The mathematical key of a row.
pub type TableKey = (Seq<u8>, Seq<u8>, Seq<u8>);

pub open spec fn rec_key<V>(r: Rec<V>) -> TableKey {
    (r.k1@, r.k2@, r.k3@)
}

/// The map that a table denotes.  Later rows win, though a table with
/// `unique_keys` never holds two rows with one key.
pub open spec fn table_map<V>(s: Seq<Rec<V>>) -> Map<TableKey, V>
    decreases s.len(),
{
    if s.len() == 0 {
        Map::empty()
    } else {
        table_map(s.drop_last()).insert(rec_key(s.last()), s.last().v)
    }
}

/// No two rows share a key.
pub open spec fn unique_keys<V>(s: Seq<Rec<V>>) -> bool {
    forall|i: int, j: int| 0 <= i < j < s.len() ==> rec_key(s[i]) != rec_key(s[j])
}

/// Rows of a table that stands for a one-part map leave the other two key
/// parts empty.
pub open spec fn one_part_keys<V>(s: Seq<Rec<V>>) -> bool {
    forall|i: int|
        0 <= i < s.len() ==> (#[trigger] s[i]).k2@ == Seq::<u8>::empty() && s[i].k3@
            == Seq::<u8>::empty()
}

/// Rows of a table that stands for a two-part map leave the third key part
/// empty.
pub open spec fn two_part_keys<V>(s: Seq<Rec<V>>) -> bool {
    forall|i: int| 0 <= i < s.len() ==> (#[trigger] s[i]).k3@ == Seq::<u8>::empty()
}

/// The set of keys whose first two parts are the given ones.
pub open spec fn prefix_keys(p1: Seq<u8>, p2: Seq<u8>) -> Set<TableKey> {
    Set::new(|k: TableKey| k.0 == p1 && k.1 == p2)
}

/// The empty byte string that pads unused key parts of narrower tables.
pub open spec fn no_part() -> Seq<u8> {
    Seq::<u8>::empty()
}

/// The row occurs in the table.
pub open spec fn row_in<V>(r: Rec<V>, t: Seq<Rec<V>>) -> bool {
    exists|j: int| 0 <= j < t.len() && r == #[trigger] t[j]
}

/// Every row of `s` is a row of `t`.
pub open spec fn rows_from<V>(s: Seq<Rec<V>>, t: Seq<Rec<V>>) -> bool {
    forall|i: int| 0 <= i < s.len() ==> row_in(#[trigger] s[i], t)
}

pub proof fn lemma_table_map_contains<V>(s: Seq<Rec<V>>, k: TableKey)
    ensures
        table_map(s).contains_key(k) <==> exists|i: int| 0 <= i < s.len() && rec_key(s[i]) == k,
    decreases s.len(),
{
    if s.len() > 0 {
        lemma_table_map_contains(s.drop_last(), k);
        if table_map(s).contains_key(k) {
            if k == rec_key(s.last()) {
                assert(rec_key(s[s.len() - 1]) == k);
            } else {
                let i = choose|i: int|
                    0 <= i < s.drop_last().len() && rec_key(s.drop_last()[i]) == k;
                assert(s.drop_last()[i] == s[i]);
                assert(rec_key(s[i]) == k);
            }
        }
        if exists|i: int| 0 <= i < s.len() && rec_key(s[i]) == k {
            let i = choose|i: int| 0 <= i < s.len() && rec_key(s[i]) == k;
            if i < s.len() - 1 {
                assert(s.drop_last()[i] == s[i]);
                assert(rec_key(s.drop_last()[i]) == k);
            }
        }
    }
}

pub proof fn lemma_unique_drop_last<V>(s: Seq<Rec<V>>)
    requires
        unique_keys(s),
        s.len() > 0,
    ensures
        unique_keys(s.drop_last()),
{
    assert forall|i: int, j: int| 0 <= i < j < s.drop_last().len() implies rec_key(
        s.drop_last()[i],
    ) != rec_key(s.drop_last()[j]) by {
        assert(s.drop_last()[i] == s[i]);
        assert(s.drop_last()[j] == s[j]);
    }
}

pub proof fn lemma_table_map_index<V>(s: Seq<Rec<V>>, i: int)
    requires
        unique_keys(s),
        0 <= i < s.len(),
    ensures
        table_map(s).contains_key(rec_key(s[i])),
        table_map(s)[rec_key(s[i])] == s[i].v,
    decreases s.len(),
{
    if i < s.len() - 1 {
        lemma_unique_drop_last(s);
        assert(s.drop_last()[i] == s[i]);
        lemma_table_map_index(s.drop_last(), i);
        assert(rec_key(s[i]) != rec_key(s[s.len() - 1]));
    }
}

pub proof fn lemma_table_map_push<V>(s: Seq<Rec<V>>, r: Rec<V>)
    ensures
        table_map(s.push(r)) == table_map(s).insert(rec_key(r), r.v),
{
    assert(s.push(r).drop_last() =~= s);
    assert(s.push(r).last() == r);
}

pub proof fn lemma_unique_push<V>(s: Seq<Rec<V>>, r: Rec<V>)
    requires
        unique_keys(s),
        !table_map(s).contains_key(rec_key(r)),
    ensures
        unique_keys(s.push(r)),
{
    lemma_table_map_contains(s, rec_key(r));
    let s2 = s.push(r);
    assert forall|i: int, j: int| 0 <= i < j < s2.len() implies rec_key(s2[i]) != rec_key(
        s2[j],
    ) by {
        if j == s2.len() - 1 {
            assert(s2[i] == s[i]);
            assert(!(rec_key(s[i]) == rec_key(r)));
        } else {
            assert(s2[i] == s[i]);
            assert(s2[j] == s[j]);
        }
    }
}

pub proof fn lemma_table_map_remove_idx<V>(s: Seq<Rec<V>>, i: int)
    requires
        unique_keys(s),
        0 <= i < s.len(),
    ensures
        table_map(s.remove(i)) == table_map(s).remove(rec_key(s[i])),
        unique_keys(s.remove(i)),
    decreases s.len(),
{
    let k = rec_key(s[i]);
    assert forall|a: int, b: int| 0 <= a < b < s.remove(i).len() implies rec_key(
        s.remove(i)[a],
    ) != rec_key(s.remove(i)[b]) by {
        let a2: int = if a < i { a } else { a + 1 };
        let b2: int = if b < i { b } else { b + 1 };
        assert(s.remove(i)[a] == s[a2]);
        assert(s.remove(i)[b] == s[b2]);
    }
    if i == s.len() - 1 {
        assert(s.remove(i) =~= s.drop_last());
        lemma_unique_drop_last(s);
        lemma_table_map_contains(s.drop_last(), k);
        assert forall|j: int| 0 <= j < s.drop_last().len() implies rec_key(s.drop_last()[j])
            != k by {
            assert(s.drop_last()[j] == s[j]);
        }
        assert(!table_map(s.drop_last()).contains_key(k));
        assert(table_map(s.drop_last()) =~= table_map(s).remove(k));
    } else {
        lemma_unique_drop_last(s);
        lemma_table_map_remove_idx(s.drop_last(), i);
        assert(s.remove(i).drop_last() =~= s.drop_last().remove(i));
        assert(s.remove(i).last() == s.last());
        assert(k != rec_key(s.last()));
        assert(table_map(s.remove(i)) =~= table_map(s).remove(k));
    }
}

pub proof fn lemma_table_map_update<V>(s: Seq<Rec<V>>, i: int, r: Rec<V>)
    requires
        unique_keys(s),
        0 <= i < s.len(),
        rec_key(r) == rec_key(s[i]),
    ensures
        table_map(s.update(i, r)) == table_map(s).insert(rec_key(r), r.v),
        unique_keys(s.update(i, r)),
    decreases s.len(),
{
    let k = rec_key(r);
    assert forall|a: int, b: int| 0 <= a < b < s.update(i, r).len() implies rec_key(
        s.update(i, r)[a],
    ) != rec_key(s.update(i, r)[b]) by {
        if a != i {
            assert(s.update(i, r)[a] == s[a]);
        }
        if b != i {
            assert(s.update(i, r)[b] == s[b]);
        }
    }
    if i == s.len() - 1 {
        assert(s.update(i, r).drop_last() =~= s.drop_last());
        assert(s.update(i, r).last() == r);
        assert(table_map(s.update(i, r)) =~= table_map(s).insert(k, r.v));
    } else {
        lemma_unique_drop_last(s);
        lemma_table_map_update(s.drop_last(), i, r);
        assert(s.update(i, r).drop_last() =~= s.drop_last().update(i, r));
        assert(s.update(i, r).last() == s.last());
        assert(k != rec_key(s.last()));
        assert(table_map(s.update(i, r)) =~= table_map(s).insert(k, r.v));
    }
}

/// Whether two byte vectors hold the same bytes.
pub fn bytes_eq(a: &Vec<u8>, b: &Vec<u8>) -> (r: bool)
    ensures
        r <==> a@ == b@,
{
    let r = *a == *b;
    proof {
        if r {
            assert(a@ =~= b@);
        } else {
            if a@ == b@ {
                assert(a.eq_spec(b));
            }
        }
    }
    r
}

/// A copy of a byte vector with the same bytes.
pub fn clone_bytes(a: &Vec<u8>) -> (r: Vec<u8>)
    ensures
        r@ == a@,
{
    let mut r: Vec<u8> = Vec::new();
    let n = a.len();
    let mut i: usize = 0;
    while i < n
        invariant
            n == a@.len(),
            i <= n,
            r@ == a@.take(i as int),
        decreases n - i,
    {
        r.push(a[i]);
        assert(r@ =~= a@.take(i as int + 1));
        i = i + 1;
    }
    assert(a@.take(n as int) =~= a@);
    r
}

/// The index of the row with the given key, if the table holds one.
pub fn table_find<V>(t: &Vec<Rec<V>>, k1: &Vec<u8>, k2: &Vec<u8>, k3: &Vec<u8>) -> (r: Option<
    usize,
>)
    ensures
        match r {
            Some(i) => i < t@.len() && rec_key(t@[i as int]) == (k1@, k2@, k3@),
            None => !table_map(t@).contains_key((k1@, k2@, k3@)),
        },
{
    let n = t.len();
    let mut i: usize = 0;
    while i < n
        invariant
            n == t@.len(),
            i <= n,
            forall|j: int| 0 <= j < i ==> rec_key(t@[j]) != (k1@, k2@, k3@),
        decreases n - i,
    {
        if bytes_eq(&t[i].k1, k1) && bytes_eq(&t[i].k2, k2) && bytes_eq(&t[i].k3, k3) {
            return Some(i);
        }
        i = i + 1;
    }
    proof {
        lemma_table_map_contains(t@, (k1@, k2@, k3@));
    }
    None
}

/// Inserts the value under the key, replacing the row that held it.
pub fn table_upsert<V>(t: &mut Vec<Rec<V>>, k1: Vec<u8>, k2: Vec<u8>, k3: Vec<u8>, v: V)
    requires
        unique_keys(old(t)@),
    ensures
        unique_keys(final(t)@),
        table_map(final(t)@) == table_map(old(t)@).insert((k1@, k2@, k3@), v),
        forall|i: int|
            0 <= i < final(t)@.len() ==> rec_key(#[trigger] final(t)@[i]) == (k1@, k2@, k3@)
                || row_in(final(t)@[i], old(t)@),
{
    let ghost k: TableKey = (k1@, k2@, k3@);
    let found = table_find(t, &k1, &k2, &k3);
    match found {
        Some(i) => {
            proof {
                lemma_table_map_remove_idx(t@, i as int);
                lemma_table_map_contains(t@.remove(i as int), k);
            }
            let _ = t.remove(i);
            proof {
                assert forall|j: int| 0 <= j < t@.len() implies rec_key(t@[j]) != k by {
                    if table_map(t@).contains_key(k) {
                    }
                    lemma_table_map_contains(t@, k);
                }
                lemma_unique_push(t@, Rec { k1, k2, k3, v });
                lemma_table_map_push(t@, Rec { k1, k2, k3, v });
            }
            let ghost t1 = t@;
            t.push(Rec { k1, k2, k3, v });
            proof {
                assert(table_map(t@) =~= table_map(old(t)@).insert(k, v));
                assert forall|a: int| 0 <= a < t@.len() implies rec_key(#[trigger] t@[a]) == k
                    || row_in(t@[a], old(t)@) by {
                    if a < t@.len() - 1 {
                        assert(t@[a] == t1[a]);
                        let j: int = if a < i as int {
                            a
                        } else {
                            a + 1
                        };
                        assert(t1[a] == old(t)@[j]);
                        assert(row_in(t@[a], old(t)@));
                    }
                }
            }
        },
        None => {
            proof {
                lemma_unique_push(t@, Rec { k1, k2, k3, v });
                lemma_table_map_push(t@, Rec { k1, k2, k3, v });
            }
            t.push(Rec { k1, k2, k3, v });
            proof {
                assert forall|a: int| 0 <= a < t@.len() implies rec_key(#[trigger] t@[a]) == k
                    || row_in(t@[a], old(t)@) by {
                    if a < t@.len() - 1 {
                        assert(t@[a] == old(t)@[a]);
                        assert(row_in(t@[a], old(t)@));
                    }
                }
            }
        },
    }
}

/// Removes the row with the given key; reports whether one was there.
pub fn table_remove<V>(t: &mut Vec<Rec<V>>, k1: &Vec<u8>, k2: &Vec<u8>, k3: &Vec<u8>) -> (r: bool)
    requires
        unique_keys(old(t)@),
    ensures
        unique_keys(final(t)@),
        table_map(final(t)@) == table_map(old(t)@).remove((k1@, k2@, k3@)),
        r == table_map(old(t)@).contains_key((k1@, k2@, k3@)),
        rows_from(final(t)@, old(t)@),
{
    let ghost k: TableKey = (k1@, k2@, k3@);
    let found = table_find(t, k1, k2, k3);
    match found {
        Some(i) => {
            proof {
                lemma_table_map_index(t@, i as int);
                lemma_table_map_remove_idx(t@, i as int);
            }
            let _ = t.remove(i);
            proof {
                assert forall|a: int| 0 <= a < t@.len() implies row_in(
                    #[trigger] t@[a],
                    old(t)@,
                ) by {
                    let j: int = if a < i as int {
                        a
                    } else {
                        a + 1
                    };
                    assert(t@[a] == old(t)@[j]);
                }
            }
            true
        },
        None => {
            proof {
                assert(table_map(t@) =~= table_map(t@).remove(k));
                assert forall|a: int| 0 <= a < t@.len() implies row_in(
                    #[trigger] t@[a],
                    old(t)@,
                ) by {
                    assert(t@[a] == old(t)@[a]);
                }
            }
            false
        },
    }
}

/// The index of the row of a one-part table that holds the key.
pub fn table1_find<V>(t: &Vec<Rec<V>>, k1: &Vec<u8>) -> (r: Option<usize>)
    ensures
        match r {
            Some(i) => i < t@.len() && rec_key(t@[i as int]) == (k1@, no_part(), no_part()),
            None => !table_map(t@).contains_key((k1@, no_part(), no_part())),
        },
{
    let pad: Vec<u8> = Vec::new();
    table_find(t, k1, &pad, &pad)
}

/// The index of the row of a two-part table that holds the key.
pub fn table2_find<V>(t: &Vec<Rec<V>>, k1: &Vec<u8>, k2: &Vec<u8>) -> (r: Option<usize>)
    ensures
        match r {
            Some(i) => i < t@.len() && rec_key(t@[i as int]) == (k1@, k2@, no_part()),
            None => !table_map(t@).contains_key((k1@, k2@, no_part())),
        },
{
    let pad: Vec<u8> = Vec::new();
    table_find(t, k1, k2, &pad)
}

/// Inserts into a one-part table, keeping its key shape.
pub fn table1_upsert<V>(t: &mut Vec<Rec<V>>, k1: Vec<u8>, v: V)
    requires
        unique_keys(old(t)@),
        one_part_keys(old(t)@),
    ensures
        unique_keys(final(t)@),
        one_part_keys(final(t)@),
        table_map(final(t)@) == table_map(old(t)@).insert((k1@, no_part(), no_part()), v),
{
    let pad1: Vec<u8> = Vec::new();
    let pad2: Vec<u8> = Vec::new();
    table_upsert(t, k1, pad1, pad2, v);
    proof {
        assert forall|i: int| 0 <= i < t@.len() implies (#[trigger] t@[i]).k2@ == no_part()
            && t@[i].k3@ == no_part() by {
            if rec_key(t@[i]) == (k1@, no_part(), no_part()) {
            } else {
                let j = choose|j: int| 0 <= j < old(t)@.len() && t@[i] == #[trigger] old(t)@[j];
                assert(old(t)@[j].k2@ == no_part());
            }
        }
    }
}

/// Inserts into a two-part table, keeping its key shape.
pub fn table2_upsert<V>(t: &mut Vec<Rec<V>>, k1: Vec<u8>, k2: Vec<u8>, v: V)
    requires
        unique_keys(old(t)@),
        two_part_keys(old(t)@),
    ensures
        unique_keys(final(t)@),
        two_part_keys(final(t)@),
        table_map(final(t)@) == table_map(old(t)@).insert((k1@, k2@, no_part()), v),
{
    let pad: Vec<u8> = Vec::new();
    table_upsert(t, k1, k2, pad, v);
    proof {
        assert forall|i: int| 0 <= i < t@.len() implies (#[trigger] t@[i]).k3@ == no_part() by {
            if rec_key(t@[i]) == (k1@, k2@, no_part()) {
            } else {
                let j = choose|j: int| 0 <= j < old(t)@.len() && t@[i] == #[trigger] old(t)@[j];
                assert(old(t)@[j].k3@ == no_part());
            }
        }
    }
}

/// Removes from a one-part table, keeping its key shape.
pub fn table1_remove<V>(t: &mut Vec<Rec<V>>, k1: &Vec<u8>) -> (r: bool)
    requires
        unique_keys(old(t)@),
        one_part_keys(old(t)@),
    ensures
        unique_keys(final(t)@),
        one_part_keys(final(t)@),
        table_map(final(t)@) == table_map(old(t)@).remove((k1@, no_part(), no_part())),
        r == table_map(old(t)@).contains_key((k1@, no_part(), no_part())),
{
    let pad: Vec<u8> = Vec::new();
    let r = table_remove(t, k1, &pad, &pad);
    proof {
        assert forall|i: int| 0 <= i < t@.len() implies (#[trigger] t@[i]).k2@ == no_part()
            && t@[i].k3@ == no_part() by {
            let j = choose|j: int| 0 <= j < old(t)@.len() && t@[i] == #[trigger] old(t)@[j];
            assert(old(t)@[j].k2@ == no_part());
        }
    }
    r
}

/// Removes from a two-part table, keeping its key shape.
pub fn table2_remove<V>(t: &mut Vec<Rec<V>>, k1: &Vec<u8>, k2: &Vec<u8>) -> (r: bool)
    requires
        unique_keys(old(t)@),
        two_part_keys(old(t)@),
    ensures
        unique_keys(final(t)@),
        two_part_keys(final(t)@),
        table_map(final(t)@) == table_map(old(t)@).remove((k1@, k2@, no_part())),
        r == table_map(old(t)@).contains_key((k1@, k2@, no_part())),
{
    let pad: Vec<u8> = Vec::new();
    let r = table_remove(t, k1, k2, &pad);
    proof {
        assert forall|i: int| 0 <= i < t@.len() implies (#[trigger] t@[i]).k3@ == no_part() by {
            let j = choose|j: int| 0 <= j < old(t)@.len() && t@[i] == #[trigger] old(t)@[j];
            assert(old(t)@[j].k3@ == no_part());
        }
    }
    r
}

/// The index of some row whose first two key parts are the given ones.
fn table_find_prefix<V>(t: &Vec<Rec<V>>, k1: &Vec<u8>, k2: &Vec<u8>) -> (r: Option<usize>)
    ensures
        match r {
            Some(i) => i < t@.len() && t@[i as int].k1@ == k1@ && t@[i as int].k2@ == k2@,
            None => forall|j: int|
                0 <= j < t@.len() ==> !(t@[j].k1@ == k1@ && t@[j].k2@ == k2@),
        },
{
    let n = t.len();
    let mut i: usize = 0;
    while i < n
        invariant
            n == t@.len(),
            i <= n,
            forall|j: int| 0 <= j < i ==> !(t@[j].k1@ == k1@ && t@[j].k2@ == k2@),
        decreases n - i,
    {
        if bytes_eq(&t[i].k1, k1) && bytes_eq(&t[i].k2, k2) {
            return Some(i);
        }
        i = i + 1;
    }
    None
}

/// Removes every row whose first two key parts are the given ones.
///
/// One row leaves per pass, and the table is a valid intermediate state
/// after each pass, so the bulk deletion is restartable at any point.
pub fn table_remove_prefix<V>(t: &mut Vec<Rec<V>>, k1: &Vec<u8>, k2: &Vec<u8>)
    requires
        unique_keys(old(t)@),
    ensures
        unique_keys(final(t)@),
        table_map(final(t)@) == table_map(old(t)@).remove_keys(prefix_keys(k1@, k2@)),
        rows_from(final(t)@, old(t)@),
{
    let ghost pks: Set<TableKey> = prefix_keys(k1@, k2@);
    proof {
        assert forall|a: int| 0 <= a < t@.len() implies row_in(#[trigger] t@[a], old(t)@) by {
            assert(t@[a] == old(t)@[a]);
        }
    }
    loop
        invariant
            pks == prefix_keys(k1@, k2@),
            unique_keys(t@),
            table_map(t@).remove_keys(pks) == table_map(old(t)@).remove_keys(pks),
            rows_from(t@, old(t)@),
        decreases t@.len(),
    {
        let found = table_find_prefix(t, k1, k2);
        match found {
            Some(i) => {
                proof {
                    let k = rec_key(t@[i as int]);
                    lemma_table_map_remove_idx(t@, i as int);
                    assert(k.0 == k1@ && k.1 == k2@);
                    assert(pks.contains(k));
                    assert(table_map(t@).remove(k).remove_keys(pks) =~= table_map(
                        t@,
                    ).remove_keys(pks));
                }
                let ghost t1 = t@;
                let _ = t.remove(i);
                proof {
                    assert forall|a: int| 0 <= a < t@.len() implies row_in(
                        #[trigger] t@[a],
                        old(t)@,
                    ) by {
                        let j: int = if a < i as int {
                            a
                        } else {
                            a + 1
                        };
                        assert(t@[a] == t1[j]);
                        assert(row_in(t1[j], old(t)@));
                    }
                }
            },
            None => {
                proof {
                    assert forall|k: TableKey| table_map(t@).contains_key(k) implies !pks.contains(
                        k,
                    ) by {
                        lemma_table_map_contains(t@, k);
                        let j = choose|j: int| 0 <= j < t@.len() && rec_key(t@[j]) == k;
                        assert(!(t@[j].k1@ == k1@ && t@[j].k2@ == k2@));
                        assert(k.0 == t@[j].k1@ && k.1 == t@[j].k2@);
                    }
                    assert(table_map(t@) =~= table_map(t@).remove_keys(pks));
                }
                return ;
            },
        }
    }
}

} // verus!
