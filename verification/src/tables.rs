//! Tables: lists of rows that are found by a key, filtered, changed and sorted.

use crate::records::Record;
use crate::text::same;
use vstd::prelude::*;

verus! {

// ---------------------------------------------------------------------------
// Keys
// ---------------------------------------------------------------------------

/// The model of a row with a key.
pub trait Keyed: Sized {
    spec fn key(self) -> Seq<char>;
}

/// A row with a key.
pub trait Row: Record<V = Self::Model> {
    type Model: Keyed;

    /// The key of the row.
    fn key_text(&self) -> (r: &str)
        ensures
            r@ == self@.key(),
    ;
}

/// Whether a row with the key `k` is in the table.
pub open spec fn has_key<M: Keyed>(rows: Seq<M>, k: Seq<char>) -> bool {
    exists|i: int| 0 <= i < rows.len() && (#[trigger] rows[i]).key() == k
}

/// Whether no two rows have the same key.
pub open spec fn unique<M: Keyed>(rows: Seq<M>) -> bool {
    forall|i: int, j: int|
        0 <= i < j < rows.len() ==> (#[trigger] rows[i]).key() != (#[trigger] rows[j]).key()
}

/// The index of the first row with the key `k`, from index `i` on.
pub open spec fn index_from<M: Keyed>(rows: Seq<M>, k: Seq<char>, i: int) -> Option<int>
    decreases rows.len() - i,
{
    if i < 0 || i >= rows.len() {
        None
    } else if rows[i].key() == k {
        Some(i)
    } else {
        index_from(rows, k, i + 1)
    }
}

/// The row with the key `k`.
pub open spec fn row_of<M: Keyed>(rows: Seq<M>, k: Seq<char>) -> Option<M> {
    match index_from(rows, k, 0) {
        Some(i) => Some(rows[i]),
        None => None,
    }
}

pub proof fn lemma_index_from<M: Keyed>(rows: Seq<M>, k: Seq<char>, i: int)
    requires
        0 <= i,
    ensures
        match index_from(rows, k, i) {
            Some(n) => i <= n < rows.len() && rows[n].key() == k && forall|j: int|
                i <= j < n ==> (#[trigger] rows[j]).key() != k,
            None => forall|j: int| i <= j < rows.len() ==> (#[trigger] rows[j]).key() != k,
        },
    decreases rows.len() - i,
{
    if i < rows.len() && rows[i].key() != k {
        lemma_index_from(rows, k, i + 1);
    }
}

/// A row is found exactly where one with the key is in the table, and it has the key.
pub proof fn lemma_row_of<M: Keyed>(rows: Seq<M>, k: Seq<char>)
    ensures
        row_of(rows, k) is Some <==> has_key(rows, k),
        row_of(rows, k) matches Some(m) ==> m.key() == k && rows.contains(m),
{
    lemma_index_from(rows, k, 0);
}

/// In a table with unique keys, the row that is found by a key is the one that has it.
pub proof fn lemma_row_is<M: Keyed>(rows: Seq<M>, i: int)
    requires
        unique(rows),
        0 <= i < rows.len(),
    ensures
        row_of(rows, rows[i].key()) == Some(rows[i]),
{
    lemma_index_from(rows, rows[i].key(), 0);
    let n = index_from(rows, rows[i].key(), 0)->0;
    if n < i {
        assert(rows[n].key() != rows[i].key());
    } else if i < n {
        assert(rows[i].key() != rows[n].key());
    }
}

/// The index of the first row with the key `k`.
pub fn find_key<T: Row>(rows: &Vec<T>, k: &str) -> (r: Option<usize>)
    ensures
        match r {
            Some(n) => index_from(crate::records::views(rows@), k@, 0) == Some(n as int) && n
                < rows@.len() && rows@[n as int]@.key() == k@,
            None => index_from(crate::records::views(rows@), k@, 0) is None,
        },
        r is Some <==> has_key(crate::records::views(rows@), k@),
{
    let ghost all = crate::records::views(rows@);
    proof {
        lemma_row_of(all, k@);
    }
    let mut i: usize = 0;
    while i < rows.len()
        invariant
            i <= rows.len(),
            all == crate::records::views(rows@),
            row_of(all, k@) is Some <==> has_key(all, k@),
            index_from(all, k@, 0) == index_from(all, k@, i as int),
        decreases rows.len() - i,
    {
        assert(all[i as int] == rows@[i as int]@);
        if same(rows[i].key_text(), k) {
            return Some(i);
        }
        i = i + 1;
    }
    None
}

/// Whether a row with the key `k` is in the table.
pub fn contains_key<T: Row>(rows: &Vec<T>, k: &str) -> (r: bool)
    ensures
        r == has_key(crate::records::views(rows@), k@),
{
    find_key(rows, k).is_some()
}

/// A copy of the row with the key `k`.
pub fn get_row<T: Row>(rows: &Vec<T>, k: &str) -> (r: Option<T>)
    ensures
        match r {
            Some(t) => row_of(crate::records::views(rows@), k@) == Some(t@),
            None => row_of(crate::records::views(rows@), k@) is None,
        },
{
    match find_key(rows, k) {
        Some(i) => {
            assert(crate::records::views(rows@)[i as int] == rows@[i as int]@);
            Some(rows[i].copy())
        },
        None => None,
    }
}

/// Whether no two rows have the same key.
pub fn check_unique<T: Row>(rows: &Vec<T>) -> (r: bool)
    ensures
        r == unique(crate::records::views(rows@)),
{
    let ghost all = crate::records::views(rows@);
    let mut j: usize = 0;
    while j < rows.len()
        invariant
            j <= rows.len(),
            all == crate::records::views(rows@),
            forall|a: int, b: int|
                0 <= a < b < j ==> (#[trigger] all[a]).key() != (#[trigger] all[b]).key(),
        decreases rows.len() - j,
    {
        let mut i: usize = 0;
        while i < j
            invariant
                i <= j < rows.len(),
                all == crate::records::views(rows@),
                forall|a: int| 0 <= a < i ==> (#[trigger] all[a]).key() != all[j as int].key(),
            decreases j - i,
        {
            assert(all[i as int] == rows@[i as int]@);
            assert(all[j as int] == rows@[j as int]@);
            if same(rows[i].key_text(), rows[j].key_text()) {
                return false;
            }
            i = i + 1;
        }
        j = j + 1;
    }
    true
}

// ---------------------------------------------------------------------------
// Filtering
// ---------------------------------------------------------------------------

/// The rows with another key than `k`.
pub open spec fn but<M: Keyed>(k: Seq<char>) -> spec_fn(M) -> bool {
    |m: M| m.key() != k
}

/// Keeps the rows that meet `p`.
pub(crate) fn keep_rows<T: View, F: Fn(&T) -> bool>(
    rows: &mut Vec<T>,
    keep: F,
    Ghost(p): Ghost<spec_fn(T::V) -> bool>,
)
    requires
        forall|t: &T| #[trigger] call_requires(keep, (t,)),
        forall|t: &T, b: bool| #[trigger] call_ensures(keep, (t,), b) ==> b == p(t@),
    ensures
        crate::records::views(final(rows)@) == crate::records::views(old(rows)@).filter(p),
{
    let ghost all = crate::records::views(rows@);
    let ghost mut done: int = 0;
    let mut i: usize = 0;
    proof {
        reveal(Seq::filter);
        assert(all.take(0).filter(p) =~= Seq::empty());
        assert(all.skip(0) =~= all);
        assert(crate::records::views(rows@) =~= Seq::empty() + all);
    }
    while i < rows.len()
        invariant
            forall|t: &T| #[trigger] call_requires(keep, (t,)),
            forall|t: &T, b: bool| #[trigger] call_ensures(keep, (t,), b) ==> b == p(t@),
            0 <= done <= all.len(),
            i <= rows.len(),
            all.take(done).filter(p).len() == i,
            crate::records::views(rows@) == all.take(done).filter(p) + all.skip(done),
        decreases rows.len() - i,
    {
        let ghost now = crate::records::views(rows@);
        proof {
            reveal(Seq::filter);
            assert(now.len() == rows@.len());
            assert(now[i as int] == rows@[i as int]@);
            assert(now[i as int] == all[done]);
            assert(all.take(done + 1).drop_last() =~= all.take(done));
            assert(all.take(done + 1).last() == all[done]);
        }
        if keep(&rows[i]) {
            i = i + 1;
            assert(now =~= all.take(done + 1).filter(p) + all.skip(done + 1));
        } else {
            let ghost old_rows = rows@;
            let _ = rows.remove(i);
            assert(rows@ == old_rows.remove(i as int));
            assert(crate::records::views(rows@) =~= now.remove(i as int));
            assert(now.remove(i as int) =~= all.take(done).filter(p) + all.skip(done + 1));
            assert(crate::records::views(rows@) =~= all.take(done + 1).filter(p) + all.skip(
                done + 1,
            ));
        }
        proof {
            done = done + 1;
        }
    }
    proof {
        assert(done == all.len());
        assert(all.take(done) =~= all);
        assert(all.skip(done) =~= Seq::empty());
        assert(all.filter(p) + Seq::empty() =~= all.filter(p));
    }
}

/// Copies of the rows that meet `p`.
pub(crate) fn select_rows<T: Record, F: Fn(&T) -> bool>(
    rows: &Vec<T>,
    keep: F,
    Ghost(p): Ghost<spec_fn(T::V) -> bool>,
) -> (r: Vec<T>)
    requires
        forall|t: &T| #[trigger] call_requires(keep, (t,)),
        forall|t: &T, b: bool| #[trigger] call_ensures(keep, (t,), b) ==> b == p(t@),
    ensures
        crate::records::views(r@) == crate::records::views(rows@).filter(p),
{
    let ghost all = crate::records::views(rows@);
    let mut out: Vec<T> = Vec::new();
    let mut i: usize = 0;
    proof {
        reveal(Seq::filter);
        assert(all.take(0).filter(p) =~= Seq::empty());
        assert(crate::records::views(out@) =~= Seq::empty());
    }
    while i < rows.len()
        invariant
            forall|t: &T| #[trigger] call_requires(keep, (t,)),
            forall|t: &T, b: bool| #[trigger] call_ensures(keep, (t,), b) ==> b == p(t@),
            i <= rows.len(),
            all == crate::records::views(rows@),
            crate::records::views(out@) == all.take(i as int).filter(p),
        decreases rows.len() - i,
    {
        let ghost before = crate::records::views(out@);
        proof {
            reveal(Seq::filter);
            assert(all.take(i + 1).drop_last() =~= all.take(i as int));
            assert(all.take(i + 1).last() == rows@[i as int]@);
        }
        if keep(&rows[i]) {
            out.push(rows[i].copy());
            assert(crate::records::views(out@) =~= before.push(rows@[i as int]@));
        }
        i = i + 1;
    }
    assert(all.take(all.len() as int) =~= all);
    out
}

/// What is kept of a table is part of it and meets the condition, and what meets it is kept.
pub proof fn lemma_filter<A>(rows: Seq<A>, p: spec_fn(A) -> bool)
    ensures
        rows.filter(p).len() <= rows.len(),
        forall|i: int|
            #![trigger rows.filter(p)[i]]
            0 <= i < rows.filter(p).len() ==> p(rows.filter(p)[i]) && rows.contains(
                rows.filter(p)[i],
            ),
        forall|i: int|
            #![trigger rows[i]]
            0 <= i < rows.len() && p(rows[i]) ==> rows.filter(p).contains(rows[i]),
    decreases rows.len(),
{
    reveal(Seq::filter);
    if rows.len() > 0 {
        let head = rows.drop_last();
        lemma_filter(head, p);
        let kept = head.filter(p);
        let all = rows.filter(p);
        assert forall|i: int| 0 <= i < all.len() implies p(#[trigger] all[i]) && rows.contains(
            all[i],
        ) by {
            if i < kept.len() {
                assert(all[i] == kept[i]);
                let j = choose|j: int| 0 <= j < head.len() && head[j] == kept[i];
                assert(rows[j] == all[i]);
            } else {
                assert(rows[rows.len() - 1] == all[i]);
            }
        }
        assert forall|i: int| 0 <= i < rows.len() && p(#[trigger] rows[i]) implies all.contains(
            rows[i],
        ) by {
            if i < head.len() {
                assert(head[i] == rows[i]);
                let j = choose|j: int| 0 <= j < kept.len() && kept[j] == rows[i];
                assert(all[j] == rows[i]);
            } else {
                assert(all[all.len() - 1] == rows[i]);
            }
        }
    }
}

/// A table from which rows are taken away keeps its unique keys.
pub proof fn lemma_unique_filter<M: Keyed>(rows: Seq<M>, p: spec_fn(M) -> bool)
    requires
        unique(rows),
    ensures
        unique(rows.filter(p)),
    decreases rows.len(),
{
    reveal(Seq::filter);
    if rows.len() > 0 {
        let head = rows.drop_last();
        assert(unique(head)) by {
            assert forall|i: int, j: int| 0 <= i < j < head.len() implies (#[trigger]
            head[i]).key() != (#[trigger] head[j]).key() by {
                assert(head[i] == rows[i]);
                assert(head[j] == rows[j]);
            }
        }
        lemma_unique_filter(head, p);
        lemma_filter(head, p);
        let kept = head.filter(p);
        let all = rows.filter(p);
        assert forall|i: int, j: int| 0 <= i < j < all.len() implies (#[trigger] all[i]).key() != (
        #[trigger] all[j]).key() by {
            if j < kept.len() {
                assert(all[i] == kept[i]);
                assert(all[j] == kept[j]);
            } else {
                assert(all[i] == kept[i]);
                let n = choose|n: int| 0 <= n < head.len() && head[n] == kept[i];
                assert(rows[n] == kept[i]);
                assert(all[j] == rows[rows.len() - 1]);
            }
        }
    }
}

/// A key is in what is kept exactly where a row with the key is kept.
pub proof fn lemma_key_filter<M: Keyed>(rows: Seq<M>, p: spec_fn(M) -> bool, k: Seq<char>)
    requires
        unique(rows),
    ensures
        has_key(rows.filter(p), k) <==> (row_of(rows, k) matches Some(m) && p(m)),
        has_key(rows.filter(p), k) ==> row_of(rows.filter(p), k) == row_of(rows, k),
{
    lemma_filter(rows, p);
    lemma_unique_filter(rows, p);
    lemma_row_of(rows, k);
    lemma_row_of(rows.filter(p), k);
    let kept = rows.filter(p);
    if has_key(kept, k) {
        let i = choose|i: int| 0 <= i < kept.len() && (#[trigger] kept[i]).key() == k;
        lemma_row_is(kept, i);
        assert(rows.contains(kept[i]));
        let n = choose|n: int| 0 <= n < rows.len() && rows[n] == kept[i];
        lemma_row_is(rows, n);
    }
    if row_of(rows, k) matches Some(m) && p(m) {
        let m = row_of(rows, k)->0;
        let n = choose|n: int| 0 <= n < rows.len() && rows[n] == m;
        assert(kept.contains(rows[n]));
        let i = choose|i: int| 0 <= i < kept.len() && kept[i] == m;
        assert(kept[i].key() == k);
    }
}

/// Whether every row meets `p`.
pub(crate) fn all_rows<T: View, F: Fn(&T) -> bool>(
    rows: &Vec<T>,
    ok: F,
    Ghost(p): Ghost<spec_fn(T::V) -> bool>,
) -> (r: bool)
    requires
        forall|t: &T| #[trigger] call_requires(ok, (t,)),
        forall|t: &T, b: bool| #[trigger] call_ensures(ok, (t,), b) ==> b == p(t@),
    ensures
        r ==> forall|i: int|
            0 <= i < rows@.len() ==> p(#[trigger] crate::records::views(rows@)[i]),
        !r ==> exists|i: int|
            0 <= i < rows@.len() && !p(#[trigger] crate::records::views(rows@)[i]),
{
    let ghost all = crate::records::views(rows@);
    let mut i: usize = 0;
    while i < rows.len()
        invariant
            forall|t: &T| #[trigger] call_requires(ok, (t,)),
            forall|t: &T, b: bool| #[trigger] call_ensures(ok, (t,), b) ==> b == p(t@),
            i <= rows@.len(),
            all == crate::records::views(rows@),
            forall|j: int| 0 <= j < i ==> p(#[trigger] all[j]),
        decreases rows.len() - i,
    {
        assert(all[i as int] == rows@[i as int]@);
        if !ok(&rows[i]) {
            return false;
        }
        i = i + 1;
    }
    true
}

// ---------------------------------------------------------------------------
// Changing and adding
// ---------------------------------------------------------------------------

/// Changes every row.
pub(crate) fn change_rows<T: View, F: Fn(&T) -> T>(
    rows: &mut Vec<T>,
    change: F,
    Ghost(g): Ghost<spec_fn(T::V) -> T::V>,
)
    requires
        forall|t: &T| #[trigger] call_requires(change, (t,)),
        forall|t: &T, u: T| #[trigger] call_ensures(change, (t,), u) ==> u@ == g(t@),
    ensures
        crate::records::views(final(rows)@) == crate::records::views(old(rows)@).map_values(g),
{
    let ghost all = crate::records::views(rows@);
    let mut i: usize = 0;
    while i < rows.len()
        invariant
            forall|t: &T| #[trigger] call_requires(change, (t,)),
            forall|t: &T, u: T| #[trigger] call_ensures(change, (t,), u) ==> u@ == g(t@),
            i <= rows.len(),
            all.len() == rows@.len(),
            forall|j: int| 0 <= j < i ==> (#[trigger] rows@[j])@ == g(all[j]),
            forall|j: int| i <= j < rows@.len() ==> (#[trigger] rows@[j])@ == all[j],
        decreases rows.len() - i,
    {
        let next = change(&rows[i]);
        rows.set(i, next);
        i = i + 1;
    }
    assert(crate::records::views(rows@) =~= all.map_values(g));
}

/// A change that leaves the keys leaves them unique, and the same.
pub proof fn lemma_change_keys<M: Keyed>(rows: Seq<M>, g: spec_fn(M) -> M)
    requires
        forall|m: M| (#[trigger] g(m)).key() == m.key(),
    ensures
        unique(rows) ==> unique(rows.map_values(g)),
        forall|k: Seq<char>| #[trigger] has_key(rows.map_values(g), k) == has_key(rows, k),
        forall|k: Seq<char>| #[trigger]
            row_of(rows.map_values(g), k) == match row_of(rows, k) {
                Some(m) => Some(g(m)),
                None => None,
            },
{
    let all = rows.map_values(g);
    assert forall|i: int| 0 <= i < rows.len() implies (#[trigger] all[i]).key()
        == rows[i].key() by {}
    if unique(rows) {
        assert forall|i: int, j: int| 0 <= i < j < all.len() implies (#[trigger] all[i]).key() != (
        #[trigger] all[j]).key() by {
            assert(rows[i].key() != rows[j].key());
        }
    }
    assert forall|k: Seq<char>| #[trigger] has_key(all, k) == has_key(rows, k) by {
        if has_key(rows, k) {
            let i = choose|i: int| 0 <= i < rows.len() && (#[trigger] rows[i]).key() == k;
            assert(all[i].key() == k);
        }
        if has_key(all, k) {
            let i = choose|i: int| 0 <= i < all.len() && (#[trigger] all[i]).key() == k;
            assert(rows[i].key() == k);
        }
    }
    assert forall|k: Seq<char>| #[trigger] row_of(all, k) == match row_of(rows, k) {
        Some(m) => Some(g(m)),
        None => None,
    } by {
        lemma_change_index(rows, g, k, 0);
        lemma_index_from(rows, k, 0);
    }
}

proof fn lemma_change_index<M: Keyed>(rows: Seq<M>, g: spec_fn(M) -> M, k: Seq<char>, i: int)
    requires
        forall|m: M| (#[trigger] g(m)).key() == m.key(),
        0 <= i,
    ensures
        index_from(rows.map_values(g), k, i) == index_from(rows, k, i),
    decreases rows.len() - i,
{
    if i < rows.len() {
        assert(rows.map_values(g)[i] == g(rows[i]));
        if rows[i].key() != k {
            lemma_change_index(rows, g, k, i + 1);
        }
    }
}

/// A row with a new key leaves the keys unique, and is found.
pub proof fn lemma_push_key<M: Keyed>(rows: Seq<M>, m: M)
    requires
        !has_key(rows, m.key()),
    ensures
        unique(rows) ==> unique(rows.push(m)),
        forall|k: Seq<char>| #[trigger]
            has_key(rows.push(m), k) <==> has_key(rows, k) || m.key() == k,
        row_of(rows.push(m), m.key()) == Some(m),
        forall|k: Seq<char>| k != m.key() ==> #[trigger] row_of(rows.push(m), k) == row_of(rows, k),
{
    let all = rows.push(m);
    assert forall|i: int| 0 <= i < rows.len() implies (#[trigger] all[i]).key() != m.key() by {
        assert(rows[i].key() != m.key());
    }
    if unique(rows) {
        assert forall|i: int, j: int| 0 <= i < j < all.len() implies (#[trigger] all[i]).key() != (
        #[trigger] all[j]).key() by {
            if j < rows.len() {
                assert(rows[i].key() != rows[j].key());
            }
        }
    }
    assert forall|k: Seq<char>| #[trigger] has_key(all, k) <==> has_key(rows, k) || m.key()
        == k by {
        if has_key(rows, k) {
            let i = choose|i: int| 0 <= i < rows.len() && (#[trigger] rows[i]).key() == k;
            assert(all[i].key() == k);
        }
        if m.key() == k {
            assert(all[rows.len() as int].key() == k);
        }
        if has_key(all, k) {
            let i = choose|i: int| 0 <= i < all.len() && (#[trigger] all[i]).key() == k;
            if i < rows.len() {
                assert(rows[i].key() == k);
            }
        }
    }
    assert forall|k: Seq<char>| k != m.key() implies #[trigger] row_of(all, k) == row_of(
        rows,
        k,
    ) by {
        lemma_push_index(rows, m, k, 0);
        lemma_index_from(rows, k, 0);
    }
    lemma_index_from(all, m.key(), 0);
    assert(all[rows.len() as int].key() == m.key());
}

proof fn lemma_push_index<M: Keyed>(rows: Seq<M>, m: M, k: Seq<char>, i: int)
    requires
        0 <= i <= rows.len(),
        m.key() != k,
    ensures
        index_from(rows.push(m), k, i) == index_from(rows, k, i),
    decreases rows.len() - i,
{
    let all = rows.push(m);
    if i < rows.len() {
        assert(all[i] == rows[i]);
        if rows[i].key() != k {
            lemma_push_index(rows, m, k, i + 1);
        }
    } else {
        assert(all[i] == m);
        assert(index_from(all, k, i + 1) is None);
    }
}

// ---------------------------------------------------------------------------
// Pairs
// ---------------------------------------------------------------------------

/// The model of a row that is found by two texts together.
pub trait Paired: Sized {
    spec fn pair(self) -> (Seq<char>, Seq<char>);
}

/// A row that is found by two texts together.
pub trait PairRow: Record<V = Self::PairModel> {
    type PairModel: Paired;

    /// The first of the two texts.
    fn left_text(&self) -> (r: &str)
        ensures
            r@ == self@.pair().0,
    ;

    /// The second of the two texts.
    fn right_text(&self) -> (r: &str)
        ensures
            r@ == self@.pair().1,
    ;
}

/// Whether a row with the two texts is in the table.
pub open spec fn has_pair<M: Paired>(rows: Seq<M>, a: Seq<char>, b: Seq<char>) -> bool {
    exists|i: int| 0 <= i < rows.len() && (#[trigger] rows[i]).pair() == (a, b)
}

/// Whether no two rows have the same two texts.
pub open spec fn unique_pairs<M: Paired>(rows: Seq<M>) -> bool {
    forall|i: int, j: int|
        0 <= i < j < rows.len() ==> (#[trigger] rows[i]).pair() != (#[trigger] rows[j]).pair()
}

/// The index of the first row with the two texts, from index `i` on.
pub open spec fn pair_index<M: Paired>(
    rows: Seq<M>,
    a: Seq<char>,
    b: Seq<char>,
    i: int,
) -> Option<int>
    decreases rows.len() - i,
{
    if i < 0 || i >= rows.len() {
        None
    } else if rows[i].pair() == (a, b) {
        Some(i)
    } else {
        pair_index(rows, a, b, i + 1)
    }
}

/// The row with the two texts.
pub open spec fn pair_row<M: Paired>(rows: Seq<M>, a: Seq<char>, b: Seq<char>) -> Option<M> {
    match pair_index(rows, a, b, 0) {
        Some(i) => Some(rows[i]),
        None => None,
    }
}

pub proof fn lemma_pair_index<M: Paired>(rows: Seq<M>, a: Seq<char>, b: Seq<char>, i: int)
    requires
        0 <= i,
    ensures
        match pair_index(rows, a, b, i) {
            Some(n) => i <= n < rows.len() && rows[n].pair() == (a, b),
            None => forall|j: int| i <= j < rows.len() ==> (#[trigger] rows[j]).pair() != (a, b),
        },
    decreases rows.len() - i,
{
    if i < rows.len() && rows[i].pair() != (a, b) {
        lemma_pair_index(rows, a, b, i + 1);
    }
}

/// A row is found exactly where one with the two texts is in the table.
pub proof fn lemma_pair_row<M: Paired>(rows: Seq<M>, a: Seq<char>, b: Seq<char>)
    ensures
        pair_row(rows, a, b) is Some <==> has_pair(rows, a, b),
        pair_row(rows, a, b) matches Some(m) ==> m.pair() == (a, b) && rows.contains(m),
{
    lemma_pair_index(rows, a, b, 0);
}

/// The index of the first row with the two texts.
pub fn find_pair<T: PairRow>(rows: &Vec<T>, a: &str, b: &str) -> (r: Option<usize>)
    ensures
        match r {
            Some(n) => pair_index(crate::records::views(rows@), a@, b@, 0) == Some(n as int) && n
                < rows@.len(),
            None => pair_index(crate::records::views(rows@), a@, b@, 0) is None,
        },
        r is Some <==> has_pair(crate::records::views(rows@), a@, b@),
{
    let ghost all = crate::records::views(rows@);
    proof {
        lemma_pair_row(all, a@, b@);
    }
    let mut i: usize = 0;
    while i < rows.len()
        invariant
            i <= rows.len(),
            all == crate::records::views(rows@),
            pair_row(all, a@, b@) is Some <==> has_pair(all, a@, b@),
            pair_index(all, a@, b@, 0) == pair_index(all, a@, b@, i as int),
        decreases rows.len() - i,
    {
        assert(all[i as int] == rows@[i as int]@);
        if same(rows[i].left_text(), a) && same(rows[i].right_text(), b) {
            return Some(i);
        }
        i = i + 1;
    }
    None
}

/// Whether no two rows have the same two texts.
pub fn check_unique_pairs<T: PairRow>(rows: &Vec<T>) -> (r: bool)
    ensures
        r == unique_pairs(crate::records::views(rows@)),
{
    let ghost all = crate::records::views(rows@);
    let mut j: usize = 0;
    while j < rows.len()
        invariant
            j <= rows.len(),
            all == crate::records::views(rows@),
            forall|a: int, b: int|
                0 <= a < b < j ==> (#[trigger] all[a]).pair() != (#[trigger] all[b]).pair(),
        decreases rows.len() - j,
    {
        let mut i: usize = 0;
        while i < j
            invariant
                i <= j < rows.len(),
                all == crate::records::views(rows@),
                forall|a: int| 0 <= a < i ==> (#[trigger] all[a]).pair() != all[j as int].pair(),
            decreases j - i,
        {
            assert(all[i as int] == rows@[i as int]@);
            assert(all[j as int] == rows@[j as int]@);
            if same(rows[i].left_text(), rows[j].left_text()) && same(
                rows[i].right_text(),
                rows[j].right_text(),
            ) {
                return false;
            }
            i = i + 1;
        }
        j = j + 1;
    }
    true
}

/// A table from which rows are taken away keeps its unique pairs.
pub proof fn lemma_unique_pairs_filter<M: Paired>(rows: Seq<M>, p: spec_fn(M) -> bool)
    requires
        unique_pairs(rows),
    ensures
        unique_pairs(rows.filter(p)),
    decreases rows.len(),
{
    reveal(Seq::filter);
    if rows.len() > 0 {
        let head = rows.drop_last();
        assert(unique_pairs(head)) by {
            assert forall|i: int, j: int| 0 <= i < j < head.len() implies (#[trigger]
            head[i]).pair() != (#[trigger] head[j]).pair() by {
                assert(head[i] == rows[i]);
                assert(head[j] == rows[j]);
            }
        }
        lemma_unique_pairs_filter(head, p);
        lemma_filter(head, p);
        let kept = head.filter(p);
        let all = rows.filter(p);
        assert forall|i: int, j: int| 0 <= i < j < all.len() implies (#[trigger] all[i]).pair()
            != (#[trigger] all[j]).pair() by {
            if j < kept.len() {
                assert(all[i] == kept[i]);
                assert(all[j] == kept[j]);
            } else {
                assert(all[i] == kept[i]);
                let n = choose|n: int| 0 <= n < head.len() && head[n] == kept[i];
                assert(rows[n] == kept[i]);
                assert(all[j] == rows[rows.len() - 1]);
            }
        }
    }
}

/// A row with a new pair of texts leaves the pairs unique.
pub proof fn lemma_push_pair<M: Paired>(rows: Seq<M>, m: M)
    requires
        !has_pair(rows, m.pair().0, m.pair().1),
    ensures
        unique_pairs(rows) ==> unique_pairs(rows.push(m)),
        forall|a: Seq<char>, b: Seq<char>| #[trigger]
            has_pair(rows.push(m), a, b) <==> has_pair(rows, a, b) || m.pair() == (a, b),
{
    let all = rows.push(m);
    if unique_pairs(rows) {
        assert forall|i: int, j: int| 0 <= i < j < all.len() implies (#[trigger] all[i]).pair()
            != (#[trigger] all[j]).pair() by {
            if j < rows.len() {
                assert(rows[i].pair() != rows[j].pair());
            } else {
                assert(rows[i].pair() != m.pair());
            }
        }
    }
    assert forall|a: Seq<char>, b: Seq<char>| #[trigger] has_pair(all, a, b) <==> has_pair(
        rows,
        a,
        b,
    ) || m.pair() == (a, b) by {
        if has_pair(rows, a, b) {
            let i = choose|i: int| 0 <= i < rows.len() && (#[trigger] rows[i]).pair() == (a, b);
            assert(all[i].pair() == (a, b));
        }
        if m.pair() == (a, b) {
            assert(all[rows.len() as int].pair() == (a, b));
        }
        if has_pair(all, a, b) {
            let i = choose|i: int| 0 <= i < all.len() && (#[trigger] all[i]).pair() == (a, b);
            if i < rows.len() {
                assert(rows[i].pair() == (a, b));
            }
        }
    }
}

/// What meets the condition throughout is kept as it is.
pub proof fn lemma_filter_all<A>(rows: Seq<A>, p: spec_fn(A) -> bool)
    requires
        forall|i: int| 0 <= i < rows.len() ==> p(#[trigger] rows[i]),
    ensures
        rows.filter(p) == rows,
    decreases rows.len(),
{
    reveal(Seq::filter);
    if rows.len() > 0 {
        let head = rows.drop_last();
        assert forall|i: int| 0 <= i < head.len() implies p(#[trigger] head[i]) by {
            assert(head[i] == rows[i]);
        }
        lemma_filter_all(head, p);
        assert(p(rows[rows.len() - 1]));
        assert(head.push(rows.last()) =~= rows);
    }
}

// ---------------------------------------------------------------------------
// Sorting
// ---------------------------------------------------------------------------

/// The sorted rows `s` with `x` among them: after the last row that may stand before it.
pub open spec fn insert_by<A>(s: Seq<A>, x: A, le: spec_fn(A, A) -> bool) -> Seq<A>
    decreases s.len(),
{
    if s.len() == 0 || le(s.last(), x) {
        s.push(x)
    } else {
        insert_by(s.drop_last(), x, le).push(s.last())
    }
}

/// The rows in order; rows that the order does not tell apart stay as they stood.
pub open spec fn sorted_by<A>(s: Seq<A>, le: spec_fn(A, A) -> bool) -> Seq<A>
    decreases s.len(),
{
    if s.len() == 0 {
        s
    } else {
        insert_by(sorted_by(s.drop_last(), le), s.last(), le)
    }
}

/// Whether `le` is an order in which any two rows can be held against each other.
pub open spec fn is_order<A>(le: spec_fn(A, A) -> bool) -> bool {
    &&& forall|a: A, b: A| #[trigger] le(a, b) || le(b, a)
    &&& forall|a: A, b: A, c: A| #[trigger] le(a, b) && #[trigger] le(b, c) ==> le(a, c)
}

/// Whether each row may stand before those after it.
pub open spec fn in_order<A>(s: Seq<A>, le: spec_fn(A, A) -> bool) -> bool {
    forall|i: int, j: int| 0 <= i < j < s.len() ==> #[trigger] le(s[i], s[j])
}

proof fn lemma_insert_by<A>(s: Seq<A>, x: A, le: spec_fn(A, A) -> bool)
    requires
        is_order(le),
        in_order(s, le),
    ensures
        in_order(insert_by(s, x, le), le),
        insert_by(s, x, le).to_multiset() == s.to_multiset().insert(x),
    decreases s.len(),
{
    broadcast use vstd::seq_lib::group_to_multiset_ensures;

    if s.len() == 0 || le(s.last(), x) {
        let r = s.push(x);
        assert forall|i: int, j: int| 0 <= i < j < r.len() implies #[trigger] le(r[i], r[j]) by {
            if j == s.len() {
                if i < s.len() - 1 {
                    assert(le(s[i], s[s.len() - 1]));
                    assert(le(s[s.len() - 1], x));
                }
            } else {
                assert(le(s[i], s[j]));
            }
        }
    } else {
        let head = s.drop_last();
        let last = s.last();
        assert(in_order(head, le)) by {
            assert forall|i: int, j: int| 0 <= i < j < head.len() implies #[trigger] le(
                head[i],
                head[j],
            ) by {
                assert(le(s[i], s[j]));
            }
        }
        lemma_insert_by(head, x, le);
        let inner = insert_by(head, x, le);
        let r = inner.push(last);
        assert(s =~= head.push(last));
        assert(r.to_multiset() =~= s.to_multiset().insert(x));
        assert forall|i: int, j: int| 0 <= i < j < r.len() implies #[trigger] le(r[i], r[j]) by {
            if j < inner.len() {
                assert(le(inner[i], inner[j]));
            } else {
                let y = inner[i];
                assert(inner.to_multiset().count(y) > 0) by {
                    assert(inner.contains(y));
                }
                assert(head.to_multiset().insert(x).count(y) > 0);
                if y != x {
                    assert(head.to_multiset().count(y) > 0);
                    assert(head.contains(y));
                    let n = choose|n: int| 0 <= n < head.len() && head[n] == y;
                    assert(le(s[n], s[s.len() - 1]));
                } else {
                    assert(!le(last, x));
                    assert(le(x, last));
                }
            }
        }
    }
}

/// Sorting puts rows in order and neither loses nor adds any.
pub proof fn lemma_sorted_by<A>(s: Seq<A>, le: spec_fn(A, A) -> bool)
    requires
        is_order(le),
    ensures
        in_order(sorted_by(s, le), le),
        sorted_by(s, le).to_multiset() == s.to_multiset(),
        sorted_by(s, le).len() == s.len(),
    decreases s.len(),
{
    broadcast use vstd::seq_lib::group_to_multiset_ensures;

    if s.len() > 0 {
        lemma_sorted_by(s.drop_last(), le);
        lemma_insert_by(sorted_by(s.drop_last(), le), s.last(), le);
        assert(s =~= s.drop_last().push(s.last()));
        assert(sorted_by(s, le).to_multiset().len() == s.to_multiset().len());
    }
}

/// The same rows are in the sorted table as in the table.
pub proof fn lemma_sorted_contains<A>(s: Seq<A>, le: spec_fn(A, A) -> bool)
    requires
        is_order(le),
    ensures
        forall|x: A| #[trigger] sorted_by(s, le).contains(x) <==> s.contains(x),
{
    broadcast use vstd::seq_lib::group_to_multiset_ensures;

    lemma_sorted_by(s, le);
    assert forall|x: A| #[trigger] sorted_by(s, le).contains(x) <==> s.contains(x) by {
        assert(sorted_by(s, le).contains(x) <==> sorted_by(s, le).to_multiset().count(x) > 0);
        assert(s.contains(x) <==> s.to_multiset().count(x) > 0);
    }
}

/// Sorts the rows.
pub(crate) fn sort_rows<T: View, F: Fn(&T, &T) -> bool>(
    rows: Vec<T>,
    before: F,
    Ghost(le): Ghost<spec_fn(T::V, T::V) -> bool>,
) -> (r: Vec<T>)
    requires
        forall|a: &T, b: &T| #[trigger] call_requires(before, (a, b)),
        forall|a: &T, b: &T, x: bool| #[trigger]
            call_ensures(before, (a, b), x) ==> x == le(a@, b@),
    ensures
        crate::records::views(r@) == sorted_by(crate::records::views(rows@), le),
{
    let ghost all = crate::records::views(rows@);
    let mut out: Vec<T> = Vec::new();
    let mut rest = rows;
    assert(crate::records::views(out@) =~= sorted_by(all.take(0), le));
    assert(crate::records::views(rest@) =~= all.skip(0));
    while rest.len() > 0
        invariant
            forall|a: &T, b: &T| #[trigger] call_requires(before, (a, b)),
            forall|a: &T, b: &T, x: bool| #[trigger]
                call_ensures(before, (a, b), x) ==> x == le(a@, b@),
            out@.len() + rest@.len() == all.len(),
            crate::records::views(rest@) == all.skip(out@.len() as int),
            crate::records::views(out@) == sorted_by(all.take(out@.len() as int), le),
        decreases rest.len(),
    {
        let ghost n = out@.len() as int;
        let ghost sorted = crate::records::views(out@);
        let ghost left = crate::records::views(rest@);
        assert(left[0] == rest@[0]@);
        let ghost old_rest = rest@;
        let x = rest.remove(0);
        assert(rest@ == old_rest.remove(0));
        assert(crate::records::views(rest@) =~= left.remove(0));
        assert(left.remove(0) =~= all.skip(n + 1));
        assert(crate::records::views(rest@) =~= all.skip(n + 1));
        assert(x@ == all[n]);
        let mut pos: usize = out.len();
        assert(sorted.take(pos as int) =~= sorted);
        assert(sorted.skip(pos as int) =~= Seq::empty());
        assert(insert_by(sorted, x@, le) =~= insert_by(sorted, x@, le) + Seq::empty());
        while pos > 0 && !before(&out[pos - 1], &x)
            invariant
                forall|a: &T, b: &T| #[trigger] call_requires(before, (a, b)),
                forall|a: &T, b: &T, v: bool| #[trigger]
                    call_ensures(before, (a, b), v) ==> v == le(a@, b@),
                pos <= out@.len(),
                sorted == crate::records::views(out@),
                insert_by(sorted, x@, le) == insert_by(sorted.take(pos as int), x@, le)
                    + sorted.skip(pos as int),
            decreases pos,
        {
            proof {
                let part = sorted.take(pos as int);
                assert(part.last() == out@[pos - 1]@);
                assert(part.drop_last() =~= sorted.take(pos - 1));
                assert(insert_by(part.drop_last(), x@, le).push(part.last()) + sorted.skip(
                    pos as int,
                ) =~= insert_by(sorted.take(pos - 1), x@, le) + sorted.skip(pos - 1));
            }
            pos = pos - 1;
        }
        proof {
            let part = sorted.take(pos as int);
            if pos > 0 {
                assert(part.last() == out@[pos - 1]@);
            }
            assert(insert_by(part, x@, le) == part.push(x@));
        }
        let ghost added = x@;
        out.insert(pos, x);
        proof {
            assert(crate::records::views(out@) =~= sorted.take(pos as int).push(added)
                + sorted.skip(pos as int));
            assert(all.take(n + 1).drop_last() =~= all.take(n));
            assert(all.take(n + 1).last() == all[n]);
        }
    }
    assert(all.take(all.len() as int) =~= all);
    out
}

/// What comes last is put behind everything that does not come after it, and before all the rest:
/// rows that are alike stay in the order that they came in.
pub proof fn law_alike_rows_keep_their_order<A>(s: Seq<A>, x: A, le: spec_fn(A, A) -> bool)
    requires
        is_order(le),
    ensures
        exists|k: int|
            0 <= k <= s.len() && sorted_by(s.push(x), le) == #[trigger] sorted_by(s, le).take(k)
                + seq![x] + sorted_by(s, le).skip(k) && (forall|i: int|
                0 <= i < k ==> le(#[trigger] sorted_by(s, le)[i], x)) && (forall|i: int|
                k <= i < s.len() ==> !le(#[trigger] sorted_by(s, le)[i], x)),
{
    let r = sorted_by(s, le);
    assert(s.push(x).drop_last() =~= s);
    assert(s.push(x).last() == x);
    lemma_sorted_by(s, le);
    let k = lemma_put_in(r, x, le);
    assert(sorted_by(s.push(x), le) == r.take(k) + seq![x] + r.skip(k));
}

proof fn lemma_put_in<A>(r: Seq<A>, x: A, le: spec_fn(A, A) -> bool) -> (k: int)
    requires
        is_order(le),
        in_order(r, le),
    ensures
        0 <= k <= r.len(),
        insert_by(r, x, le) == r.take(k) + seq![x] + r.skip(k),
        forall|i: int| 0 <= i < k ==> le(#[trigger] r[i], x),
        forall|i: int| k <= i < r.len() ==> !le(#[trigger] r[i], x),
    decreases r.len(),
{
    if r.len() == 0 || le(r.last(), x) {
        let k = r.len() as int;
        assert(r.push(x) =~= r.take(k) + seq![x] + r.skip(k));
        assert forall|i: int| 0 <= i < k implies le(#[trigger] r[i], x) by {
            if i < k - 1 {
                assert(le(r[i], r[k - 1]));
            }
        }
        k
    } else {
        let front = r.drop_last();
        assert(in_order(front, le)) by {
            assert forall|i: int, j: int| 0 <= i < j < front.len() implies #[trigger] le(
                front[i],
                front[j],
            ) by {
                assert(le(r[i], r[j]));
            }
        }
        let k = lemma_put_in(front, x, le);
        assert(insert_by(r, x, le) =~= r.take(k) + seq![x] + r.skip(k));
        assert forall|i: int| 0 <= i < k implies le(#[trigger] r[i], x) by {
            assert(le(front[i], x));
        }
        assert forall|i: int| k <= i < r.len() implies !le(#[trigger] r[i], x) by {
            if i < front.len() {
                assert(!le(front[i], x));
            }
        }
        k
    }
}

/// A row is found by its key, the first of several, and none is found only where there is none.
pub proof fn law_rows_are_found_by_key<M: Keyed>(rows: Seq<M>, k: Seq<char>)
    ensures
        match row_of(rows, k) {
            Some(m) => m.key() == k && rows.contains(m),
            None => forall|i: int| 0 <= i < rows.len() ==> (#[trigger] rows[i]).key() != k,
        },
        unique(rows) ==> forall|i: int|
            0 <= i < rows.len() && (#[trigger] rows[i]).key() == k ==> row_of(rows, k) == Some(
                rows[i],
            ),
{
    lemma_found_by_key(rows, k, 0);
}

proof fn lemma_found_by_key<M: Keyed>(rows: Seq<M>, k: Seq<char>, i: int)
    requires
        0 <= i,
    ensures
        match index_from(rows, k, i) {
            Some(j) => i <= j < rows.len() && rows[j].key() == k,
            None => forall|j: int| i <= j < rows.len() ==> (#[trigger] rows[j]).key() != k,
        },
    decreases rows.len() - i,
{
    if i < rows.len() && rows[i].key() != k {
        lemma_found_by_key(rows, k, i + 1);
    }
}

} // verus!
