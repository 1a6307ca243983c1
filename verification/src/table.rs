//! Keyed records kept in a sequence: the record for a key is the first one
//! that matches it.

use vstd::prelude::*;

verus! {

/// The first index at or after `from` whose record satisfies `hit`.
pub open spec fn scan<T>(s: Seq<T>, hit: spec_fn(T) -> bool, from: int) -> Option<int>
    decreases s.len() - from,
{
    if from < 0 || from >= s.len() {
        None
    } else if hit(s[from]) {
        Some(from)
    } else {
        scan(s, hit, from + 1)
    }
}

/// The index of the first record that satisfies `hit`.
pub open spec fn first_match<T>(s: Seq<T>, hit: spec_fn(T) -> bool) -> Option<int> {
    scan(s, hit, 0)
}

/// `i` is the first index whose record satisfies `hit`.
pub open spec fn is_first<T>(s: Seq<T>, hit: spec_fn(T) -> bool, i: int) -> bool {
    &&& 0 <= i < s.len()
    &&& hit(s[i])
    &&& forall|j: int| 0 <= j < i ==> !hit(#[trigger] s[j])
}

/// No record satisfies `hit`.
pub open spec fn no_match<T>(s: Seq<T>, hit: spec_fn(T) -> bool) -> bool {
    forall|j: int| 0 <= j < s.len() ==> !hit(#[trigger] s[j])
}

proof fn lemma_scan<T>(s: Seq<T>, hit: spec_fn(T) -> bool, from: int)
    requires
        0 <= from <= s.len(),
    ensures
        match scan(s, hit, from) {
            Some(i) => from <= i < s.len() && hit(s[i]) && forall|j: int|
                from <= j < i ==> !hit(#[trigger] s[j]),
            None => forall|j: int| from <= j < s.len() ==> !hit(#[trigger] s[j]),
        },
    decreases s.len() - from,
{
    if from < s.len() && !hit(s[from]) {
        lemma_scan(s, hit, from + 1);
    }
}

/// What `first_match` returns is the first matching index, or nothing where
/// no record matches.
pub proof fn lemma_first_match<T>(s: Seq<T>, hit: spec_fn(T) -> bool)
    ensures
        match first_match(s, hit) {
            Some(i) => is_first(s, hit, i),
            None => no_match(s, hit),
        },
{
    lemma_scan(s, hit, 0);
}

/// A first matching index is what `first_match` returns.
pub proof fn lemma_first_match_is<T>(s: Seq<T>, hit: spec_fn(T) -> bool, i: int)
    requires
        is_first(s, hit, i),
    ensures
        first_match(s, hit) == Some(i),
{
    lemma_scan(s, hit, 0);
}

/// Without a matching record `first_match` returns nothing.
pub proof fn lemma_first_match_none<T>(s: Seq<T>, hit: spec_fn(T) -> bool)
    requires
        no_match(s, hit),
    ensures
        first_match(s, hit) is None,
{
    lemma_scan(s, hit, 0);
}

/// Two ways of asking that every record answers alike find the same
/// record.
pub proof fn lemma_first_match_alike<T>(s: Seq<T>, hit: spec_fn(T) -> bool, other: spec_fn(T) -> bool)
    requires
        forall|y: T| #[trigger] hit(y) == other(y),
    ensures
        first_match(s, hit) == first_match(s, other),
{
    lemma_first_match(s, hit);
    match first_match(s, hit) {
        Some(i) => {
            assert forall|j: int| 0 <= j < i implies !other(#[trigger] s[j]) by {
                assert(!hit(s[j]));
            }
            assert(hit(s[i]));
            lemma_first_match_is(s, other, i);
        },
        None => {
            assert forall|j: int| 0 <= j < s.len() implies !other(#[trigger] s[j]) by {
                assert(!hit(s[j]));
            }
            lemma_first_match_none(s, other);
        },
    }
}

/// A record that was put under its key is found there.
pub proof fn lemma_put_found<T>(s: Seq<T>, hit: spec_fn(T) -> bool, record: T)
    requires
        hit(record),
    ensures
        first_match(put_at(s, first_match(s, hit), record), hit) == Some(
            match first_match(s, hit) {
                Some(i) => i,
                None => s.len() as int,
            },
        ),
        match first_match(s, hit) {
            Some(i) => 0 <= i < s.len(),
            None => true,
        },
{
    lemma_first_match(s, hit);
    let after = put_at(s, first_match(s, hit), record);
    match first_match(s, hit) {
        Some(i) => {
            assert forall|j: int| 0 <= j < i implies !hit(#[trigger] after[j]) by {
                assert(after[j] == s[j]);
            }
            lemma_first_match_is(after, hit, i);
        },
        None => {
            assert forall|j: int| 0 <= j < s.len() implies !hit(#[trigger] after[j]) by {
                assert(after[j] == s[j]);
            }
            lemma_first_match_is(after, hit, s.len() as int);
        },
    }
}

/// Putting a record under its key leaves the records of every key that it
/// does not share where they were.
pub proof fn lemma_put_keeps_others<T>(
    s: Seq<T>,
    hit: spec_fn(T) -> bool,
    record: T,
    other: spec_fn(T) -> bool,
)
    requires
        !other(record),
        match first_match(s, hit) {
            Some(i) => !other(s[i]),
            None => true,
        },
    ensures
        first_match(put_at(s, first_match(s, hit), record), other) == first_match(s, other),
        match first_match(s, other) {
            Some(k) => 0 <= k < s.len() && put_at(s, first_match(s, hit), record)[k] == s[k],
            None => true,
        },
{
    lemma_first_match(s, hit);
    lemma_first_match(s, other);
    let after = put_at(s, first_match(s, hit), record);
    match first_match(s, other) {
        Some(k) => {
            assert(after[k] == s[k]);
            assert forall|j: int| 0 <= j < k implies !other(#[trigger] after[j]) by {
                if after[j] != s[j] {
                } else {
                    assert(!other(s[j]));
                }
            }
            lemma_first_match_is(after, other, k);
        },
        None => {
            assert forall|j: int| 0 <= j < after.len() implies !other(#[trigger] after[j]) by {
                if j < s.len() && after[j] == s[j] {
                    assert(!other(s[j]));
                }
            }
            lemma_first_match_none(after, other);
        },
    }
}

/// Replacing a record by one that matches the same keys moves no record.
pub proof fn lemma_update_keeps_match<T>(s: Seq<T>, i: int, record: T, hit: spec_fn(T) -> bool)
    requires
        0 <= i < s.len(),
        hit(record) == hit(s[i]),
    ensures
        first_match(s.update(i, record), hit) == first_match(s, hit),
{
    lemma_first_match(s, hit);
    let after = s.update(i, record);
    match first_match(s, hit) {
        Some(k) => {
            assert forall|j: int| 0 <= j < k implies !hit(#[trigger] after[j]) by {
                if j != i {
                    assert(after[j] == s[j]);
                }
            }
            assert(hit(after[k])) by {
                if k != i {
                    assert(after[k] == s[k]);
                }
            }
            lemma_first_match_is(after, hit, k);
        },
        None => {
            assert forall|j: int| 0 <= j < after.len() implies !hit(#[trigger] after[j]) by {
                if j != i {
                    assert(after[j] == s[j]);
                }
            }
            lemma_first_match_none(after, hit);
        },
    }
}

/// No two records of `s` are the same in the sense of `same`: every key is
/// held once.
pub open spec fn keyed_once<T>(s: Seq<T>, same: spec_fn(T, T) -> bool) -> bool {
    forall|i: int, j: int| 0 <= i < j < s.len() ==> !same(#[trigger] s[i], #[trigger] s[j])
}

/// `same` holds of records in both directions and carries over from one
/// pair to the next.
pub open spec fn is_sameness<T>(same: spec_fn(T, T) -> bool) -> bool {
    &&& forall|a: T, b: T| #[trigger] same(a, b) ==> same(b, a)
    &&& forall|a: T, b: T, c: T| #[trigger] same(a, b) && #[trigger] same(b, c) ==> same(a, c)
}

/// `hit` finds the records that are the same as `record`.
pub open spec fn finds<T>(hit: spec_fn(T) -> bool, same: spec_fn(T, T) -> bool, record: T) -> bool {
    forall|y: T| #[trigger] hit(y) <==> same(record, y)
}

/// Putting a record under its key keeps every key held once.
pub proof fn lemma_put_keeps_once<T>(
    s: Seq<T>,
    same: spec_fn(T, T) -> bool,
    hit: spec_fn(T) -> bool,
    record: T,
)
    requires
        keyed_once(s, same),
        is_sameness(same),
        finds(hit, same, record),
    ensures
        keyed_once(put_at(s, first_match(s, hit), record), same),
{
    lemma_first_match(s, hit);
    let after = put_at(s, first_match(s, hit), record);
    assert forall|i: int, j: int| 0 <= i < j < after.len() implies !same(
        #[trigger] after[i],
        #[trigger] after[j],
    ) by {
        match first_match(s, hit) {
            Some(k) => {
                assert(hit(s[k]));
                assert(same(record, s[k]));
                if i == k {
                    assert(after[j] == s[j]);
                    assert(!same(s[k], s[j]));
                    if same(record, s[j]) {
                        assert(same(s[k], record));
                        assert(same(s[k], s[j]));
                    }
                } else if j == k {
                    assert(after[i] == s[i]);
                    assert(!same(s[i], s[k]));
                    if same(s[i], record) {
                        assert(same(s[i], s[k]));
                    }
                } else {
                    assert(after[i] == s[i] && after[j] == s[j]);
                }
            },
            None => {
                if j == s.len() {
                    assert(after[i] == s[i]);
                    assert(!hit(s[i]));
                    if same(s[i], record) {
                        assert(same(record, s[i]));
                    }
                } else {
                    assert(after[i] == s[i] && after[j] == s[j]);
                }
            },
        }
    }
}

/// Replacing a record by one of the same key keeps every key held once.
pub proof fn lemma_update_keeps_once<T>(
    s: Seq<T>,
    same: spec_fn(T, T) -> bool,
    k: int,
    record: T,
)
    requires
        keyed_once(s, same),
        is_sameness(same),
        0 <= k < s.len(),
        same(record, s[k]),
    ensures
        keyed_once(s.update(k, record), same),
{
    let after = s.update(k, record);
    assert forall|i: int, j: int| 0 <= i < j < after.len() implies !same(
        #[trigger] after[i],
        #[trigger] after[j],
    ) by {
        if i == k {
            assert(after[j] == s[j]);
            assert(!same(s[k], s[j]));
            if same(record, s[j]) {
                assert(same(s[k], record));
                assert(same(s[k], s[j]));
            }
        } else if j == k {
            assert(after[i] == s[i]);
            assert(!same(s[i], s[k]));
            if same(s[i], record) {
                assert(same(s[i], s[k]));
            }
        } else {
            assert(after[i] == s[i] && after[j] == s[j]);
        }
    }
}

/// Every record that `without` keeps is one of `s`, and the records it
/// keeps stand in the order they had.
proof fn lemma_without_picks<T>(s: Seq<T>, hit: spec_fn(T) -> bool)
    ensures
        without(s, hit).len() <= s.len(),
        forall|i: int|
            0 <= i < without(s, hit).len() ==> exists|k: int|
                i <= k < s.len() && s[k] == #[trigger] without(s, hit)[i],
        forall|i: int, j: int|
            0 <= i < j < without(s, hit).len() ==> exists|k: int, l: int|
                0 <= k < l < s.len() && s[k] == #[trigger] without(s, hit)[i] && s[l]
                    == #[trigger] without(s, hit)[j],
    decreases s.len(),
{
    if s.len() > 0 {
        let front = s.drop_last();
        lemma_without_picks(front, hit);
        let kept = without(front, hit);
        let all = without(s, hit);
        assert forall|i: int| 0 <= i < all.len() implies exists|k: int|
            i <= k < s.len() && s[k] == #[trigger] all[i] by {
            if i < kept.len() {
                let k = choose|k: int| i <= k < front.len() && front[k] == kept[i];
                assert(s[k] == all[i]);
            } else {
                assert(s[s.len() - 1] == all[i]);
            }
        }
        assert forall|i: int, j: int| 0 <= i < j < all.len() implies exists|k: int, l: int|
            0 <= k < l < s.len() && s[k] == #[trigger] all[i] && s[l] == #[trigger] all[j] by {
            if j < kept.len() {
                let (k, l) = choose|k: int, l: int|
                    0 <= k < l < front.len() && front[k] == kept[i] && front[l] == kept[j];
                assert(s[k] == all[i] && s[l] == all[j]);
            } else {
                let k = choose|k: int| i <= k < front.len() && front[k] == kept[i];
                assert(s[k] == all[i] && s[s.len() - 1] == all[j]);
            }
        }
    }
}

/// Taking records out keeps every key held once.
pub proof fn lemma_without_keeps_once<T>(
    s: Seq<T>,
    same: spec_fn(T, T) -> bool,
    hit: spec_fn(T) -> bool,
)
    requires
        keyed_once(s, same),
    ensures
        keyed_once(without(s, hit), same),
{
    lemma_without_picks(s, hit);
    let all = without(s, hit);
    assert forall|i: int, j: int| 0 <= i < j < all.len() implies !same(
        #[trigger] all[i],
        #[trigger] all[j],
    ) by {
        let (k, l) = choose|k: int, l: int|
            0 <= k < l < s.len() && s[k] == all[i] && s[l] == all[j];
        assert(!same(s[k], s[l]));
    }
}

/// A found index as a mathematical integer.
pub open spec fn slot_of(found: Option<usize>) -> Option<int> {
    match found {
        Some(i) => Some(i as int),
        None => None,
    }
}

/// `s` with `record` written at `slot`, or appended where `slot` is empty.
pub open spec fn put_at<T>(s: Seq<T>, slot: Option<int>, record: T) -> Seq<T> {
    match slot {
        Some(i) => s.update(i, record),
        None => s.push(record),
    }
}

/// Writes `record` at `slot`, or appends it where `slot` is empty.
pub fn put<T>(table: &mut Vec<T>, slot: Option<usize>, record: T)
    requires
        slot is Some ==> slot.unwrap() < old(table).len(),
    ensures
        final(table)@ == put_at(old(table)@, slot_of(slot), record),
{
    match slot {
        Some(i) => table.set(i, record),
        None => table.push(record),
    }
}

/// `s` without the records that satisfy `hit`, the others in their order.
pub open spec fn without<T>(s: Seq<T>, hit: spec_fn(T) -> bool) -> Seq<T>
    decreases s.len(),
{
    if s.len() == 0 {
        s
    } else if hit(s.last()) {
        without(s.drop_last(), hit)
    } else {
        without(s.drop_last(), hit).push(s.last())
    }
}

/// One more record taken into account by `without`.
pub proof fn lemma_without_step<T>(s: Seq<T>, hit: spec_fn(T) -> bool, i: int)
    requires
        0 <= i < s.len(),
    ensures
        without(s.take(i + 1), hit) == if hit(s[i]) {
            without(s.take(i), hit)
        } else {
            without(s.take(i), hit).push(s[i])
        },
{
    assert(s.take(i + 1).drop_last() =~= s.take(i));
}

/// Nothing that satisfies `hit` is left by `without`.
pub proof fn lemma_without_clears<T>(s: Seq<T>, hit: spec_fn(T) -> bool)
    ensures
        no_match(without(s, hit), hit),
    decreases s.len(),
{
    if s.len() > 0 {
        lemma_without_clears(s.drop_last(), hit);
    }
}

} // verus!
