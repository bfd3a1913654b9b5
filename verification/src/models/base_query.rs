//! The base query of every read of users: all rows, ordered by primary key.
//!
//! A database answers it from its index. Over rows held in memory,
//! [`order_by_id`] computes the same order: ascending keys, and rows with the
//! same key, which a table with a primary key never holds, in the order in
//! which they came.

use crate::models::User;
use vstd::prelude::*;

verus! {

/// Whether the keys of `rows` never descend.
pub open spec fn ascending_ids(rows: Seq<User>) -> bool {
    forall|i: int, j: int| 0 <= i < j < rows.len() ==> rows[i].id <= rows[j].id
}

/// Whether no two of `rows` have the same key, as in a table with a primary
/// key.
pub open spec fn distinct_ids(rows: Seq<User>) -> bool {
    forall|i: int, j: int| 0 <= i < j < rows.len() ==> rows[i].id != rows[j].id
}

/// Where a row with the key `id` goes among `rows`: behind the last row
/// whose key is not greater, which is in front of the rows at the end whose
/// keys are all greater.
pub open spec fn insert_position(rows: Seq<User>, id: int) -> int
    decreases rows.len(),
{
    if rows.len() == 0 || rows.last().id <= id {
        rows.len() as int
    } else {
        insert_position(rows.drop_last(), id)
    }
}

/// `rows` ordered by primary key: each row in turn is put in its place among
/// those that came before it.
pub open spec fn ordered_by_id(rows: Seq<User>) -> Seq<User>
    decreases rows.len(),
{
    if rows.len() == 0 {
        Seq::empty()
    } else {
        let before = ordered_by_id(rows.drop_last());
        before.insert(insert_position(before, rows.last().id as int), rows.last())
    }
}

/// The place of a row is within the rows, every row from there on has a
/// greater key, and the row in front of it has none.
pub proof fn lemma_insert_position(rows: Seq<User>, id: int)
    ensures
        0 <= insert_position(rows, id) <= rows.len(),
        forall|i: int| insert_position(rows, id) <= i < rows.len() ==> rows[i].id > id,
        insert_position(rows, id) > 0 ==> rows[insert_position(rows, id) - 1].id <= id,
    decreases rows.len(),
{
    if rows.len() == 0 || rows.last().id <= id {
    } else {
        let shorter = rows.drop_last();
        lemma_insert_position(shorter, id);
        assert forall|i: int| insert_position(rows, id) <= i < rows.len() implies rows[i].id
            > id by {
            if i < shorter.len() {
                assert(rows[i] == shorter[i]);
            }
        }
    }
}

/// Ordering keeps every row, as often as it occurs, and leaves the keys
/// ascending.
pub proof fn lemma_ordered_by_id(rows: Seq<User>)
    ensures
        ascending_ids(ordered_by_id(rows)),
        ordered_by_id(rows).to_multiset() == rows.to_multiset(),
        ordered_by_id(rows).len() == rows.len(),
    decreases rows.len(),
{
    broadcast use vstd::seq_lib::to_multiset_insert, vstd::seq_lib::to_multiset_build;

    if rows.len() == 0 {
        assert(rows =~= Seq::empty());
    } else {
        let before = ordered_by_id(rows.drop_last());
        let row = rows.last();
        let place = insert_position(before, row.id as int);
        lemma_ordered_by_id(rows.drop_last());
        lemma_insert_position(before, row.id as int);
        let ordered = before.insert(place, row);
        assert forall|i: int, j: int| 0 <= i < j < ordered.len() implies ordered[i].id
            <= ordered[j].id by {
            if j < place {
                assert(ordered[i] == before[i] && ordered[j] == before[j]);
            } else if j == place {
                assert(ordered[i] == before[i]);
                assert(before[i].id <= before[place - 1].id);
            } else if i < place {
                assert(ordered[i] == before[i] && ordered[j] == before[j - 1]);
            } else if i == place {
                assert(ordered[j] == before[j - 1]);
            } else {
                assert(ordered[i] == before[i - 1] && ordered[j] == before[j - 1]);
            }
        }
        assert(rows =~= rows.drop_last().push(row));
        assert(rows.to_multiset() == rows.drop_last().to_multiset().insert(row));
    }
}

/// Rows whose keys already ascend stay as they are.
pub proof fn lemma_ordered_stays(rows: Seq<User>)
    requires
        ascending_ids(rows),
    ensures
        ordered_by_id(rows) == rows,
    decreases rows.len(),
{
    if rows.len() == 0 {
        assert(rows =~= Seq::empty());
    } else {
        let shorter = rows.drop_last();
        assert(ascending_ids(shorter));
        lemma_ordered_stays(shorter);
        if shorter.len() > 0 {
            assert(shorter.last() == rows[rows.len() - 2]);
        }
        assert(insert_position(shorter, rows.last().id as int) == shorter.len());
        assert(shorter.insert(shorter.len() as int, rows.last()) =~= rows);
    }
}

/// Rows that hold the same as rows with distinct keys have distinct keys.
proof fn lemma_distinct_ids_of_same_rows(rows: Seq<User>, others: Seq<User>)
    requires
        distinct_ids(rows),
        others.to_multiset() == rows.to_multiset(),
    ensures
        distinct_ids(others),
{
    broadcast use vstd::seq_lib::group_to_multiset_ensures;

    assert(rows.no_duplicates());
    rows.lemma_multiset_has_no_duplicates();
    others.lemma_multiset_has_no_duplicates_conv();
    assert forall|i: int, j: int| 0 <= i < j < others.len() implies others[i].id
        != others[j].id by {
        assert(others.contains(others[i]) && others.contains(others[j]));
        assert(rows.to_multiset().count(others[i]) > 0);
        assert(rows.to_multiset().count(others[j]) > 0);
        assert(rows.contains(others[i]) && rows.contains(others[j]));
        let p = choose|p: int| 0 <= p < rows.len() && rows[p] == others[i];
        let q = choose|q: int| 0 <= q < rows.len() && rows[q] == others[j];
        if others[i].id == others[j].id {
            assert(p == q);
            assert(others[i] == others[j]);
        }
    }
}

/// Two arrangements of the same rows, both with ascending keys that are all
/// distinct, are the same arrangement.
proof fn lemma_one_ascending_arrangement(left: Seq<User>, right: Seq<User>)
    requires
        ascending_ids(left),
        ascending_ids(right),
        distinct_ids(left),
        left.to_multiset() == right.to_multiset(),
    ensures
        left == right,
    decreases left.len(),
{
    broadcast use vstd::seq_lib::group_to_multiset_ensures;
    broadcast use vstd::multiset::group_multiset_axioms;

    assert(left.len() == left.to_multiset().len() && right.len() == right.to_multiset().len());
    if left.len() == 0 {
        assert(left =~= right);
    } else {
        assert(right.contains(right[0]) && left.contains(left[0]));
        assert(left.to_multiset().count(right[0]) > 0);
        assert(right.to_multiset().count(left[0]) > 0);
        assert(left.contains(right[0]) && right.contains(left[0]));
        let i = choose|i: int| 0 <= i < left.len() && left[i] == right[0];
        let j = choose|j: int| 0 <= j < right.len() && right[j] == left[0];
        assert(left[0].id <= left[i].id);
        assert(right[0].id <= right[j].id);
        assert(i == 0);
        let left_rest = left.drop_first();
        let right_rest = right.drop_first();
        assert(left_rest =~= left.remove(0));
        assert(right_rest =~= right.remove(0));
        assert(left_rest.to_multiset() == right_rest.to_multiset());
        assert(ascending_ids(left_rest)) by {
            assert forall|a: int, b: int| 0 <= a < b < left_rest.len() implies left_rest[a].id
                <= left_rest[b].id by {
                assert(left_rest[a] == left[a + 1] && left_rest[b] == left[b + 1]);
            }
        }
        assert(ascending_ids(right_rest)) by {
            assert forall|a: int, b: int| 0 <= a < b < right_rest.len() implies right_rest[a].id
                <= right_rest[b].id by {
                assert(right_rest[a] == right[a + 1] && right_rest[b] == right[b + 1]);
            }
        }
        assert(distinct_ids(left_rest)) by {
            assert forall|a: int, b: int| 0 <= a < b < left_rest.len() implies left_rest[a].id
                != left_rest[b].id by {
                assert(left_rest[a] == left[a + 1] && left_rest[b] == left[b + 1]);
            }
        }
        lemma_one_ascending_arrangement(left_rest, right_rest);
        assert(left =~= seq![left[0]] + left_rest);
        assert(right =~= seq![right[0]] + right_rest);
    }
}

/// Over a table with a primary key there is one way to order the rows by
/// key: whoever hands back the same rows with ascending keys, as a database
/// does, hands back `ordered_by_id`.
pub proof fn lemma_one_order_by_id(rows: Seq<User>, ordered: Seq<User>)
    requires
        distinct_ids(rows),
        ascending_ids(ordered),
        ordered.to_multiset() == rows.to_multiset(),
    ensures
        ordered == ordered_by_id(rows),
{
    lemma_ordered_by_id(rows);
    lemma_distinct_ids_of_same_rows(rows, ordered);
    lemma_one_ascending_arrangement(ordered, ordered_by_id(rows));
}

/// Orders `users` by primary key.
pub fn order_by_id(users: &Vec<User>) -> (ordered: Vec<User>)
    ensures
        ordered@ == ordered_by_id(users@),
{
    let mut ordered: Vec<User> = Vec::new();
    let count: usize = users.len();
    let mut taken: usize = 0;
    assert(users@.subrange(0, 0) =~= Seq::empty());
    while taken < count
        invariant
            taken <= count,
            count == users@.len(),
            ordered@ == ordered_by_id(users@.subrange(0, taken as int)),
            ordered@.len() == taken,
        decreases count - taken,
    {
        let user = users[taken].clone();
        let mut place: usize = ordered.len();
        assert(ordered@.subrange(0, place as int) =~= ordered@);
        while place > 0 && ordered[place - 1].id > user.id
            invariant
                place <= ordered@.len(),
                insert_position(ordered@, user.id as int) == insert_position(
                    ordered@.subrange(0, place as int),
                    user.id as int,
                ),
            decreases place,
        {
            assert(ordered@.subrange(0, place as int).drop_last() =~= ordered@.subrange(
                0,
                place - 1,
            ));
            place = place - 1;
        }
        proof {
            let prefix = users@.subrange(0, taken + 1);
            assert(prefix.drop_last() =~= users@.subrange(0, taken as int));
            assert(prefix.last() == user);
        }
        ordered.insert(place, user);
        taken = taken + 1;
    }
    assert(users@.subrange(0, count as int) =~= users@);
    ordered
}

} // verus!
