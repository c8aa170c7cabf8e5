//! Laws the alert table obeys, proved over the same transition functions
//! that the executable methods are specified against.

use vstd::prelude::*;
use crate::model::{
    AddAlertView, AlertError, AlertView, TableView, add_result, add_transition, find_match,
    lemma_find_id_some, lemma_find_match_none, lemma_find_match_some,
    new_row, notify_transition, rearmed, row_matches, table_wf, valid_add,
};
use crate::price::canon_price;

verus! {

/// The canonical tuples of two create calls coincide.
pub open spec fn same_tuple(a: AddAlertView, b: AddAlertView) -> bool {
    &&& a.user_id == b.user_id
    &&& a.asset_id == b.asset_id
    &&& a.above == b.above
    &&& canon_price(a.price_alert) == canon_price(b.price_alert)
}

/// Row `r` carries the canonical tuple of create call `a`.
pub open spec fn row_of_add(r: AlertView, a: AddAlertView) -> bool {
    row_matches(r, a.user_id, a.asset_id, a.above, canon_price(a.price_alert))
}

/// The table after a run of creates.
pub open spec fn add_all(t: TableView, reqs: Seq<AddAlertView>) -> TableView
    decreases reqs.len(),
{
    if reqs.len() == 0 {
        t
    } else {
        add_all(add_transition(t, reqs[0]), reqs.skip(1))
    }
}

/// Every create in the run is accepted, and each returns the id the store
/// was about to hand out at its step.
pub open spec fn all_creates_ok(t: TableView, reqs: Seq<AddAlertView>) -> bool
    decreases reqs.len(),
{
    if reqs.len() == 0 {
        true
    } else {
        &&& add_result(t, reqs[0]) == Ok::<int, AlertError>(t.next_id)
        &&& all_creates_ok(add_transition(t, reqs[0]), reqs.skip(1))
    }
}

/// Valid creates with pairwise distinct canonical tuples, none already in
/// the table, all succeed with fresh ids, and afterwards the table holds
/// exactly the old rows followed by one not-notified row per create.
pub proof fn lemma_distinct_creates(t: TableView, reqs: Seq<AddAlertView>)
    requires
        table_wf(t),
        t.next_id + reqs.len() <= i32::MAX,
        forall|k: int| 0 <= k < reqs.len() ==> valid_add(#[trigger] reqs[k]),
        forall|k: int, l: int|
            0 <= k < l < reqs.len() ==> !same_tuple(#[trigger] reqs[k], #[trigger] reqs[l]),
        forall|j: int, k: int|
            0 <= j < t.rows.len() && 0 <= k < reqs.len() ==> !row_of_add(
                #[trigger] t.rows[j],
                #[trigger] reqs[k],
            ),
    ensures
        all_creates_ok(t, reqs),
        add_all(t, reqs).next_id == t.next_id + reqs.len(),
        add_all(t, reqs).rows.len() == t.rows.len() + reqs.len(),
        forall|j: int| 0 <= j < t.rows.len() ==> #[trigger] add_all(t, reqs).rows[j] == t.rows[j],
        forall|k: int|
            0 <= k < reqs.len() ==> #[trigger] add_all(t, reqs).rows[t.rows.len() + k]
                == (AlertView {
                id: t.next_id + k,
                user_id: reqs[k].user_id,
                asset_id: reqs[k].asset_id,
                above: reqs[k].above,
                price_alert: canon_price(reqs[k].price_alert),
                notified: false,
            }),
        table_wf(add_all(t, reqs)),
    decreases reqs.len(),
{
    if reqs.len() > 0 {
        let r0 = reqs[0];
        let p = canon_price(r0.price_alert);
        assert forall|j: int| 0 <= j < t.rows.len() implies !row_matches(
            #[trigger] t.rows[j],
            r0.user_id,
            r0.asset_id,
            r0.above,
            p,
        ) by {
            assert(!row_of_add(t.rows[j], reqs[0]));
        }
        lemma_find_match_none(t.rows, r0.user_id, r0.asset_id, r0.above, p);
        let t1 = add_transition(t, r0);
        assert(t1.rows == t.rows.push(new_row(t, r0)));
        assert(add_result(t, r0) == Ok::<int, AlertError>(t.next_id));

        let rest = reqs.skip(1);
        assert forall|k: int| 0 <= k < rest.len() implies valid_add(#[trigger] rest[k]) by {
            assert(rest[k] == reqs[k + 1]);
        }
        assert forall|k: int, l: int| 0 <= k < l < rest.len() implies !same_tuple(
            #[trigger] rest[k],
            #[trigger] rest[l],
        ) by {
            assert(rest[k] == reqs[k + 1]);
            assert(rest[l] == reqs[l + 1]);
        }
        assert forall|j: int, k: int|
            0 <= j < t1.rows.len() && 0 <= k < rest.len() implies !row_of_add(
            #[trigger] t1.rows[j],
            #[trigger] rest[k],
        ) by {
            assert(rest[k] == reqs[k + 1]);
            if j < t.rows.len() {
                assert(t1.rows[j] == t.rows[j]);
                assert(!row_of_add(t.rows[j], reqs[k + 1]));
            } else {
                assert(t1.rows[j] == new_row(t, r0));
                assert(!same_tuple(reqs[0], reqs[k + 1]));
            }
        }
        assert(table_wf(t1)) by {
            assert forall|i: int| 0 <= i < t1.rows.len() implies 1 <= (#[trigger] t1.rows[i]).id
                < t1.next_id by {
                if i < t.rows.len() {
                    assert(t1.rows[i] == t.rows[i]);
                }
            }
            assert forall|i: int, j: int|
                0 <= i < t1.rows.len() && 0 <= j < t1.rows.len() && i != j implies (
            #[trigger] t1.rows[i]).id != (#[trigger] t1.rows[j]).id by {
                if i < t.rows.len() && j < t.rows.len() {
                } else if i < t.rows.len() {
                    assert(t1.rows[j] == new_row(t, r0));
                    assert(t1.rows[i] == t.rows[i]);
                    assert(t.rows[i].id < t.next_id);
                } else {
                    assert(t1.rows[i] == new_row(t, r0));
                    assert(j < t.rows.len());
                    assert(t1.rows[j] == t.rows[j]);
                    assert(t.rows[j].id < t.next_id);
                }
            }
        }
        lemma_distinct_creates(t1, rest);
        assert(add_all(t, reqs) == add_all(t1, rest));
        assert forall|j: int| 0 <= j < t.rows.len() implies #[trigger] add_all(t, reqs).rows[j]
            == t.rows[j] by {
            assert(add_all(t1, rest).rows[j] == t1.rows[j]);
            assert(t1.rows[j] == t.rows[j]);
        }
        assert forall|k: int| 0 <= k < reqs.len() implies #[trigger] add_all(t, reqs).rows[t.rows.len()
            + k] == (AlertView {
            id: t.next_id + k,
            user_id: reqs[k].user_id,
            asset_id: reqs[k].asset_id,
            above: reqs[k].above,
            price_alert: canon_price(reqs[k].price_alert),
            notified: false,
        }) by {
            if k == 0 {
                assert(add_all(t1, rest).rows[t.rows.len() as int] == t1.rows[t.rows.len() as int]);
                assert(t1.rows[t.rows.len() as int] == new_row(t, r0));
            } else {
                assert(add_all(t1, rest).rows[t1.rows.len() + (k - 1)] == (AlertView {
                    id: t1.next_id + (k - 1),
                    user_id: rest[k - 1].user_id,
                    asset_id: rest[k - 1].asset_id,
                    above: rest[k - 1].above,
                    price_alert: canon_price(rest[k - 1].price_alert),
                    notified: false,
                }));
                assert(rest[k - 1] == reqs[k]);
            }
        }
    }
}

/// Creating a fresh tuple succeeds; repeating the identical create while
/// the row has not been notified is refused and changes nothing.
pub proof fn lemma_duplicate_create_conflicts(t: TableView, r: AddAlertView)
    requires
        table_wf(t),
        valid_add(r),
        forall|j: int| 0 <= j < t.rows.len() ==> !row_of_add(#[trigger] t.rows[j], r),
    ensures
        add_result(t, r) == Ok::<int, AlertError>(t.next_id),
        add_result(add_transition(t, r), r) == Err::<int, AlertError>(AlertError::AlreadyExists),
        add_transition(add_transition(t, r), r) == add_transition(t, r),
{
    let p = canon_price(r.price_alert);
    assert forall|j: int| 0 <= j < t.rows.len() implies !row_matches(
        #[trigger] t.rows[j],
        r.user_id,
        r.asset_id,
        r.above,
        p,
    ) by {
        assert(!row_of_add(t.rows[j], r));
    }
    lemma_find_match_none(t.rows, r.user_id, r.asset_id, r.above, p);
    let t1 = add_transition(t, r);
    assert(t1.rows == t.rows.push(new_row(t, r)));
    let n = t.rows.len() as int;
    assert(t1.rows[n] == new_row(t, r));
    assert forall|j: int| 0 <= j < n implies !row_matches(
        #[trigger] t1.rows[j],
        r.user_id,
        r.asset_id,
        r.above,
        p,
    ) by {
        assert(t1.rows[j] == t.rows[j]);
    }
    lemma_find_match_some(t1.rows, r.user_id, r.asset_id, r.above, p, n);
    assert(!t1.rows[n].notified);
}

/// Re-submitting the tuple of a row that has since fired returns that
/// row's id and re-arms exactly that row.
pub proof fn lemma_rearm(t: TableView, r: AddAlertView, i: int)
    requires
        table_wf(t),
        valid_add(r),
        find_match(t.rows, r.user_id, r.asset_id, r.above, canon_price(r.price_alert)) == Some(i),
        0 <= i < t.rows.len(),
        t.rows[i].notified,
    ensures
        add_result(t, r) == Ok::<int, AlertError>(t.rows[i].id),
        add_transition(t, r).rows == t.rows.update(i, rearmed(t.rows[i])),
        add_transition(t, r).next_id == t.next_id,
        !add_transition(t, r).rows[i].notified,
        add_transition(t, r).rows[i].id == t.rows[i].id,
{
    assert(t.rows.update(i, rearmed(t.rows[i]))[i] == rearmed(t.rows[i]));
}

/// The whole round trip: create a fresh tuple, let the external notifier
/// fire the stored row, create the identical tuple again. The second
/// create hands back the original id and the table reads exactly as it
/// did right after the first create: the row is armed again.
pub proof fn lemma_rearm_round_trip(t: TableView, r: AddAlertView)
    requires
        table_wf(t),
        valid_add(r),
        forall|j: int| 0 <= j < t.rows.len() ==> !row_of_add(#[trigger] t.rows[j], r),
    ensures
        ({
            let id = t.next_id;
            let t1 = add_transition(t, r);
            let t2 = notify_transition(t1, id);
            &&& add_result(t2, r) == Ok::<int, AlertError>(id)
            &&& add_transition(t2, r) == t1
        }),
{
    let id = t.next_id;
    let p = canon_price(r.price_alert);
    assert forall|j: int| 0 <= j < t.rows.len() implies !row_matches(
        #[trigger] t.rows[j],
        r.user_id,
        r.asset_id,
        r.above,
        p,
    ) by {
        assert(!row_of_add(t.rows[j], r));
    }
    lemma_find_match_none(t.rows, r.user_id, r.asset_id, r.above, p);
    let t1 = add_transition(t, r);
    let n = t.rows.len() as int;
    assert(t1.rows == t.rows.push(new_row(t, r)));
    assert(t1.rows[n] == new_row(t, r));
    assert forall|j: int| 0 <= j < n implies (#[trigger] t1.rows[j]).id != id by {
        assert(t1.rows[j] == t.rows[j]);
    }
    lemma_find_id_some(t1.rows, id, n);
    let t2 = notify_transition(t1, id);
    assert forall|j: int| 0 <= j < n implies !row_matches(
        #[trigger] t2.rows[j],
        r.user_id,
        r.asset_id,
        r.above,
        p,
    ) by {
        assert(t2.rows[j] == t.rows[j]);
    }
    lemma_find_match_some(t2.rows, r.user_id, r.asset_id, r.above, p, n);
    assert(t2.rows[n].notified);
    assert(add_result(t2, r) == Ok::<int, AlertError>(id));
    assert(rearmed(t2.rows[n]) == new_row(t, r));
    assert(add_transition(t2, r).rows =~= t1.rows);
    assert(add_transition(t2, r) == t1);
}

} // verus!
