//! The transaction's current view of the user table: an ordered list of
//! rows with pairwise distinct identifiers. Every repository operation
//! takes it as an explicit parameter; the crate owns no ambient state.

use vstd::prelude::*;

verus! {

use crate::user::{Model, ModelView, views_of};

/// No two rows share an identifier.
pub open spec fn no_dup_ids(rows: Seq<ModelView>) -> bool {
    forall|i: int, j: int| 0 <= i < j < rows.len() ==> rows[i].id != rows[j].id
}

/// Whether some row carries the given identifier.
pub open spec fn has_id(rows: Seq<ModelView>, id: u128) -> bool {
    exists|i: int| 0 <= i < rows.len() && rows[i].id == id
}

/// The first position holding the given identifier.
pub open spec fn index_of_id(rows: Seq<ModelView>, id: u128) -> int
    decreases rows.len(),
{
    if rows.len() == 0 {
        0
    } else if rows[0].id == id {
        0
    } else {
        1 + index_of_id(rows.drop_first(), id)
    }
}

/// The row carrying the given identifier.
pub open spec fn row_of(rows: Seq<ModelView>, id: u128) -> ModelView {
    rows[index_of_id(rows, id)]
}

pub proof fn lemma_index_of_id(rows: Seq<ModelView>, id: u128)
    requires
        has_id(rows, id),
    ensures
        0 <= index_of_id(rows, id) < rows.len(),
        rows[index_of_id(rows, id)].id == id,
        forall|j: int| 0 <= j < index_of_id(rows, id) ==> rows[j].id != id,
    decreases rows.len(),
{
    if rows.len() > 0 && rows[0].id != id {
        let rest = rows.drop_first();
        let w = choose|i: int| 0 <= i < rows.len() && rows[i].id == id;
        assert(rest[w - 1].id == id);
        lemma_index_of_id(rest, id);
        assert forall|j: int| 0 <= j < index_of_id(rows, id) implies rows[j].id != id by {
            if j > 0 {
                assert(rest[j - 1].id != id);
            }
        }
    }
}

/// A row replaces the one sharing its identifier, or is appended.
pub open spec fn upsert_row(rows: Seq<ModelView>, m: ModelView) -> Seq<ModelView> {
    if has_id(rows, m.id) {
        rows.update(index_of_id(rows, m.id), m)
    } else {
        rows.push(m)
    }
}

/// Rows upserted one after the other, first element first.
pub open spec fn upsert_all(rows: Seq<ModelView>, ms: Seq<ModelView>) -> Seq<ModelView>
    decreases ms.len(),
{
    if ms.len() == 0 {
        rows
    } else {
        upsert_all(upsert_row(rows, ms[0]), ms.drop_first())
    }
}

pub proof fn lemma_upsert_row_wf(rows: Seq<ModelView>, m: ModelView)
    requires
        no_dup_ids(rows),
    ensures
        no_dup_ids(upsert_row(rows, m)),
        has_id(upsert_row(rows, m), m.id),
{
    if has_id(rows, m.id) {
        lemma_index_of_id(rows, m.id);
        let k = index_of_id(rows, m.id);
        let out = rows.update(k, m);
        assert(out[k].id == m.id);
        assert forall|i: int, j: int| 0 <= i < j < out.len() implies out[i].id != out[j].id by {
            if i != k && j != k {
                assert(out[i] == rows[i] && out[j] == rows[j]);
            } else if i == k {
                assert(out[j] == rows[j]);
                assert(rows[j].id != rows[k].id);
            } else {
                assert(out[i] == rows[i]);
                assert(rows[i].id != rows[k].id);
            }
        }
    } else {
        let out = rows.push(m);
        assert(out[rows.len() as int].id == m.id);
        assert forall|i: int, j: int| 0 <= i < j < out.len() implies out[i].id != out[j].id by {
            if j < rows.len() {
                assert(out[i] == rows[i] && out[j] == rows[j]);
            } else {
                assert(out[j] == m);
                assert(out[i] == rows[i]);
                assert(!(exists|w: int| 0 <= w < rows.len() && rows[w].id == m.id));
            }
        }
    }
}

/// The rows whose identifier is not among the given ones; what a batch
/// delete leaves behind.
pub open spec fn without_ids(rows: Seq<ModelView>, ids: Seq<u128>) -> Seq<ModelView>
    decreases rows.len(),
{
    if rows.len() == 0 {
        Seq::empty()
    } else {
        let rest = without_ids(rows.drop_last(), ids);
        if !ids.contains(rows.last().id) {
            rest.push(rows.last())
        } else {
            rest
        }
    }
}

/// The rows whose identifier is among the given ones, in row order;
/// identifiers that resolve to nothing are simply absent.
pub open spec fn rows_with_ids(rows: Seq<ModelView>, ids: Seq<u128>) -> Seq<ModelView>
    decreases rows.len(),
{
    if rows.len() == 0 {
        Seq::empty()
    } else {
        let rest = rows_with_ids(rows.drop_last(), ids);
        if ids.contains(rows.last().id) {
            rest.push(rows.last())
        } else {
            rest
        }
    }
}

/// The identifiers of the given rows, in order.
pub open spec fn model_ids(rows: Seq<ModelView>) -> Seq<u128>
    decreases rows.len(),
{
    if rows.len() == 0 {
        Seq::empty()
    } else {
        model_ids(rows.drop_last()).push(rows.last().id)
    }
}

pub proof fn lemma_model_ids(rows: Seq<ModelView>)
    ensures
        model_ids(rows).len() == rows.len(),
        forall|k: int| 0 <= k < rows.len() ==> model_ids(rows)[k] == rows[k].id,
    decreases rows.len(),
{
    if rows.len() > 0 {
        lemma_model_ids(rows.drop_last());
    }
}

/// Every selected row comes from the input and satisfies the id filter,
/// and every input row with a selected identifier is kept.
pub proof fn lemma_rows_with_ids(rows: Seq<ModelView>, ids: Seq<u128>)
    ensures
        forall|k: int| 0 <= k < rows_with_ids(rows, ids).len() ==> rows.contains(
            #[trigger] rows_with_ids(rows, ids)[k],
        ) && ids.contains(rows_with_ids(rows, ids)[k].id),
        forall|j: int| 0 <= j < rows.len() && ids.contains((#[trigger] rows[j]).id)
            ==> rows_with_ids(rows, ids).contains(rows[j]),
    decreases rows.len(),
{
    if rows.len() > 0 {
        let pre = rows.drop_last();
        lemma_rows_with_ids(pre, ids);
        let out = rows_with_ids(rows, ids);
        assert forall|k: int| 0 <= k < out.len() implies rows.contains(#[trigger] out[k])
            && ids.contains(out[k].id) by {
            if ids.contains(rows.last().id) && k == out.len() - 1 {
                assert(out[k] == rows[rows.len() - 1]);
            } else {
                assert(out[k] == rows_with_ids(pre, ids)[k]);
                assert(pre.contains(out[k]));
                let w = choose|w: int| 0 <= w < pre.len() && pre[w] == out[k];
                assert(rows[w] == out[k]);
            }
        }
        assert forall|j: int| 0 <= j < rows.len() && ids.contains((#[trigger] rows[j]).id) implies
            out.contains(rows[j]) by {
            if j == rows.len() - 1 {
                assert(out[out.len() - 1] == rows[j]);
            } else {
                assert(pre[j] == rows[j]);
                assert(rows_with_ids(pre, ids).contains(rows[j]));
                let w = choose|w: int|
                    0 <= w < rows_with_ids(pre, ids).len() && rows_with_ids(pre, ids)[w]
                        == rows[j];
                assert(out[w] == rows[j]);
            }
        }
    }
}

/// Two id sets that agree on every row's identifier leave the same rows.
pub proof fn lemma_without_ids_congruence(rows: Seq<ModelView>, ids1: Seq<u128>, ids2: Seq<u128>)
    requires
        forall|j: int| 0 <= j < rows.len() ==> (ids1.contains((#[trigger] rows[j]).id)
            <==> ids2.contains(rows[j].id)),
    ensures
        without_ids(rows, ids1) == without_ids(rows, ids2),
    decreases rows.len(),
{
    if rows.len() > 0 {
        let pre = rows.drop_last();
        assert forall|j: int| 0 <= j < pre.len() implies (ids1.contains((#[trigger] pre[j]).id)
            <==> ids2.contains(pre[j].id)) by {
            assert(pre[j] == rows[j]);
        }
        lemma_without_ids_congruence(pre, ids1, ids2);
        assert(ids1.contains(rows.last().id) <==> ids2.contains(rows[rows.len() - 1].id));
    }
}

/// Removing rows keeps the remaining identifiers pairwise distinct.
pub proof fn lemma_without_ids_wf(rows: Seq<ModelView>, ids: Seq<u128>)
    requires
        no_dup_ids(rows),
    ensures
        no_dup_ids(without_ids(rows, ids)),
        forall|k: int| 0 <= k < without_ids(rows, ids).len() ==> rows.contains(
            #[trigger] without_ids(rows, ids)[k],
        ),
    decreases rows.len(),
{
    if rows.len() > 0 {
        let pre = rows.drop_last();
        lemma_without_ids_wf(pre, ids);
        let rest = without_ids(pre, ids);
        let out = without_ids(rows, ids);
        assert forall|k: int| 0 <= k < out.len() implies rows.contains(#[trigger] out[k]) by {
            if !ids.contains(rows.last().id) && k == out.len() - 1 {
                assert(out[k] == rows[rows.len() - 1]);
            } else {
                assert(out[k] == rest[k]);
                assert(pre.contains(rest[k]));
                let w = choose|w: int| 0 <= w < pre.len() && pre[w] == rest[k];
                assert(rows[w] == out[k]);
            }
        }
        if !ids.contains(rows.last().id) {
            assert forall|i: int, j: int| 0 <= i < j < out.len() implies out[i].id != out[j].id by {
                if j < out.len() - 1 {
                    assert(out[i] == rest[i] && out[j] == rest[j]);
                } else {
                    assert(out[j] == rows[rows.len() - 1]);
                    assert(out[i] == rest[i]);
                    assert(pre.contains(rest[i]));
                    let w = choose|w: int| 0 <= w < pre.len() && pre[w] == rest[i];
                    assert(rows[w].id != rows[rows.len() - 1].id);
                }
            }
        }
    }
}

/// The transaction's view of the stored user rows.
#[derive(Debug, Clone)]
pub struct Store {
    pub rows: Vec<Model>,
}

impl View for Store {
    type V = Seq<ModelView>;

    open spec fn view(&self) -> Seq<ModelView> {
        views_of(self.rows@)
    }
}

impl Store {
    /// The well-formedness invariant: identifiers are pairwise distinct.
    pub open spec fn wf(&self) -> bool {
        no_dup_ids(self@)
    }

    /// An empty store.
    pub fn new() -> (r: Store)
        ensures
            r@ =~= Seq::<ModelView>::empty(),
            r.wf(),
    {
        Store { rows: Vec::new() }
    }
}

} // verus!
