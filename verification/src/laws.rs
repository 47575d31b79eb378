//! The framework-level laws, stated and proved once over the spec
//! functions the executable contracts speak of: totality of the
//! effective order, windows that page back and forth without drift, no
//! duplicates across consecutive forward pages, and the command-level
//! guarantees around collisions, empty updates and batch deletes.

use vstd::prelude::*;

verus! {

use crate::access::{offending_ids, op_id, is_no_write_ids};
use crate::pagination::{
    Field,
    Order,
    cmp_models,
    effective,
    lemma_cmp_equal_id,
    lemma_cmp_models_flip,
    lemma_cmp_models_refl,
    lemma_cmp_models_trans,
    lemma_sort_no_dup,
    lemma_sort_sorted,
    sort_spec,
    sorted_le,
};
use crate::repository::{gt_rows, lt_rows, matching_rows, page_after, page_before, page_first};
use crate::store::{no_dup_ids, row_of, rows_with_ids, without_ids};
use crate::text::{Cmp, bytes_of, normalized};
use crate::user::{
    CommandCreate,
    CommandUpdate,
    Model,
    ModelView,
    QueryView,
    create_post,
    delete_post,
    is_already_exists_name,
    name_taken,
    query_matches,
    update_post,
};
use crate::error::Error;

/// A sequence strictly ascending under a comparator.
pub open spec fn strict_sorted(r: Seq<ModelView>, s: Seq<(Field, Order)>) -> bool {
    forall|i: int, j: int| 0 <= i < j < r.len() ==> cmp_models(#[trigger] r[i], #[trigger] r[j], s)
        == Cmp::Less
}

/// The effective order is total: under any sort specification, two rows
/// that the effective comparator ties share their identifier, because
/// the engine appends the ascending identifier tie-break wherever the
/// specification does not already end in the identifier field.
pub proof fn lemma_effective_order_total(a: ModelView, b: ModelView, s: Seq<(Field, Order)>)
    ensures
        cmp_models(a, b, effective(s)) == Cmp::Equal ==> a.id == b.id,
{
    let eff = effective(s);
    if cmp_models(a, b, eff) == Cmp::Equal {
        assert(eff[eff.len() - 1].0 == Field::Id);
        lemma_cmp_equal_id(a, b, eff, eff.len() - 1);
    }
}

/// An ascending sequence of pairwise distinct identifiers is strictly
/// ascending under the effective order.
pub proof fn lemma_sorted_strict(r: Seq<ModelView>, s: Seq<(Field, Order)>)
    requires
        sorted_le(r, effective(s)),
        no_dup_ids(r),
    ensures
        strict_sorted(r, effective(s)),
{
    let eff = effective(s);
    assert forall|i: int, j: int| 0 <= i < j < r.len() implies cmp_models(
        #[trigger] r[i],
        #[trigger] r[j],
        eff,
    ) == Cmp::Less by {
        assert(cmp_models(r[i], r[j], eff) != Cmp::Greater);
        if cmp_models(r[i], r[j], eff) == Cmp::Equal {
            lemma_effective_order_total(r[i], r[j], s);
        }
    }
}

/// The rows matching a query keep their identifiers pairwise distinct.
pub proof fn lemma_matching_rows_no_dup(rows: Seq<ModelView>, q: QueryView)
    requires
        no_dup_ids(rows),
    ensures
        no_dup_ids(matching_rows(rows, q)),
        forall|k: int| 0 <= k < matching_rows(rows, q).len() ==> rows.contains(
            #[trigger] matching_rows(rows, q)[k],
        ),
    decreases rows.len(),
{
    if rows.len() > 0 {
        let pre = rows.drop_last();
        assert forall|i: int, j: int| 0 <= i < j < pre.len() implies pre[i].id != pre[j].id by {
            assert(pre[i] == rows[i] && pre[j] == rows[j]);
        }
        lemma_matching_rows_no_dup(pre, q);
        let rest = matching_rows(pre, q);
        let out = matching_rows(rows, q);
        assert forall|k: int| 0 <= k < out.len() implies rows.contains(#[trigger] out[k]) by {
            if query_matches(q, rows.last()) && k == out.len() - 1 {
                assert(out[k] == rows[rows.len() - 1]);
            } else {
                assert(out[k] == rest[k]);
                assert(pre.contains(rest[k]));
                let w = choose|w: int| 0 <= w < pre.len() && pre[w] == rest[k];
                assert(rows[w] == out[k]);
            }
        }
        if query_matches(q, rows.last()) {
            assert forall|i: int, j: int| 0 <= i < j < out.len() implies out[i].id != out[j].id by {
                if j < out.len() - 1 {
                    assert(out[i] == rest[i] && out[j] == rest[j]);
                } else {
                    assert(out[j] == rows[rows.len() - 1]);
                    assert(out[i] == rest[i]);
                    assert(pre.contains(rest[i]));
                    let w = choose|w: int| 0 <= w < pre.len() && pre[w] == rest[i];
                    assert(rows[w].id != rows[rows.len() - 1].id);
                }
            }
        }
    }
}

/// The canonical sorted matching sequence of a well-formed table is
/// strictly ascending with pairwise distinct identifiers.
pub proof fn lemma_canonical_window_order(rows: Seq<ModelView>, q: QueryView, s: Seq<(
    Field,
    Order,
)>)
    requires
        no_dup_ids(rows),
    ensures
        strict_sorted(sort_spec(matching_rows(rows, q), effective(s)), effective(s)),
        no_dup_ids(sort_spec(matching_rows(rows, q), effective(s))),
{
    let eff = effective(s);
    lemma_matching_rows_no_dup(rows, q);
    lemma_sort_no_dup(matching_rows(rows, q), eff);
    lemma_sort_sorted(matching_rows(rows, q), eff);
    lemma_sorted_strict(sort_spec(matching_rows(rows, q), eff), s);
}

/// In a strictly ascending sequence the rows above a cursor form exactly
/// the final segment, wherever the cursor row itself stands.
pub proof fn lemma_gt_rows_suffix(r: Seq<ModelView>, c: ModelView, s: Seq<(Field, Order)>)
    requires
        strict_sorted(r, s),
    ensures
        gt_rows(r, c, s).len() <= r.len(),
        gt_rows(r, c, s) == r.skip(r.len() - gt_rows(r, c, s).len()),
        forall|j: int| 0 <= j < r.len() ==> (cmp_models(#[trigger] r[j], c, s) == Cmp::Greater
            <==> j >= r.len() - gt_rows(r, c, s).len()),
    decreases r.len(),
{
    let g = gt_rows(r, c, s);
    if r.len() == 0 {
        assert(g =~= r.skip(0));
    } else {
        let pre = r.drop_last();
        assert forall|i: int, j: int| 0 <= i < j < pre.len() implies cmp_models(
            #[trigger] pre[i],
            #[trigger] pre[j],
            s,
        ) == Cmp::Less by {
            assert(pre[i] == r[i] && pre[j] == r[j]);
        }
        lemma_gt_rows_suffix(pre, c, s);
        let gp = gt_rows(pre, c, s);
        if cmp_models(r.last(), c, s) == Cmp::Greater {
            assert(g == gp.push(r.last()));
            assert(g =~= r.skip(r.len() - g.len())) by {
                assert(gp == pre.skip(pre.len() - gp.len()));
            }
            assert forall|j: int| 0 <= j < r.len() implies (cmp_models(#[trigger] r[j], c, s)
                == Cmp::Greater <==> j >= r.len() - g.len()) by {
                if j < r.len() - 1 {
                    assert(r[j] == pre[j]);
                    assert(cmp_models(pre[j], c, s) == Cmp::Greater <==> j >= pre.len()
                        - gp.len());
                }
            }
        } else {
            assert(g == gp);
            assert(gp.len() == 0) by {
                if gp.len() > 0 {
                    let j = pre.len() - gp.len();
                    assert(cmp_models(pre[j], c, s) == Cmp::Greater);
                    assert(r[j] == pre[j]);
                    assert(cmp_models(r[j], r[r.len() - 1], s) == Cmp::Less);
                    lemma_cmp_models_flip(r[j], r[r.len() - 1], s);
                    lemma_cmp_models_flip(r[j], c, s);
                    lemma_cmp_models_trans(c, r[j], r[r.len() - 1], s);
                    lemma_cmp_models_flip(c, r[r.len() - 1], s);
                    assert(false);
                }
            }
            assert(g =~= r.skip(r.len() as int));
            assert forall|j: int| 0 <= j < r.len() implies (cmp_models(#[trigger] r[j], c, s)
                == Cmp::Greater <==> j >= r.len()) by {
                if j < r.len() - 1 {
                    assert(r[j] == pre[j]);
                    assert(!(cmp_models(pre[j], c, s) == Cmp::Greater));
                }
            }
        }
    }
}

/// In a strictly ascending sequence the rows below a cursor form exactly
/// the initial segment.
pub proof fn lemma_lt_rows_prefix(r: Seq<ModelView>, c: ModelView, s: Seq<(Field, Order)>)
    requires
        strict_sorted(r, s),
    ensures
        lt_rows(r, c, s).len() <= r.len(),
        lt_rows(r, c, s) == r.take(lt_rows(r, c, s).len() as int),
        forall|j: int| 0 <= j < r.len() ==> (cmp_models(#[trigger] r[j], c, s) == Cmp::Less
            <==> j < lt_rows(r, c, s).len()),
    decreases r.len(),
{
    let l = lt_rows(r, c, s);
    if r.len() == 0 {
        assert(l =~= r.take(0));
    } else {
        let pre = r.drop_last();
        assert forall|i: int, j: int| 0 <= i < j < pre.len() implies cmp_models(
            #[trigger] pre[i],
            #[trigger] pre[j],
            s,
        ) == Cmp::Less by {
            assert(pre[i] == r[i] && pre[j] == r[j]);
        }
        lemma_lt_rows_prefix(pre, c, s);
        let lp = lt_rows(pre, c, s);
        if cmp_models(r.last(), c, s) == Cmp::Less {
            assert(l == lp.push(r.last()));
            assert(lp.len() == pre.len()) by {
                if lp.len() < pre.len() {
                    let j = lp.len() as int;
                    assert(!(cmp_models(pre[j], c, s) == Cmp::Less));
                    assert(r[j] == pre[j]);
                    assert(cmp_models(r[j], r[r.len() - 1], s) == Cmp::Less);
                    lemma_cmp_models_trans(r[j], r[r.len() - 1], c, s);
                    assert(false);
                }
            }
            assert(l =~= r.take(l.len() as int)) by {
                assert(lp == pre.take(lp.len() as int));
            }
            assert forall|j: int| 0 <= j < r.len() implies (cmp_models(#[trigger] r[j], c, s)
                == Cmp::Less <==> j < l.len()) by {
                if j < r.len() - 1 {
                    assert(r[j] == pre[j]);
                    assert(cmp_models(pre[j], c, s) == Cmp::Less <==> j < lp.len());
                }
            }
        } else {
            assert(l == lp);
            assert(l =~= r.take(l.len() as int)) by {
                assert(lp == pre.take(lp.len() as int));
                assert(lp.len() <= pre.len());
            }
            assert forall|j: int| 0 <= j < r.len() implies (cmp_models(#[trigger] r[j], c, s)
                == Cmp::Less <==> j < l.len()) by {
                if j < r.len() - 1 {
                    assert(r[j] == pre[j]);
                    assert(cmp_models(pre[j], c, s) == Cmp::Less <==> j < lp.len());
                }
            }
        }
    }
}

/// Paging forward from a cursor and then backward from the next page's
/// first row returns exactly the original window, on any strictly
/// ascending sequence and for any window size.
pub proof fn lemma_page_round_trip(
    r: Seq<ModelView>,
    c: ModelView,
    size: int,
    s: Seq<(Field, Order)>,
)
    requires
        strict_sorted(r, s),
        0 < size,
        page_after(r, c, size, s).items.len() == size,
        page_after(r, c, size, s).has_next,
    ensures
        page_after(r, page_after(r, c, size, s).items.last(), size, s).items.len() > 0,
        page_before(
            r,
            page_after(r, page_after(r, c, size, s).items.last(), size, s).items.first(),
            size,
            s,
        ).items == page_after(r, c, size, s).items,
{
    let g = gt_rows(r, c, s);
    lemma_gt_rows_suffix(r, c, s);
    let k = r.len() - g.len();
    let w = page_after(r, c, size, s).items;
    assert(w =~= r.subrange(k as int, k + size));
    let last = w.last();
    assert(last == r[k + size - 1]);
    let g2 = gt_rows(r, last, s);
    lemma_gt_rows_suffix(r, last, s);
    let k2 = r.len() - g2.len();
    assert(k2 == k + size) by {
        lemma_cmp_models_refl(last, s);
        assert(!(cmp_models(r[k + size - 1], last, s) == Cmp::Greater));
        assert(k2 >= k + size);
        if k2 > k + size {
            assert(k + size < r.len());
            assert(cmp_models(r[k + size - 1], r[k + size], s) == Cmp::Less);
            lemma_cmp_models_flip(r[k + size - 1], r[k + size], s);
            assert(cmp_models(r[k + size as int], last, s) == Cmp::Greater);
            assert(k + size >= k2);
            assert(false);
        }
    }
    assert(g2.len() > 0);
    let f = page_after(r, last, size, s).items.first();
    assert(f == g2[0]);
    assert(g2 == r.skip(k2 as int));
    assert(f == r[k2 as int]);
    let l = lt_rows(r, f, s);
    lemma_lt_rows_prefix(r, f, s);
    assert(l.len() == k2) by {
        assert forall|j: int| 0 <= j < r.len() implies (cmp_models(#[trigger] r[j], f, s)
            == Cmp::Less <==> j < k2) by {
            if j < k2 {
                assert(cmp_models(r[j], r[k2 as int], s) == Cmp::Less);
            } else if j == k2 {
                lemma_cmp_models_refl(f, s);
            } else {
                assert(cmp_models(r[k2 as int], r[j], s) == Cmp::Less);
                lemma_cmp_models_flip(r[k2 as int], r[j], s);
            }
        }
        if l.len() < k2 {
            assert(cmp_models(r[l.len() as int], f, s) == Cmp::Less);
        }
        if l.len() > k2 {
            assert(cmp_models(r[k2 as int], f, s) == Cmp::Less);
        }
    }
    assert(page_before(r, f, size, s).items =~= w) by {
        assert(l == r.take(k2 as int));
    }
}

/// The same round trip from the very first page.
pub proof fn lemma_first_page_round_trip(r: Seq<ModelView>, size: int, s: Seq<(Field, Order)>)
    requires
        strict_sorted(r, s),
        0 < size,
        page_first(r, size).items.len() == size,
        page_first(r, size).has_next,
    ensures
        page_after(r, page_first(r, size).items.last(), size, s).items.len() > 0,
        page_before(
            r,
            page_after(r, page_first(r, size).items.last(), size, s).items.first(),
            size,
            s,
        ).items == page_first(r, size).items,
{
    let w = page_first(r, size).items;
    assert(w =~= r.subrange(0, size));
    let last = w.last();
    assert(last == r[size - 1]);
    let g2 = gt_rows(r, last, s);
    lemma_gt_rows_suffix(r, last, s);
    let k2 = r.len() - g2.len();
    assert(k2 == size) by {
        lemma_cmp_models_refl(last, s);
        assert(!(cmp_models(r[size - 1], last, s) == Cmp::Greater));
        assert(k2 >= size);
        if k2 > size {
            assert(cmp_models(r[size - 1], r[size as int], s) == Cmp::Less);
            lemma_cmp_models_flip(r[size - 1], r[size as int], s);
            assert(cmp_models(r[size as int], last, s) == Cmp::Greater);
            assert(false);
        }
    }
    assert(g2.len() > 0);
    let f = page_after(r, last, size, s).items.first();
    assert(g2 == r.skip(k2 as int));
    assert(f == r[k2 as int]);
    let l = lt_rows(r, f, s);
    lemma_lt_rows_prefix(r, f, s);
    assert(l.len() == k2) by {
        assert forall|j: int| 0 <= j < r.len() implies (cmp_models(#[trigger] r[j], f, s)
            == Cmp::Less <==> j < k2) by {
            if j < k2 {
                assert(cmp_models(r[j], r[k2 as int], s) == Cmp::Less);
            } else if j == k2 {
                lemma_cmp_models_refl(f, s);
            } else {
                assert(cmp_models(r[k2 as int], r[j], s) == Cmp::Less);
                lemma_cmp_models_flip(r[k2 as int], r[j], s);
            }
        }
        if l.len() < k2 {
            assert(cmp_models(r[l.len() as int], f, s) == Cmp::Less);
        }
        if l.len() > k2 {
            assert(cmp_models(r[k2 as int], f, s) == Cmp::Less);
        }
    }
    assert(page_before(r, f, size, s).items =~= w) by {
        assert(l == r.take(k2 as int));
    }
}

/// Paging forward from the last row already seen never returns a row
/// already seen: every item of the next page stands strictly after the
/// cursor position, so its identifier differs from every identifier at
/// or before it.
pub proof fn lemma_no_duplicates_forward(
    r: Seq<ModelView>,
    j0: int,
    size: int,
    s: Seq<(Field, Order)>,
)
    requires
        strict_sorted(r, s),
        no_dup_ids(r),
        0 <= j0 < r.len(),
        0 <= size,
    ensures
        forall|i: int, j: int|
            0 <= i < page_after(r, r[j0], size, s).items.len() && 0 <= j <= j0 ==> (
            #[trigger] page_after(r, r[j0], size, s).items[i]).id != (#[trigger] r[j]).id,
{
    let c = r[j0];
    let g = gt_rows(r, c, s);
    lemma_gt_rows_suffix(r, c, s);
    let k = r.len() - g.len();
    lemma_cmp_models_refl(c, s);
    assert(!(cmp_models(r[j0], c, s) == Cmp::Greater));
    assert(j0 < k);
    let w = page_after(r, c, size, s).items;
    assert(g == r.skip(k));
    assert forall|i: int, j: int| 0 <= i < w.len() && 0 <= j <= j0 implies (#[trigger] w[i]).id
        != (#[trigger] r[j]).id by {
        assert(w == g.take(crate::repository::spec_min(size, g.len() as int)));
        assert(w[i] == g[i]);
        assert(g[i] == r.skip(k)[i]);
        assert(r.skip(k)[i] == r[k + i]);
        assert(j < k + i);
        assert(r[j].id != r[k + i].id);
    }
}

/// Paging forward and then backward over the canonical sorted match set
/// of a well-formed table returns the original window, for any query,
/// any sort specification and any window size.
pub proof fn lemma_find_page_round_trip(
    rows: Seq<ModelView>,
    q: QueryView,
    s: Seq<(Field, Order)>,
    c: ModelView,
    size: int,
)
    requires
        no_dup_ids(rows),
        0 < size,
        page_after(
            sort_spec(matching_rows(rows, q), effective(s)),
            c,
            size,
            effective(s),
        ).items.len() == size,
        page_after(sort_spec(matching_rows(rows, q), effective(s)), c, size, effective(s)).has_next,
    ensures
        ({
            let sorted = sort_spec(matching_rows(rows, q), effective(s));
            let w = page_after(sorted, c, size, effective(s)).items;
            let next = page_after(sorted, w.last(), size, effective(s)).items;
            next.len() > 0 && page_before(sorted, next.first(), size, effective(s)).items == w
        }),
{
    lemma_canonical_window_order(rows, q, s);
    lemma_page_round_trip(sort_spec(matching_rows(rows, q), effective(s)), c, size, effective(s));
}

/// Paging forward from the last row already seen never returns a row
/// seen in any earlier window of the canonical sorted match set.
pub proof fn lemma_find_page_no_duplicates(
    rows: Seq<ModelView>,
    q: QueryView,
    s: Seq<(Field, Order)>,
    j0: int,
    size: int,
)
    requires
        no_dup_ids(rows),
        0 <= j0 < sort_spec(matching_rows(rows, q), effective(s)).len(),
        0 <= size,
    ensures
        ({
            let sorted = sort_spec(matching_rows(rows, q), effective(s));
            let next = page_after(sorted, sorted[j0], size, effective(s)).items;
            forall|i: int, j: int| 0 <= i < next.len() && 0 <= j <= j0 ==> (#[trigger] next[i]).id
                != (#[trigger] sorted[j]).id
        }),
{
    lemma_canonical_window_order(rows, q, s);
    lemma_no_duplicates_forward(
        sort_spec(matching_rows(rows, q), effective(s)),
        j0,
        size,
        effective(s),
    );
}

/// A create whose normalized name collides with an existing row fails
/// with the uniqueness error and leaves the table untouched, whatever
/// the casing or surrounding whitespace of either side.
pub proof fn lemma_create_collision(
    pre: Seq<ModelView>,
    op: Option<ModelView>,
    cmd: CommandCreate,
    r: Result<Model, Error>,
    post: Seq<ModelView>,
)
    requires
        create_post(pre, op, cmd, r, post),
        name_taken(pre, bytes_of(cmd.name@)),
    ensures
        post == pre,
        r matches Err(e) && is_already_exists_name(e, normalized(bytes_of(cmd.name@))),
{
}

/// An update that carries no field change returns the stored row
/// unchanged and leaves the table untouched, for every operator alike:
/// the write-gate is deliberately bypassed on the empty changeset.
pub proof fn lemma_update_empty_bypasses_gate(
    pre: Seq<ModelView>,
    op: Option<ModelView>,
    cmd: CommandUpdate,
    r: Result<Model, Error>,
    post: Seq<ModelView>,
)
    requires
        update_post(pre, op, cmd, r, post),
        crate::store::has_id(pre, cmd.id),
        cmd.name is None,
        cmd.role is None,
    ensures
        post == pre,
        r matches Ok(m) && m@ == row_of(pre, cmd.id),
{
}

/// A delete over a batch with any non-writable row fails as a whole,
/// names every offending identifier, and removes nothing at all.
pub proof fn lemma_delete_all_or_nothing(
    pre: Seq<ModelView>,
    op: Option<ModelView>,
    ids: Seq<u128>,
    r: Result<(), Error>,
    post: Seq<ModelView>,
)
    requires
        delete_post(pre, op, ids, r, post),
        ids.len() > 0,
        offending_ids(op, rows_with_ids(pre, ids)).len() > 0,
    ensures
        post == pre,
        r matches Err(e) && is_no_write_ids(e, op_id(op), offending_ids(
            op,
            rows_with_ids(pre, ids),
        )),
{
}

/// A delete that passes the write-gate removes exactly the rows whose
/// identifier was named, and nothing else.
pub proof fn lemma_delete_removes_named(
    pre: Seq<ModelView>,
    op: Option<ModelView>,
    ids: Seq<u128>,
    r: Result<(), Error>,
    post: Seq<ModelView>,
)
    requires
        delete_post(pre, op, ids, r, post),
        ids.len() > 0,
        offending_ids(op, rows_with_ids(pre, ids)).len() == 0,
    ensures
        post == without_ids(pre, ids),
        r is Ok,
{
}

} // verus!
