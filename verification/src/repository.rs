//! The generic repository: query, lookup, save, delete and paged reads
//! over the aggregate type, each operation an explicit function of the
//! transaction's table view.

use vstd::prelude::*;

verus! {

use crate::error::Error;
use crate::pagination::{
    Field,
    Order,
    cmp_models,
    compare_models,
    effective,
    effective_exec,
    first_unknown,
    resolve_sort,
    resolved,
    sort_models,
    sort_ok,
    sort_spec,
};
use crate::store::{
    Store,
    has_id,
    index_of_id,
    lemma_index_of_id,
    lemma_model_ids,
    lemma_upsert_row_wf,
    lemma_without_ids_wf,
    model_ids,
    row_of,
    rows_with_ids,
    upsert_all,
    upsert_row,
    without_ids,
};
use crate::text::Cmp;
use crate::user::{Model, ModelView, Query, QueryView, ids_contain, query_matches, query_matches_exec, views_of};

/// The rows of a table that satisfy a query, in storage order.
pub open spec fn matching_rows(rows: Seq<ModelView>, q: QueryView) -> Seq<ModelView>
    decreases rows.len(),
{
    if rows.len() == 0 {
        Seq::empty()
    } else {
        let rest = matching_rows(rows.drop_last(), q);
        if query_matches(q, rows.last()) {
            rest.push(rows.last())
        } else {
            rest
        }
    }
}

/// The rows strictly greater than a cursor row under a comparator.
pub open spec fn gt_rows(rows: Seq<ModelView>, c: ModelView, s: Seq<(Field, Order)>) -> Seq<
    ModelView,
>
    decreases rows.len(),
{
    if rows.len() == 0 {
        Seq::empty()
    } else {
        let rest = gt_rows(rows.drop_last(), c, s);
        if cmp_models(rows.last(), c, s) == Cmp::Greater {
            rest.push(rows.last())
        } else {
            rest
        }
    }
}

/// The rows strictly less than a cursor row under a comparator.
pub open spec fn lt_rows(rows: Seq<ModelView>, c: ModelView, s: Seq<(Field, Order)>) -> Seq<
    ModelView,
>
    decreases rows.len(),
{
    if rows.len() == 0 {
        Seq::empty()
    } else {
        let rest = lt_rows(rows.drop_last(), c, s);
        if cmp_models(rows.last(), c, s) == Cmp::Less {
            rest.push(rows.last())
        } else {
            rest
        }
    }
}

/// A bounded window of matching rows, in the effective forward order,
/// with indicators of further pages in each direction.
#[derive(Debug, PartialEq, Eq)]
pub struct Page {
    pub items: Vec<Model>,
    pub has_previous: bool,
    pub has_next: bool,
}

/// The mathematical value of a page.
pub ghost struct PageView {
    pub items: Seq<ModelView>,
    pub has_previous: bool,
    pub has_next: bool,
}

impl View for Page {
    type V = PageView;

    open spec fn view(&self) -> PageView {
        PageView {
            items: views_of(self.items@),
            has_previous: self.has_previous,
            has_next: self.has_next,
        }
    }
}

/// The smaller of two values.
pub open spec fn spec_min(a: int, b: int) -> int {
    if a < b {
        a
    } else {
        b
    }
}

/// The first window of a sorted sequence.
pub open spec fn page_first(sorted: Seq<ModelView>, size: int) -> PageView {
    PageView {
        items: sorted.take(spec_min(size, sorted.len() as int)),
        has_previous: false,
        has_next: sorted.len() > size,
    }
}

/// The window of the `size` smallest rows strictly after the cursor row.
pub open spec fn page_after(
    sorted: Seq<ModelView>,
    c: ModelView,
    size: int,
    s: Seq<(Field, Order)>,
) -> PageView {
    let g = gt_rows(sorted, c, s);
    PageView {
        items: g.take(spec_min(size, g.len() as int)),
        has_previous: sorted.len() > g.len(),
        has_next: g.len() > size,
    }
}

/// The window of the `size` largest rows strictly before the cursor row,
/// still reported in forward order.
pub open spec fn page_before(
    sorted: Seq<ModelView>,
    c: ModelView,
    size: int,
    s: Seq<(Field, Order)>,
) -> PageView {
    let l = lt_rows(sorted, c, s);
    PageView {
        items: l.skip(l.len() - spec_min(size, l.len() as int)),
        has_previous: l.len() > size,
        has_next: sorted.len() > l.len(),
    }
}

/// Everything `find_page` promises: each validation failure with the
/// exact inputs that cause it, and on success the exact window of the
/// canonical sorted matching sequence.
pub open spec fn find_page_post(
    pre: Seq<ModelView>,
    q: QueryView,
    sort: Seq<(String, Order)>,
    size: int,
    after: Option<u128>,
    before: Option<u128>,
    r: Result<Page, Error>,
) -> bool {
    if !sort_ok(sort) {
        &&& r matches Err(e)
        &&& e matches Error::Validation { field }
        &&& field@ == sort[first_unknown(sort)].0@
    } else if after is Some && before is Some {
        &&& r matches Err(e)
        &&& e matches Error::Validation { field }
        &&& field@ == "cursor"@
    } else {
        let eff = effective(resolved(sort));
        let sorted = sort_spec(matching_rows(pre, q), eff);
        match after {
            Option::Some(a) => if !has_id(pre, a) {
                is_cursor_not_found(r, a)
            } else {
                r matches Ok(p) && p@ == page_after(sorted, row_of(pre, a), size, eff)
            },
            Option::None => match before {
                Option::Some(b) => if !has_id(pre, b) {
                    is_cursor_not_found(r, b)
                } else {
                    r matches Ok(p) && p@ == page_before(sorted, row_of(pre, b), size, eff)
                },
                Option::None => r matches Ok(p) && p@ == page_first(sorted, size),
            },
        }
    }
}

/// A not-found error naming the missing cursor row.
pub open spec fn is_cursor_not_found(r: Result<Page, Error>, a: u128) -> bool {
    &&& r matches Err(e)
    &&& e matches Error::NotFound { typ, id }
    &&& typ@ == "User"@
    &&& id == a
}

/// The stateless facade every entity operation goes through.
pub struct Repository;

impl Repository {
    /// Looks one row up by its identifier.
    pub fn find_by_id(store: &Store, id: u128) -> (r: Option<Model>)
        requires
            store.wf(),
        ensures
            has_id(store@, id) ==> (r matches Some(m) && m@ == row_of(store@, id)),
            !has_id(store@, id) ==> r is None,
    {
        let mut i: usize = 0;
        while i < store.rows.len()
            invariant
                i <= store@.len(),
                forall|j: int| 0 <= j < i ==> (#[trigger] store@[j]).id != id,
            decreases store@.len() - i,
        {
            if store.rows[i].id == id {
                proof {
                    assert(store@[i as int].id == id);
                    lemma_index_of_id(store@, id);
                    let k = index_of_id(store@, id);
                    if k != i {
                        assert(store@[k].id == store@[i as int].id);
                    }
                }
                return Option::Some(store.rows[i].duplicate());
            }
            i = i + 1;
        }
        Option::None
    }

    /// Looks a batch of rows up; identifiers that resolve to nothing are
    /// simply absent from the result.
    pub fn find_by_ids(store: &Store, ids: &Vec<u128>) -> (r: Vec<Model>)
        requires
            store.wf(),
        ensures
            views_of(r@) == rows_with_ids(store@, ids@),
    {
        let ghost vs = store@;
        let mut out: Vec<Model> = Vec::new();
        let mut i: usize = 0;
        assert(vs.take(0) =~= Seq::empty());
        while i < store.rows.len()
            invariant
                i <= vs.len(),
                vs == store@,
                views_of(out@) == rows_with_ids(vs.take(i as int), ids@),
            decreases vs.len() - i,
        {
            proof {
                let cur = vs.take(i + 1);
                assert(cur.drop_last() =~= vs.take(i as int));
                assert(cur.last() == vs[i as int]);
            }
            let ghost snap = out@;
            if ids_contain(ids, store.rows[i].id) {
                out.push(store.rows[i].duplicate());
                assert(views_of(out@) =~= views_of(snap).push(vs[i as int]));
            }
            i = i + 1;
        }
        assert(vs.take(vs.len() as int) =~= vs);
        out
    }

    /// The rows satisfying a query, in storage order.
    fn filter_matching(store: &Store, q: &Query) -> (r: Vec<Model>)
        ensures
            views_of(r@) == matching_rows(store@, q@),
    {
        let ghost vs = store@;
        let mut out: Vec<Model> = Vec::new();
        let mut i: usize = 0;
        assert(vs.take(0) =~= Seq::empty());
        while i < store.rows.len()
            invariant
                i <= vs.len(),
                vs == store@,
                views_of(out@) == matching_rows(vs.take(i as int), q@),
            decreases vs.len() - i,
        {
            proof {
                let cur = vs.take(i + 1);
                assert(cur.drop_last() =~= vs.take(i as int));
                assert(cur.last() == vs[i as int]);
            }
            let ghost snap = out@;
            if query_matches_exec(q, &store.rows[i]) {
                out.push(store.rows[i].duplicate());
                assert(views_of(out@) =~= views_of(snap).push(vs[i as int]));
            }
            i = i + 1;
        }
        assert(vs.take(vs.len() as int) =~= vs);
        out
    }

    /// The full match set of a query under a sort specification, in the
    /// effective total order. No permission filtering happens here;
    /// callers exposing results pass them through the presentation layer.
    pub fn find_all(store: &Store, query: &Query, sort: &Vec<(String, Order)>) -> (r: Result<
        Vec<Model>,
        Error,
    >)
        requires
            store.wf(),
        ensures
            !sort_ok(sort@) ==> (r matches Err(e) && e matches Error::Validation { field }
                && field@ == sort@[first_unknown(sort@)].0@),
            sort_ok(sort@) ==> (r matches Ok(v) && views_of(v@) == sort_spec(
                matching_rows(store@, query@),
                effective(resolved(sort@)),
            )),
    {
        match resolve_sort(sort) {
            Result::Err(e) => Result::Err(e),
            Result::Ok(rs) => {
                let eff = effective_exec(rs);
                let matching = Self::filter_matching(store, query);
                Result::Ok(sort_models(&matching, &eff))
            },
        }
    }

    /// Upserts one row by its identifier.
    fn upsert_one(store: &mut Store, m: Model)
        requires
            old(store).wf(),
        ensures
            final(store).wf(),
            final(store)@ == upsert_row(old(store)@, m@),
    {
        let ghost vs = old(store)@;
        let mut i: usize = 0;
        while i < store.rows.len()
            invariant
                i <= vs.len(),
                vs == store@,
                vs == old(store)@,
                store.wf(),
                forall|j: int| 0 <= j < i ==> (#[trigger] vs[j]).id != m@.id,
            decreases vs.len() - i,
        {
            if store.rows[i].id == m.id {
                proof {
                    assert(vs[i as int].id == m@.id);
                    assert(has_id(vs, m@.id));
                    lemma_index_of_id(vs, m@.id);
                    let k = index_of_id(vs, m@.id);
                    if k < i {
                        assert(vs[k].id != vs[i as int].id);
                        assert(false);
                    } else if k > i {
                        assert(vs[i as int].id != vs[k].id);
                        assert(false);
                    }
                    lemma_upsert_row_wf(vs, m@);
                }
                let ghost mv = m@;
                store.rows.set(i, m);
                assert(store@ =~= vs.update(i as int, mv));
                return ;
            }
            i = i + 1;
        }
        proof {
            lemma_upsert_row_wf(vs, m@);
        }
        let ghost mv = m@;
        store.rows.push(m);
        assert(store@ =~= vs.push(mv));
        assert(!has_id(vs, mv.id));
    }

    /// Persists a batch of rows, upserting each by identifier, and hands
    /// the batch back.
    pub fn save(store: &mut Store, models: Vec<Model>) -> (r: Vec<Model>)
        requires
            old(store).wf(),
        ensures
            final(store).wf(),
            final(store)@ == upsert_all(old(store)@, views_of(models@)),
            r == models,
    {
        let ghost ms = views_of(models@);
        let mut i: usize = 0;
        assert(ms.skip(0) =~= ms);
        while i < models.len()
            invariant
                i <= ms.len(),
                ms == views_of(models@),
                store.wf(),
                upsert_all(old(store)@, ms) == upsert_all(store@, ms.skip(i as int)),
            decreases ms.len() - i,
    {
            proof {
                assert(ms.skip(i as int)[0] == ms[i as int]);
                assert(ms.skip(i as int).drop_first() =~= ms.skip(i + 1));
            }
            Self::upsert_one(store, models[i].duplicate());
            i = i + 1;
        }
        models
    }

    /// Removes the given rows by identifier, as one unit.
    pub fn delete(store: &mut Store, models: Vec<Model>)
        requires
            old(store).wf(),
        ensures
            final(store).wf(),
            final(store)@ == without_ids(old(store)@, model_ids(views_of(models@))),
    {
        let ghost vs = store@;
        let mut ids: Vec<u128> = Vec::new();
        let mut i: usize = 0;
        while i < models.len()
            invariant
                i <= models@.len(),
                ids@.len() == i,
                forall|j: int| 0 <= j < i ==> ids@[j] == (#[trigger] models@[j])@.id,
            decreases models@.len() - i,
        {
            ids.push(models[i].id);
            i = i + 1;
        }
        proof {
            lemma_model_ids(views_of(models@));
            assert(ids@ =~= model_ids(views_of(models@)));
        }
        let mut kept: Vec<Model> = Vec::new();
        let mut k: usize = 0;
        assert(vs.take(0) =~= Seq::empty());
        while k < store.rows.len()
            invariant
                k <= vs.len(),
                vs == store@,
                ids@ == model_ids(views_of(models@)),
                views_of(kept@) == without_ids(vs.take(k as int), ids@),
            decreases vs.len() - k,
        {
            proof {
                let cur = vs.take(k + 1);
                assert(cur.drop_last() =~= vs.take(k as int));
                assert(cur.last() == vs[k as int]);
            }
            let ghost snap = kept@;
            if !ids_contain(&ids, store.rows[k].id) {
                kept.push(store.rows[k].duplicate());
                assert(views_of(kept@) =~= views_of(snap).push(vs[k as int]));
            }
            k = k + 1;
        }
        assert(vs.take(vs.len() as int) =~= vs);
        proof {
            lemma_without_ids_wf(vs, ids@);
        }
        store.rows = kept;
    }

    /// The rows of a sorted vector strictly greater than the cursor row.
    fn filter_gt(sorted: &Vec<Model>, c: &Model, eff: &Vec<(Field, Order)>) -> (r: Vec<Model>)
        ensures
            views_of(r@) == gt_rows(views_of(sorted@), c@, eff@),
    {
        let ghost vs = views_of(sorted@);
        let mut out: Vec<Model> = Vec::new();
        let mut i: usize = 0;
        assert(vs.take(0) =~= Seq::empty());
        while i < sorted.len()
            invariant
                i <= vs.len(),
                vs == views_of(sorted@),
                views_of(out@) == gt_rows(vs.take(i as int), c@, eff@),
            decreases vs.len() - i,
        {
            proof {
                let cur = vs.take(i + 1);
                assert(cur.drop_last() =~= vs.take(i as int));
                assert(cur.last() == vs[i as int]);
            }
            let ghost snap = out@;
            let cm = compare_models(&sorted[i], c, eff);
            if matches!(cm, Cmp::Greater) {
                out.push(sorted[i].duplicate());
                assert(views_of(out@) =~= views_of(snap).push(vs[i as int]));
            }
            i = i + 1;
        }
        assert(vs.take(vs.len() as int) =~= vs);
        out
    }

    /// The rows of a sorted vector strictly less than the cursor row.
    fn filter_lt(sorted: &Vec<Model>, c: &Model, eff: &Vec<(Field, Order)>) -> (r: Vec<Model>)
        ensures
            views_of(r@) == lt_rows(views_of(sorted@), c@, eff@),
    {
        let ghost vs = views_of(sorted@);
        let mut out: Vec<Model> = Vec::new();
        let mut i: usize = 0;
        assert(vs.take(0) =~= Seq::empty());
        while i < sorted.len()
            invariant
                i <= vs.len(),
                vs == views_of(sorted@),
                views_of(out@) == lt_rows(vs.take(i as int), c@, eff@),
            decreases vs.len() - i,
        {
            proof {
                let cur = vs.take(i + 1);
                assert(cur.drop_last() =~= vs.take(i as int));
                assert(cur.last() == vs[i as int]);
            }
            let ghost snap = out@;
            let cm = compare_models(&sorted[i], c, eff);
            if matches!(cm, Cmp::Less) {
                out.push(sorted[i].duplicate());
                assert(views_of(out@) =~= views_of(snap).push(vs[i as int]));
            }
            i = i + 1;
        }
        assert(vs.take(vs.len() as int) =~= vs);
        out
    }

    /// A bounded window of the rows matching a query under a sort
    /// specification, together with cursors' worth of direction
    /// indicators. The cursor is the identifier of a boundary row; it is
    /// read from the store for its key values alone and need not match
    /// the query. The operator plays no role at this layer: permission
    /// shaping happens in the presentation pass.
    pub fn find_page(
        store: &Store,
        _operator: Option<&Model>,
        query: &Query,
        sort: &Vec<(String, Order)>,
        size: usize,
        after: Option<u128>,
        before: Option<u128>,
    ) -> (r: Result<Page, Error>)
        requires
            store.wf(),
        ensures
            find_page_post(store@, query@, sort@, size as int, after, before, r),
    {
        let rs = match resolve_sort(sort) {
            Result::Err(e) => {
                return Result::Err(e);
            },
            Result::Ok(rs) => rs,
        };
        if after.is_some() && before.is_some() {
            return Result::Err(Error::Validation { field: "cursor".to_owned() });
        }
        let eff = effective_exec(rs);
        let matching = Self::filter_matching(store, query);
        let sorted = sort_models(&matching, &eff);
        let ghost sv = sort_spec(matching_rows(store@, query@), effective(resolved(sort@)));
        match after {
            Option::Some(a) => {
                let cur = match Self::find_by_id(store, a) {
                    Option::Some(m) => m,
                    Option::None => {
                        return Result::Err(
                            Error::NotFound { typ: "User".to_owned(), id: a },
                        );
                    },
                };
                let g = Self::filter_gt(&sorted, &cur, &eff);
                let glen = g.len();
                let has_next = glen > size;
                let has_previous = sorted.len() > glen;
                let mut items = g;
                items.truncate(size);
                proof {
                    let gv = gt_rows(sv, cur@, eff@);
                    assert(views_of(items@) =~= gv.take(spec_min(size as int, gv.len() as int)));
                }
                Result::Ok(Page { items, has_previous, has_next })
            },
            Option::None => {
                match before {
                    Option::Some(b) => {
                        let cur = match Self::find_by_id(store, b) {
                            Option::Some(m) => m,
                            Option::None => {
                                return Result::Err(
                                    Error::NotFound { typ: "User".to_owned(), id: b },
                                );
                            },
                        };
                        let l = Self::filter_lt(&sorted, &cur, &eff);
                        let llen = l.len();
                        let keep = if size < llen {
                            size
                        } else {
                            llen
                        };
                        let start = llen - keep;
                        let has_previous = llen > size;
                        let has_next = sorted.len() > llen;
                        let mut items: Vec<Model> = Vec::new();
                        let mut i: usize = start;
                        assert(views_of(l@).subrange(start as int, start as int) =~= Seq::empty());
                        while i < llen
                            invariant
                                start <= i <= llen,
                                llen == l@.len(),
                                views_of(items@) == views_of(l@).subrange(start as int, i as int),
                            decreases llen - i,
                        {
                            let ghost snap = items@;
                            items.push(l[i].duplicate());
                            assert(views_of(items@) =~= views_of(snap).push(views_of(l@)[i as int]));
                            assert(views_of(l@).subrange(start as int, i + 1) =~= views_of(
                                l@,
                            ).subrange(start as int, i as int).push(views_of(l@)[i as int]));
                            i = i + 1;
                        }
                        proof {
                            let lv = lt_rows(sv, cur@, eff@);
                            assert(views_of(items@) =~= lv.skip(
                                lv.len() - spec_min(size as int, lv.len() as int),
                            ));
                        }
                        Result::Ok(Page { items, has_previous, has_next })
                    },
                    Option::None => {
                        let slen = sorted.len();
                        let has_next = slen > size;
                        let mut items = sorted;
                        items.truncate(size);
                        proof {
                            assert(views_of(items@) =~= sv.take(
                                spec_min(size as int, sv.len() as int),
                            ));
                        }
                        Result::Ok(Page { items, has_previous: false, has_next })
                    },
                }
            },
        }
    }
}

} // verus!
