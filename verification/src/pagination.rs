//! The ordering half of the cursor-pagination engine: named sort fields,
//! the composite comparator they induce, the implicit identifier
//! tie-break, and a verified insertion sort against that order.

use vstd::prelude::*;

verus! {

use crate::error::Error;
use crate::store::{has_id, no_dup_ids};
use crate::text::{Cmp, flip, lemma_lex_flip, lemma_lex_refl, lemma_lex_trans, lex_bytes, lex_bytes_cmp};
use crate::user::{Model, ModelView, role_level, role_rank, views_of};

/// A sort direction.
#[derive(Clone, Copy, Debug, PartialEq, Eq, Structural)]
pub enum Order {
    Asc,
    Desc,
}

/// A sort field the user entity recognizes.
#[derive(Clone, Copy, Debug, PartialEq, Eq, Structural)]
pub enum Field {
    Id,
    Name,
    Role,
}

/// Whether a field-name token names a recognized sort field.
pub open spec fn field_known(f: Seq<char>) -> bool {
    f == "id"@ || f == "name"@ || f == "role"@
}

/// The recognized sort field a token names.
pub open spec fn field_of(f: Seq<char>) -> Field {
    if f == "id"@ {
        Field::Id
    } else if f == "name"@ {
        Field::Name
    } else {
        Field::Role
    }
}

/// The field a token names, or nothing for an unrecognized token.
pub open spec fn resolve_field(f: Seq<char>) -> Option<Field> {
    if field_known(f) {
        Option::Some(field_of(f))
    } else {
        Option::None
    }
}

/// Resolves one field-name token.
pub fn resolve_field_exec(f: &String) -> (r: Option<Field>)
    ensures
        r == resolve_field(f@),
{
    let w_id: String = "id".to_owned();
    let w_name: String = "name".to_owned();
    let w_role: String = "role".to_owned();
    if *f == w_id {
        Option::Some(Field::Id)
    } else if *f == w_name {
        Option::Some(Field::Name)
    } else if *f == w_role {
        Option::Some(Field::Role)
    } else {
        Option::None
    }
}

/// Mirrors a comparison result.
pub fn flip_exec(c: Cmp) -> (r: Cmp)
    ensures
        r == flip(c),
{
    match c {
        Cmp::Less => Cmp::Greater,
        Cmp::Equal => Cmp::Equal,
        Cmp::Greater => Cmp::Less,
    }
}

/// Three-way comparison of two integers.
pub open spec fn cmp_int(a: int, b: int) -> Cmp {
    if a < b {
        Cmp::Less
    } else if a > b {
        Cmp::Greater
    } else {
        Cmp::Equal
    }
}

/// A comparison result read under a direction.
pub open spec fn apply_order(c: Cmp, o: Order) -> Cmp {
    match o {
        Order::Asc => c,
        Order::Desc => flip(c),
    }
}

/// Total comparison of two rows by one recognized field.
pub open spec fn cmp_field(a: ModelView, b: ModelView, f: Field) -> Cmp {
    match f {
        Field::Id => cmp_int(a.id as int, b.id as int),
        Field::Name => lex_bytes(a.name, b.name),
        Field::Role => cmp_int(role_level(a.role), role_level(b.role)),
    }
}

/// The composite comparator a sort specification induces: compare by the
/// first pair; on a tie fall through to the rest.
pub open spec fn cmp_models(a: ModelView, b: ModelView, s: Seq<(Field, Order)>) -> Cmp
    decreases s.len(),
{
    if s.len() == 0 {
        Cmp::Equal
    } else {
        let c = apply_order(cmp_field(a, b, s[0].0), s[0].1);
        if c == Cmp::Equal {
            cmp_models(a, b, s.drop_first())
        } else {
            c
        }
    }
}

/// Compares two rows by one recognized field.
pub fn compare_field(a: &Model, b: &Model, f: Field) -> (r: Cmp)
    ensures
        r == cmp_field(a@, b@, f),
{
    match f {
        Field::Id => {
            if a.id < b.id {
                Cmp::Less
            } else if a.id > b.id {
                Cmp::Greater
            } else {
                Cmp::Equal
            }
        },
        Field::Name => lex_bytes_cmp(a.name.as_str().as_bytes(), b.name.as_str().as_bytes()),
        Field::Role => {
            let ra = role_rank(a.role);
            let rb = role_rank(b.role);
            if ra < rb {
                Cmp::Less
            } else if ra > rb {
                Cmp::Greater
            } else {
                Cmp::Equal
            }
        },
    }
}

/// Compares two rows under a resolved sort specification.
pub fn compare_models(a: &Model, b: &Model, s: &Vec<(Field, Order)>) -> (r: Cmp)
    ensures
        r == cmp_models(a@, b@, s@),
{
    let mut i: usize = 0;
    assert(s@.skip(0) =~= s@);
    while i < s.len()
        invariant
            i <= s@.len(),
            cmp_models(a@, b@, s@) == cmp_models(a@, b@, s@.skip(i as int)),
        decreases s@.len() - i,
    {
        let (f, o) = s[i];
        assert(s@.skip(i as int)[0] == s@[i as int]);
        let c = compare_field(a, b, f);
        let c = match o {
            Order::Asc => c,
            Order::Desc => flip_exec(c),
        };
        if !matches!(c, Cmp::Equal) {
            return c;
        }
        assert(s@.skip(i as int).drop_first() =~= s@.skip(i + 1));
        i = i + 1;
    }
    Cmp::Equal
}

/// Whether every token of a sort specification names a recognized field.
pub open spec fn sort_ok(s: Seq<(String, Order)>) -> bool {
    forall|i: int| 0 <= i < s.len() ==> field_known(#[trigger] s[i].0@)
}

/// The position of the first unrecognized token.
pub open spec fn first_unknown(s: Seq<(String, Order)>) -> int
    decreases s.len(),
{
    if s.len() == 0 {
        0
    } else if !field_known(s[0].0@) {
        0
    } else {
        1 + first_unknown(s.drop_first())
    }
}

pub proof fn lemma_first_unknown(s: Seq<(String, Order)>, i: int)
    requires
        0 <= i < s.len(),
        forall|j: int| 0 <= j < i ==> field_known(#[trigger] s[j].0@),
        !field_known(s[i].0@),
    ensures
        first_unknown(s) == i,
    decreases s.len(),
{
    if i > 0 {
        let rest = s.drop_first();
        assert forall|j: int| 0 <= j < i - 1 implies field_known(#[trigger] rest[j].0@) by {
            assert(rest[j] == s[j + 1]);
        }
        assert(rest[i - 1] == s[i]);
        lemma_first_unknown(rest, i - 1);
    }
}

/// The resolved form of a sort specification whose tokens are all known.
pub open spec fn resolved(s: Seq<(String, Order)>) -> Seq<(Field, Order)> {
    Seq::new(s.len(), |i: int| (field_of(s[i].0@), s[i].1))
}

/// Resolves a sort specification, rejecting the first unrecognized
/// field-name token as a validation error.
pub fn resolve_sort(sort: &Vec<(String, Order)>) -> (r: Result<Vec<(Field, Order)>, Error>)
    ensures
        sort_ok(sort@) ==> (r matches Ok(v) && v@ == resolved(sort@)),
        !sort_ok(sort@) ==> (r matches Err(e) && e matches Error::Validation { field }
            && field@ == sort@[first_unknown(sort@)].0@),
{
    let mut out: Vec<(Field, Order)> = Vec::new();
    let mut i: usize = 0;
    while i < sort.len()
        invariant
            i <= sort@.len(),
            out@.len() == i,
            forall|j: int| 0 <= j < i ==> field_known(#[trigger] sort@[j].0@),
            forall|j: int| 0 <= j < i ==> out@[j] == (field_of(#[trigger] sort@[j].0@), sort@[j].1),
        decreases sort@.len() - i,
    {
        match resolve_field_exec(&sort[i].0) {
            Option::Some(f) => {
                out.push((f, sort[i].1));
            },
            Option::None => {
                proof {
                    lemma_first_unknown(sort@, i as int);
                }
                return Result::Err(Error::Validation { field: sort[i].0.clone() });
            },
        }
        i = i + 1;
    }
    assert(out@ =~= resolved(sort@));
    Result::Ok(out)
}

/// The effective sort: the given pairs, with an ascending identifier
/// tie-break appended unless the specification already ends in the
/// identifier field. This makes the order total over distinct rows.
pub open spec fn effective(s: Seq<(Field, Order)>) -> Seq<(Field, Order)> {
    if s.len() > 0 && s.last().0 == Field::Id {
        s
    } else {
        s.push((Field::Id, Order::Asc))
    }
}

/// Appends the identifier tie-break where the specification needs one.
pub fn effective_exec(s: Vec<(Field, Order)>) -> (r: Vec<(Field, Order)>)
    ensures
        r@ == effective(s@),
{
    if s.len() > 0 && matches!(s[s.len() - 1].0, Field::Id) {
        s
    } else {
        let mut s = s;
        s.push((Field::Id, Order::Asc));
        s
    }
}

/// A row inserted into an already sorted sequence, before the first
/// element it does not come strictly after.
pub open spec fn insert_sorted_spec(
    acc: Seq<ModelView>,
    x: ModelView,
    s: Seq<(Field, Order)>,
) -> Seq<ModelView>
    decreases acc.len(),
{
    if acc.len() == 0 {
        seq![x]
    } else if cmp_models(x, acc[0], s) != Cmp::Greater {
        seq![x] + acc
    } else {
        seq![acc[0]] + insert_sorted_spec(acc.drop_first(), x, s)
    }
}

/// The insertion sort of a sequence of rows under a comparator: the
/// canonical stable ordering every paged read works over.
pub open spec fn sort_spec(v: Seq<ModelView>, s: Seq<(Field, Order)>) -> Seq<ModelView>
    decreases v.len(),
{
    if v.len() == 0 {
        Seq::empty()
    } else {
        insert_sorted_spec(sort_spec(v.drop_last(), s), v.last(), s)
    }
}

proof fn lemma_insert_at(acc: Seq<ModelView>, x: ModelView, s: Seq<(Field, Order)>, p: int)
    requires
        0 <= p <= acc.len(),
        forall|j: int| 0 <= j < p ==> cmp_models(x, #[trigger] acc[j], s) == Cmp::Greater,
        p < acc.len() ==> cmp_models(x, acc[p], s) != Cmp::Greater,
    ensures
        insert_sorted_spec(acc, x, s) == acc.take(p) + seq![x] + acc.skip(p),
    decreases acc.len(),
{
    if acc.len() == 0 {
        assert(insert_sorted_spec(acc, x, s) =~= acc.take(p) + seq![x] + acc.skip(p));
    } else if p == 0 {
        assert(insert_sorted_spec(acc, x, s) =~= acc.take(0) + seq![x] + acc.skip(0));
    } else {
        let rest = acc.drop_first();
        assert forall|j: int| 0 <= j < p - 1 implies cmp_models(x, #[trigger] rest[j], s)
            == Cmp::Greater by {
            assert(rest[j] == acc[j + 1]);
        }
        if p - 1 < rest.len() {
            assert(rest[p - 1] == acc[p]);
        }
        lemma_insert_at(rest, x, s, p - 1);
        assert(seq![acc[0]] + (rest.take(p - 1) + seq![x] + rest.skip(p - 1)) =~= acc.take(p)
            + seq![x] + acc.skip(p));
    }
}

/// The first position whose row the inserted one does not come strictly
/// after.
fn insertion_point(acc: &Vec<Model>, x: &Model, s: &Vec<(Field, Order)>) -> (p: usize)
    ensures
        p <= acc@.len(),
        forall|j: int| 0 <= j < p ==> cmp_models(x@, #[trigger] views_of(acc@)[j], s@)
            == Cmp::Greater,
        p < acc@.len() ==> cmp_models(x@, views_of(acc@)[p as int], s@) != Cmp::Greater,
{
    let mut p: usize = 0;
    while p < acc.len()
        invariant
            p <= acc@.len(),
            forall|j: int| 0 <= j < p ==> cmp_models(x@, #[trigger] views_of(acc@)[j], s@)
                == Cmp::Greater,
        decreases acc@.len() - p,
    {
        let c = compare_models(x, &acc[p], s);
        if !matches!(c, Cmp::Greater) {
            return p;
        }
        p = p + 1;
    }
    p
}

/// Inserts a row into a vector kept in `insert_sorted_spec` order.
pub fn insert_sorted(acc: &mut Vec<Model>, x: Model, s: &Vec<(Field, Order)>)
    ensures
        views_of(final(acc)@) == insert_sorted_spec(views_of(old(acc)@), x@, s@),
{
    let p = insertion_point(acc, &x, s);
    proof {
        lemma_insert_at(views_of(old(acc)@), x@, s@, p as int);
    }
    let ghost pre = acc@;
    acc.insert(p, x);
    assert(views_of(acc@) =~= views_of(pre).take(p as int) + seq![x@] + views_of(pre).skip(
        p as int,
    ));
}

/// Sorts rows by the given comparator, mirroring `sort_spec`.
pub fn sort_models(v: &Vec<Model>, s: &Vec<(Field, Order)>) -> (r: Vec<Model>)
    ensures
        views_of(r@) == sort_spec(views_of(v@), s@),
{
    let mut out: Vec<Model> = Vec::new();
    let mut i: usize = 0;
    assert(views_of(v@.take(0)) =~= Seq::empty());
    while i < v.len()
        invariant
            i <= v@.len(),
            views_of(out@) == sort_spec(views_of(v@.take(i as int)), s@),
        decreases v@.len() - i,
    {
        let x = v[i].duplicate();
        proof {
            let t1 = v@.take(i + 1);
            assert(t1.drop_last() =~= v@.take(i as int));
            assert(views_of(t1).drop_last() =~= views_of(t1.drop_last()));
            assert(views_of(t1).last() == v@[i as int]@);
        }
        insert_sorted(&mut out, x, s);
        i = i + 1;
    }
    assert(v@.take(v@.len() as int) =~= v@);
    out
}

/// A sequence ascending under a comparator: no later row compares
/// strictly below an earlier one.
pub open spec fn sorted_le(r: Seq<ModelView>, s: Seq<(Field, Order)>) -> bool {
    forall|i: int, j: int| 0 <= i < j < r.len() ==> cmp_models(#[trigger] r[i], #[trigger] r[j], s)
        != Cmp::Greater
}

/// Comparing a row with itself is a tie, by any field.
pub proof fn lemma_cmp_field_refl(a: ModelView, f: Field)
    ensures
        cmp_field(a, a, f) == Cmp::Equal,
{
    lemma_lex_refl(a.name);
}

/// Swapping the rows mirrors a field comparison.
pub proof fn lemma_cmp_field_flip(a: ModelView, b: ModelView, f: Field)
    ensures
        cmp_field(b, a, f) == flip(cmp_field(a, b, f)),
{
    lemma_lex_flip(a.name, b.name);
}

/// Field comparisons compose transitively.
pub proof fn lemma_cmp_field_trans(a: ModelView, b: ModelView, c: ModelView, f: Field)
    ensures
        cmp_field(a, b, f) == Cmp::Less && cmp_field(b, c, f) == Cmp::Less ==> cmp_field(a, c, f)
            == Cmp::Less,
        cmp_field(a, b, f) == Cmp::Less && cmp_field(b, c, f) == Cmp::Equal ==> cmp_field(a, c, f)
            == Cmp::Less,
        cmp_field(a, b, f) == Cmp::Equal && cmp_field(b, c, f) == Cmp::Less ==> cmp_field(a, c, f)
            == Cmp::Less,
        cmp_field(a, b, f) == Cmp::Equal && cmp_field(b, c, f) == Cmp::Equal ==> cmp_field(
            a,
            c,
            f,
        ) == Cmp::Equal,
{
    lemma_lex_trans(a.name, b.name, c.name);
}

/// Comparing a row with itself is a tie, under any sort specification.
pub proof fn lemma_cmp_models_refl(a: ModelView, s: Seq<(Field, Order)>)
    ensures
        cmp_models(a, a, s) == Cmp::Equal,
    decreases s.len(),
{
    if s.len() > 0 {
        lemma_cmp_field_refl(a, s[0].0);
        lemma_cmp_models_refl(a, s.drop_first());
    }
}

/// Swapping the rows mirrors the composite comparison.
pub proof fn lemma_cmp_models_flip(a: ModelView, b: ModelView, s: Seq<(Field, Order)>)
    ensures
        cmp_models(b, a, s) == flip(cmp_models(a, b, s)),
    decreases s.len(),
{
    if s.len() > 0 {
        lemma_cmp_field_flip(a, b, s[0].0);
        lemma_cmp_models_flip(a, b, s.drop_first());
    }
}

/// The composite comparison composes transitively.
pub proof fn lemma_cmp_models_trans(a: ModelView, b: ModelView, c: ModelView, s: Seq<(
    Field,
    Order,
)>)
    ensures
        cmp_models(a, b, s) == Cmp::Less && cmp_models(b, c, s) == Cmp::Less ==> cmp_models(
            a,
            c,
            s,
        ) == Cmp::Less,
        cmp_models(a, b, s) == Cmp::Less && cmp_models(b, c, s) == Cmp::Equal ==> cmp_models(
            a,
            c,
            s,
        ) == Cmp::Less,
        cmp_models(a, b, s) == Cmp::Equal && cmp_models(b, c, s) == Cmp::Less ==> cmp_models(
            a,
            c,
            s,
        ) == Cmp::Less,
        cmp_models(a, b, s) == Cmp::Equal && cmp_models(b, c, s) == Cmp::Equal ==> cmp_models(
            a,
            c,
            s,
        ) == Cmp::Equal,
    decreases s.len(),
{
    if s.len() > 0 {
        let f = s[0].0;
        lemma_cmp_field_trans(a, b, c, f);
        lemma_cmp_field_trans(c, b, a, f);
        lemma_cmp_field_flip(a, b, f);
        lemma_cmp_field_flip(b, c, f);
        lemma_cmp_field_flip(a, c, f);
        lemma_cmp_models_trans(a, b, c, s.drop_first());
    }
}

/// A composite tie under a specification naming the identifier field
/// forces the identifiers to coincide.
pub proof fn lemma_cmp_equal_id(a: ModelView, b: ModelView, s: Seq<(Field, Order)>, k: int)
    requires
        0 <= k < s.len(),
        s[k].0 == Field::Id,
        cmp_models(a, b, s) == Cmp::Equal,
    ensures
        a.id == b.id,
    decreases s.len(),
{
    if k == 0 {
    } else {
        assert(s.drop_first()[k - 1] == s[k]);
        lemma_cmp_equal_id(a, b, s.drop_first(), k - 1);
    }
}

/// Every row of an insertion comes from the input rows or is the
/// inserted one.
pub proof fn lemma_insert_members(acc: Seq<ModelView>, x: ModelView, s: Seq<(Field, Order)>)
    ensures
        insert_sorted_spec(acc, x, s).len() == acc.len() + 1,
        forall|k: int| 0 <= k < insert_sorted_spec(acc, x, s).len() ==> (#[trigger] insert_sorted_spec(
            acc,
            x,
            s,
        )[k] == x || acc.contains(insert_sorted_spec(acc, x, s)[k])),
    decreases acc.len(),
{
    if acc.len() == 0 {
    } else if cmp_models(x, acc[0], s) != Cmp::Greater {
        assert forall|k: int| 0 <= k < insert_sorted_spec(acc, x, s).len() implies (
        #[trigger] insert_sorted_spec(acc, x, s)[k] == x || acc.contains(
            insert_sorted_spec(acc, x, s)[k],
        )) by {
            if k > 0 {
                assert(insert_sorted_spec(acc, x, s)[k] == acc[k - 1]);
            }
        }
    } else {
        let rest = acc.drop_first();
        lemma_insert_members(rest, x, s);
        let out = insert_sorted_spec(acc, x, s);
        assert forall|k: int| 0 <= k < out.len() implies (#[trigger] out[k] == x || acc.contains(
            out[k],
        )) by {
            if k == 0 {
                assert(out[0] == acc[0]);
            } else {
                assert(out[k] == insert_sorted_spec(rest, x, s)[k - 1]);
                if out[k] != x {
                    assert(rest.contains(out[k]));
                    let w = choose|w: int| 0 <= w < rest.len() && rest[w] == out[k];
                    assert(acc[w + 1] == out[k]);
                }
            }
        }
    }
}

/// Insertion keeps a sequence ascending.
pub proof fn lemma_insert_sorted_le(acc: Seq<ModelView>, x: ModelView, s: Seq<(Field, Order)>)
    requires
        sorted_le(acc, s),
    ensures
        sorted_le(insert_sorted_spec(acc, x, s), s),
    decreases acc.len(),
{
    let out = insert_sorted_spec(acc, x, s);
    if acc.len() == 0 {
    } else if cmp_models(x, acc[0], s) != Cmp::Greater {
        assert forall|i: int, j: int| 0 <= i < j < out.len() implies cmp_models(
            #[trigger] out[i],
            #[trigger] out[j],
            s,
        ) != Cmp::Greater by {
            if i == 0 {
                assert(out[j] == acc[j - 1]);
                if j > 1 {
                    assert(cmp_models(acc[0], acc[j - 1], s) != Cmp::Greater);
                    lemma_cmp_models_trans(x, acc[0], acc[j - 1], s);
                }
            } else {
                assert(out[i] == acc[i - 1] && out[j] == acc[j - 1]);
            }
        }
    } else {
        let rest = acc.drop_first();
        assert forall|i: int, j: int| 0 <= i < j < rest.len() implies cmp_models(
            #[trigger] rest[i],
            #[trigger] rest[j],
            s,
        ) != Cmp::Greater by {
            assert(rest[i] == acc[i + 1] && rest[j] == acc[j + 1]);
        }
        lemma_insert_sorted_le(rest, x, s);
        lemma_insert_members(rest, x, s);
        let ins = insert_sorted_spec(rest, x, s);
        assert forall|i: int, j: int| 0 <= i < j < out.len() implies cmp_models(
            #[trigger] out[i],
            #[trigger] out[j],
            s,
        ) != Cmp::Greater by {
            if i == 0 {
                assert(out[0] == acc[0]);
                assert(out[j] == ins[j - 1]);
                if ins[j - 1] == x {
                    lemma_cmp_models_flip(x, acc[0], s);
                } else {
                    assert(rest.contains(ins[j - 1]));
                    let w = choose|w: int| 0 <= w < rest.len() && rest[w] == ins[j - 1];
                    assert(acc[w + 1] == ins[j - 1]);
                    assert(cmp_models(acc[0], acc[w + 1], s) != Cmp::Greater);
                }
            } else {
                assert(out[i] == ins[i - 1] && out[j] == ins[j - 1]);
            }
        }
    }
}

/// The sorted sequence is ascending.
pub proof fn lemma_sort_sorted(v: Seq<ModelView>, s: Seq<(Field, Order)>)
    ensures
        sorted_le(sort_spec(v, s), s),
    decreases v.len(),
{
    if v.len() > 0 {
        lemma_sort_sorted(v.drop_last(), s);
        lemma_insert_sorted_le(sort_spec(v.drop_last(), s), v.last(), s);
    }
}

/// Insertion carries exactly the identifiers of the input plus the new one.
pub proof fn lemma_insert_has_id(acc: Seq<ModelView>, x: ModelView, s: Seq<(Field, Order)>)
    ensures
        forall|z: u128| has_id(insert_sorted_spec(acc, x, s), z) <==> (has_id(acc, z) || x.id
            == z),
    decreases acc.len(),
{
    let out = insert_sorted_spec(acc, x, s);
    lemma_insert_members(acc, x, s);
    assert forall|z: u128| has_id(out, z) <==> (has_id(acc, z) || x.id == z) by {
        if has_id(out, z) {
            let k = choose|k: int| 0 <= k < out.len() && out[k].id == z;
            if out[k] == x {
            } else {
                assert(acc.contains(out[k]));
                let w = choose|w: int| 0 <= w < acc.len() && acc[w] == out[k];
                assert(acc[w].id == z);
            }
        }
        if has_id(acc, z) || x.id == z {
            lemma_insert_at_has(acc, x, s, z);
        }
    }
}

proof fn lemma_insert_at_has(acc: Seq<ModelView>, x: ModelView, s: Seq<(Field, Order)>, z: u128)
    requires
        has_id(acc, z) || x.id == z,
    ensures
        has_id(insert_sorted_spec(acc, x, s), z),
    decreases acc.len(),
{
    let out = insert_sorted_spec(acc, x, s);
    if acc.len() == 0 {
        assert(out[0] == x);
    } else if cmp_models(x, acc[0], s) != Cmp::Greater {
        if x.id == z {
            assert(out[0] == x);
        } else {
            let k = choose|k: int| 0 <= k < acc.len() && acc[k].id == z;
            assert(out[k + 1] == acc[k]);
        }
    } else {
        let rest = acc.drop_first();
        if acc[0].id == z {
            assert(out[0] == acc[0]);
        } else {
            if has_id(acc, z) {
                let k = choose|k: int| 0 <= k < acc.len() && acc[k].id == z;
                assert(rest[k - 1].id == z);
                assert(has_id(rest, z));
            }
            lemma_insert_at_has(rest, x, s, z);
            let w = choose|w: int|
                0 <= w < insert_sorted_spec(rest, x, s).len() && insert_sorted_spec(
                    rest,
                    x,
                    s,
                )[w].id == z;
            assert(out[w + 1] == insert_sorted_spec(rest, x, s)[w]);
        }
    }
}

/// Insertion of a fresh identifier keeps identifiers pairwise distinct.
pub proof fn lemma_insert_no_dup(acc: Seq<ModelView>, x: ModelView, s: Seq<(Field, Order)>)
    requires
        no_dup_ids(acc),
        !has_id(acc, x.id),
    ensures
        no_dup_ids(insert_sorted_spec(acc, x, s)),
    decreases acc.len(),
{
    let out = insert_sorted_spec(acc, x, s);
    if acc.len() == 0 {
    } else if cmp_models(x, acc[0], s) != Cmp::Greater {
        assert forall|i: int, j: int| 0 <= i < j < out.len() implies out[i].id != out[j].id by {
            if i == 0 {
                assert(out[j] == acc[j - 1]);
                assert(!(acc[j - 1].id == x.id));
            } else {
                assert(out[i] == acc[i - 1] && out[j] == acc[j - 1]);
            }
        }
    } else {
        let rest = acc.drop_first();
        assert forall|i: int, j: int| 0 <= i < j < rest.len() implies rest[i].id != rest[j].id by {
            assert(rest[i] == acc[i + 1] && rest[j] == acc[j + 1]);
        }
        assert(!has_id(rest, x.id)) by {
            if has_id(rest, x.id) {
                let k = choose|k: int| 0 <= k < rest.len() && rest[k].id == x.id;
                assert(acc[k + 1].id == x.id);
            }
        }
        lemma_insert_no_dup(rest, x, s);
        lemma_insert_has_id(rest, x, s);
        let ins = insert_sorted_spec(rest, x, s);
        assert forall|i: int, j: int| 0 <= i < j < out.len() implies out[i].id != out[j].id by {
            if i == 0 {
                assert(out[0] == acc[0]);
                assert(out[j] == ins[j - 1]);
                assert(has_id(ins, ins[j - 1].id));
                if ins[j - 1].id == acc[0].id {
                    if has_id(rest, acc[0].id) {
                        let k = choose|k: int| 0 <= k < rest.len() && rest[k].id == acc[0].id;
                        assert(acc[k + 1].id == acc[0].id);
                        assert(false);
                    } else {
                        assert(x.id == acc[0].id);
                        assert(acc[0].id == x.id);
                        assert(has_id(acc, x.id));
                        assert(false);
                    }
                }
            } else {
                assert(out[i] == ins[i - 1] && out[j] == ins[j - 1]);
            }
        }
    }
}

/// Sorting neither adds nor drops identifiers.
pub proof fn lemma_sort_has_id(v: Seq<ModelView>, s: Seq<(Field, Order)>)
    ensures
        forall|z: u128| has_id(sort_spec(v, s), z) <==> has_id(v, z),
    decreases v.len(),
{
    if v.len() == 0 {
        assert(sort_spec(v, s) =~= Seq::<ModelView>::empty());
    } else {
        let pre = v.drop_last();
        lemma_sort_has_id(pre, s);
        let sp = sort_spec(pre, s);
        lemma_insert_has_id(sp, v.last(), s);
        assert forall|z: u128| has_id(sort_spec(v, s), z) <==> has_id(v, z) by {
            assert(sort_spec(v, s) == insert_sorted_spec(sp, v.last(), s));
            assert(has_id(insert_sorted_spec(sp, v.last(), s), z) <==> (has_id(sp, z)
                || v.last().id == z));
            assert(has_id(sp, z) <==> has_id(pre, z));
            if has_id(sort_spec(v, s), z) {
                if has_id(pre, z) {
                    let k = choose|k: int| 0 <= k < pre.len() && pre[k].id == z;
                    assert(v[k].id == z);
                    assert(has_id(v, z));
                } else {
                    assert(v[v.len() - 1].id == z);
                    assert(has_id(v, z));
                }
            }
            if has_id(v, z) {
                let k = choose|k: int| 0 <= k < v.len() && v[k].id == z;
                if k < v.len() - 1 {
                    assert(pre[k].id == z);
                    assert(has_id(pre, z));
                } else {
                    assert(v.last().id == z);
                }
            }
        }
    }
}

/// Sorting keeps identifiers pairwise distinct.
pub proof fn lemma_sort_no_dup(v: Seq<ModelView>, s: Seq<(Field, Order)>)
    requires
        no_dup_ids(v),
    ensures
        no_dup_ids(sort_spec(v, s)),
    decreases v.len(),
{
    if v.len() > 0 {
        let pre = v.drop_last();
        assert forall|i: int, j: int| 0 <= i < j < pre.len() implies pre[i].id != pre[j].id by {
            assert(pre[i] == v[i] && pre[j] == v[j]);
        }
        lemma_sort_no_dup(pre, s);
        lemma_sort_has_id(pre, s);
        assert(!has_id(sort_spec(pre, s), v.last().id)) by {
            if has_id(pre, v.last().id) {
                let k = choose|k: int| 0 <= k < pre.len() && pre[k].id == v.last().id;
                assert(v[k].id == v[v.len() - 1].id);
                assert(false);
            }
        }
        lemma_insert_no_dup(sort_spec(pre, s), v.last(), s);
    }
}

} // verus!
