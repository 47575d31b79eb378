//! The permission model: a capability derived per operator and per row at
//! request time, never cached, and the write-gate used by update and
//! delete commands.

use vstd::prelude::*;

verus! {

use crate::error::{Error, FieldValue};
use crate::user::{Model, ModelView, Role, views_of};

/// What an operator may do with one row.
#[derive(Clone, Copy, Debug, PartialEq, Eq, Structural)]
pub enum Permission {
    ReadOnly,
    ReadWrite,
}

/// The value of the optional operator.
pub open spec fn op_view(op: Option<&Model>) -> Option<ModelView> {
    match op {
        Option::Some(m) => Option::Some(m@),
        Option::None => Option::None,
    }
}

/// The identifier of the optional operator.
pub open spec fn op_id(op: Option<ModelView>) -> Option<u128> {
    match op {
        Option::Some(m) => Option::Some(m.id),
        Option::None => Option::None,
    }
}

/// The default permission policy: an absent operator reads everything
/// and writes nothing; a present operator writes a row if their role
/// dominates or the row is their own record.
pub open spec fn perm_of(op: Option<ModelView>, m: ModelView) -> Permission {
    match op {
        Option::Some(o) => if o.role == Role::Admin || o.id == m.id {
            Permission::ReadWrite
        } else {
            Permission::ReadOnly
        },
        Option::None => Permission::ReadOnly,
    }
}

/// Whether the operator has read-write permission on every given row.
pub open spec fn all_writable(op: Option<ModelView>, rows: Seq<ModelView>) -> bool {
    forall|i: int| 0 <= i < rows.len() ==> perm_of(op, #[trigger] rows[i]) == Permission::ReadWrite
}

/// The identifiers of the rows the operator cannot write, in row order.
pub open spec fn offending_ids(op: Option<ModelView>, rows: Seq<ModelView>) -> Seq<u128>
    decreases rows.len(),
{
    if rows.len() == 0 {
        Seq::empty()
    } else {
        let rest = offending_ids(op, rows.drop_last());
        if perm_of(op, rows.last()) == Permission::ReadOnly {
            rest.push(rows.last().id)
        } else {
            rest
        }
    }
}

/// No offending identifiers means every row is writable, and conversely.
pub proof fn lemma_offending_all(op: Option<ModelView>, rows: Seq<ModelView>)
    ensures
        (offending_ids(op, rows).len() == 0) <==> all_writable(op, rows),
    decreases rows.len(),
{
    if rows.len() > 0 {
        let pre = rows.drop_last();
        lemma_offending_all(op, pre);
        if perm_of(op, rows.last()) == Permission::ReadOnly {
            assert(perm_of(op, rows[rows.len() - 1]) != Permission::ReadWrite);
        } else {
            assert forall|i: int| 0 <= i < pre.len() implies #[trigger] rows[i] == pre[i] by {}
            if all_writable(op, pre) {
                assert forall|i: int| 0 <= i < rows.len() implies perm_of(op, #[trigger] rows[i])
                    == Permission::ReadWrite by {
                    if i < pre.len() {
                        assert(perm_of(op, pre[i]) == Permission::ReadWrite);
                    }
                }
            }
        }
    }
}

/// A write-permission error naming exactly the given identifiers.
pub open spec fn is_no_write_ids(e: Error, oid: Option<u128>, ids: Seq<u128>) -> bool {
    &&& e matches Error::NoWritePermission { operator_id, typ, field_values }
    &&& operator_id == oid
    &&& typ@ == "User"@
    &&& field_values@.len() == ids.len()
    &&& forall|i: int| 0 <= i < ids.len() ==> (#[trigger] field_values@[i]).0@ == "id"@
        && field_values@[i].1 == FieldValue::Id(ids[i])
}

/// The permission of one row for one operator.
pub fn permission_of(operator: Option<&Model>, m: &Model) -> (r: Permission)
    ensures
        r == perm_of(op_view(operator), m@),
{
    match operator {
        Option::Some(o) => {
            if matches!(o.role, Role::Admin) || o.id == m.id {
                Permission::ReadWrite
            } else {
                Permission::ReadOnly
            }
        },
        Option::None => Permission::ReadOnly,
    }
}

/// Bulk-computes the permission of each given row for the operator, one
/// entry per row, in row order, with no per-row storage access.
pub fn get_permission(operator: Option<&Model>, models: &Vec<Model>) -> (r: Vec<(u128, Permission)>)
    ensures
        r@.len() == models@.len(),
        forall|i: int| 0 <= i < models@.len() ==> (#[trigger] r@[i]).0 == models@[i]@.id
            && r@[i].1 == perm_of(op_view(operator), models@[i]@),
{
    let mut out: Vec<(u128, Permission)> = Vec::new();
    let mut i: usize = 0;
    while i < models.len()
        invariant
            i <= models@.len(),
            out@.len() == i,
            forall|j: int| 0 <= j < i ==> (#[trigger] out@[j]).0 == models@[j]@.id && out@[j].1
                == perm_of(op_view(operator), models@[j]@),
        decreases models@.len() - i,
    {
        let p = permission_of(operator, &models[i]);
        out.push((models[i].id, p));
        i = i + 1;
    }
    out
}

/// The write-gate: succeeds when the operator has read-write permission
/// on every candidate row; otherwise fails the whole operation, naming
/// every offending identifier.
pub fn check_writeable(operator: Option<&Model>, models: &Vec<Model>) -> (r: Result<(), Error>)
    ensures
        all_writable(op_view(operator), views_of(models@)) <==> r matches Ok(u),
        !all_writable(op_view(operator), views_of(models@)) ==> (r matches Err(e)
            && is_no_write_ids(e, op_id(op_view(operator)), offending_ids(
            op_view(operator),
            views_of(models@),
        ))),
{
    let ghost vs = views_of(models@);
    let mut off: Vec<(String, FieldValue)> = Vec::new();
    let mut i: usize = 0;
    assert(vs.take(0) =~= Seq::empty());
    while i < models.len()
        invariant
            i <= models@.len(),
            vs == views_of(models@),
            off@.len() == offending_ids(op_view(operator), vs.take(i as int)).len(),
            forall|j: int| 0 <= j < off@.len() ==> (#[trigger] off@[j]).0@ == "id"@ && off@[j].1
                == FieldValue::Id(offending_ids(op_view(operator), vs.take(i as int))[j]),
        decreases models@.len() - i,
    {
        let ghost pre = vs.take(i as int);
        let ghost cur = vs.take(i + 1);
        proof {
            assert(cur.drop_last() =~= pre);
            assert(cur.last() == vs[i as int]);
        }
        let p = permission_of(operator, &models[i]);
        if matches!(p, Permission::ReadOnly) {
            off.push(("id".to_owned(), FieldValue::Id(models[i].id)));
        }
        i = i + 1;
    }
    assert(vs.take(vs.len() as int) =~= vs);
    proof {
        lemma_offending_all(op_view(operator), vs);
    }
    if off.len() == 0 {
        Result::Ok(())
    } else {
        Result::Err(Error::NoWritePermission {
            operator_id: match operator {
                Option::Some(o) => Option::Some(o.id),
                Option::None => Option::None,
            },
            typ: "User".to_owned(),
            field_values: off,
        })
    }
}

} // verus!
