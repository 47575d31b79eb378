//! The illustrative entity type of the framework: a user with a name and a
//! role. Carries the aggregate-root behaviour: identity, field comparison,
//! reconstruction from stored rows, command handling and permission
//! derivation.

use vstd::prelude::*;

verus! {

use crate::access::{
    Permission,
    all_writable,
    is_no_write_ids,
    lemma_offending_all,
    offending_ids,
    op_id,
    op_view,
    perm_of,
};
use crate::error::{Error, FieldValue};
use crate::pagination::{cmp_field, compare_field, resolve_field, resolve_field_exec};
use crate::repository::Repository;
use crate::store::{
    Store,
    has_id,
    lemma_model_ids,
    lemma_rows_with_ids,
    lemma_without_ids_congruence,
    model_ids,
    row_of,
    rows_with_ids,
    upsert_all,
    upsert_row,
    without_ids,
};
use crate::text::{Cmp, bytes_eq, bytes_of, lower_str, normalize, normalized, trim_of, trim_str};

/// The classification of a user. `Admin` dominates `User`.
#[derive(Clone, Copy, Debug, PartialEq, Eq, Structural)]
pub enum Role {
    User,
    Admin,
}

/// The dominance level of a role; a higher level may grant lower ones.
pub open spec fn role_level(r: Role) -> int {
    match r {
        Role::User => 0,
        Role::Admin => 1,
    }
}

/// Returns the dominance level of a role.
pub fn role_rank(r: Role) -> (n: u8)
    ensures
        n as int == role_level(r),
{
    match r {
        Role::User => 0,
        Role::Admin => 1,
    }
}

/// One stored user row: a stable identifier, a display name, a role.
#[derive(Debug, Clone, PartialEq, Eq)]
pub struct Model {
    pub id: u128,
    pub name: String,
    pub role: Role,
}

/// The aggregate type; rows and aggregates coincide for users.
pub type User = Model;

/// The mathematical value of a row: the identifier, the UTF-8 bytes of
/// the name, and the role.
pub ghost struct ModelView {
    pub id: u128,
    pub name: Seq<u8>,
    pub role: Role,
}

impl View for Model {
    type V = ModelView;

    open spec fn view(&self) -> ModelView {
        ModelView { id: self.id, name: bytes_of(self.name@), role: self.role }
    }
}

/// The values of a sequence of rows.
pub open spec fn views_of(s: Seq<Model>) -> Seq<ModelView> {
    s.map_values(|m: Model| m@)
}

impl Model {
    /// Returns the stable identifier of this row.
    pub fn id(&self) -> (r: u128)
        ensures
            r == self@.id,
    {
        self.id
    }

    /// The name of this entity type, carried inside errors.
    pub fn typ() -> (r: &'static str)
        ensures
            r@ == "User"@,
    {
        "User"
    }

    /// An exact copy of this row.
    pub fn duplicate(&self) -> (r: Model)
        ensures
            r == *self,
    {
        Model { id: self.id, name: self.name.clone(), role: self.role }
    }
}

/// The filter specification of a user query: set-membership on
/// identifiers, a (text, exact-match-flag) filter on the name, an
/// equality filter on the role. An empty query matches every row.
#[derive(Debug, PartialEq, Eq)]
pub struct Query {
    pub id: Vec<u128>,
    pub name: (String, bool),
    pub role: Option<Role>,
}

/// The mathematical value of a query.
pub ghost struct QueryView {
    pub ids: Seq<u128>,
    pub name: Seq<u8>,
    pub name_exact: bool,
    pub role: Option<Role>,
}

impl View for Query {
    type V = QueryView;

    open spec fn view(&self) -> QueryView {
        QueryView {
            ids: self.id@,
            name: bytes_of(self.name.0@),
            name_exact: self.name.1,
            role: self.role,
        }
    }
}

impl Default for Query {
    /// The empty query, which matches every row.
    fn default() -> (q: Query)
        ensures
            q@.ids.len() == 0,
            q@.name.len() == 0,
            q@.role is None,
    {
        Query { id: Vec::new(), name: (String::new(), false), role: None }
    }
}

/// Whether a row satisfies a query: each present filter must accept it.
/// A non-exact name filter matches on the normalized (trimmed and
/// lowercased) form of both sides.
pub open spec fn query_matches(q: QueryView, m: ModelView) -> bool {
    &&& (q.ids.len() == 0 || q.ids.contains(m.id))
    &&& (q.name.len() == 0 || (if q.name_exact {
        m.name == q.name
    } else {
        normalized(m.name) == normalized(q.name)
    }))
    &&& (match q.role {
        Option::Some(r) => m.role == r,
        Option::None => true,
    })
}

/// Decides membership of an identifier in a list.
pub fn ids_contain(ids: &Vec<u128>, x: u128) -> (r: bool)
    ensures
        r == ids@.contains(x),
{
    let mut i: usize = 0;
    while i < ids.len()
        invariant
            i <= ids@.len(),
            forall|j: int| 0 <= j < i ==> ids@[j] != x,
        decreases ids@.len() - i,
    {
        if ids[i] == x {
            return true;
        }
        i = i + 1;
    }
    false
}

/// Decides whether a row satisfies a query.
pub fn query_matches_exec(q: &Query, m: &Model) -> (r: bool)
    ensures
        r == query_matches(q@, m@),
{
    broadcast use vstd::slice::group_slice_axioms;

    if q.id.len() > 0 && !ids_contain(&q.id, m.id) {
        return false;
    }
    let text = q.name.0.as_str();
    if text.as_bytes().len() > 0 {
        if q.name.1 {
            if !crate::text::bytes_eq(m.name.as_str().as_bytes(), text.as_bytes()) {
                return false;
            }
        } else {
            let mn = crate::text::normalize(m.name.as_str());
            let qn = crate::text::normalize(text);
            if !crate::text::bytes_eq(mn.as_str().as_bytes(), qn.as_str().as_bytes()) {
                return false;
            }
        }
    }
    match q.role {
        Option::Some(r) => r == m.role,
        Option::None => true,
    }
}

/// The create command: a requested name and role for a fresh user.
#[derive(Debug, Clone, PartialEq, Eq)]
pub struct CommandCreate {
    pub name: String,
    pub role: Role,
}

/// The update command: a target identifier and the optional field changes.
#[derive(Debug, Clone, PartialEq, Eq)]
pub struct CommandUpdate {
    pub id: u128,
    pub name: Option<String>,
    pub role: Option<Role>,
}

impl CommandUpdate {
    /// Whether this update carries no field change at all.
    pub fn is_empty(&self) -> (r: bool)
        ensures
            r <==> (self.name is None && self.role is None),
    {
        self.name.is_none() && self.role.is_none()
    }
}

/// The delete command: the set of identifiers to remove as one unit.
#[derive(Debug, Clone, PartialEq, Eq)]
pub struct CommandDelete {
    pub id: Vec<u128>,
}

/// A command against the user aggregate, consumed exactly once.
#[derive(Debug, Clone, PartialEq, Eq)]
pub enum Command {
    Create(CommandCreate),
    Update(CommandUpdate),
    Delete(CommandDelete),
}

/// Whether some row's normalized name collides with the candidate name.
pub open spec fn name_taken(rows: Seq<ModelView>, n: Seq<u8>) -> bool {
    exists|i: int| 0 <= i < rows.len() && normalized((#[trigger] rows[i]).name) == normalized(n)
}

/// Whether the trimmed name's byte length lies within the allowed bounds.
pub open spec fn name_len_ok(n: Seq<u8>) -> bool {
    4 <= trim_of(n).len() <= 128
}

/// Whether the operator may grant a role: a present operator grants at or
/// below their own level, an absent operator only the lowest one.
pub open spec fn grantable(op: Option<ModelView>, role: Role) -> bool {
    match op {
        Option::Some(o) => role_level(o.role) >= role_level(role),
        Option::None => role == Role::User,
    }
}

/// A uniqueness error on the name field carrying the normalized value.
pub open spec fn is_already_exists_name(e: Error, v: Seq<u8>) -> bool {
    &&& e matches Error::AlreadyExists { typ, field, value }
    &&& typ@ == "User"@
    &&& field@ == "name"@
    &&& bytes_of(value@) == v
}

/// A length-bounds error on the name field.
pub open spec fn is_name_out_of_range(e: Error) -> bool {
    &&& e matches Error::NotInRange { field, begin, end }
    &&& field@ == "name.length"@
    &&& begin == 4usize
    &&& end == 128usize
}

/// A write-permission error over a requested role.
pub open spec fn is_no_write_role(e: Error, op: Option<ModelView>, role: Role) -> bool {
    &&& e matches Error::NoWritePermission { operator_id, typ, field_values }
    &&& operator_id == op_id(op)
    &&& typ@ == "User"@
    &&& field_values@.len() == 1
    &&& field_values@[0].0@ == "role"@
    &&& field_values@[0].1 == FieldValue::Role(role)
}

/// A lookup failure for one user identifier.
pub open spec fn is_user_not_found(e: Error, key: u128) -> bool {
    &&& e matches Error::NotFound { typ, id }
    &&& typ@ == "User"@
    &&& id == key
}

/// What name validation promises: a collision is reported first, then a
/// violated length bound; otherwise the trimmed name comes back.
pub open spec fn validate_name_post(rows: Seq<ModelView>, n: Seq<u8>, r: Result<
    String,
    Error,
>) -> bool {
    if name_taken(rows, n) {
        r matches Err(e) && is_already_exists_name(e, normalized(n))
    } else if !name_len_ok(n) {
        r matches Err(e) && is_name_out_of_range(e)
    } else {
        r matches Ok(t) && bytes_of(t@) == trim_of(n)
    }
}

/// What role validation promises: the role itself where the operator may
/// grant it, a permission error naming the role otherwise.
pub open spec fn validate_role_post(op: Option<ModelView>, role: Role, r: Result<
    Role,
    Error,
>) -> bool {
    if grantable(op, role) {
        r matches Ok(x) && x == role
    } else {
        r matches Err(e) && is_no_write_role(e, op, role)
    }
}

/// What the create command promises: each validation failure in order,
/// with the table untouched; otherwise a fresh row with the trimmed name
/// and the requested role is upserted.
pub open spec fn create_post(
    pre: Seq<ModelView>,
    op: Option<ModelView>,
    cmd: CommandCreate,
    r: Result<Model, Error>,
    post: Seq<ModelView>,
) -> bool {
    let n = bytes_of(cmd.name@);
    if name_taken(pre, n) {
        &&& post == pre
        &&& r matches Err(e)
        &&& is_already_exists_name(e, normalized(n))
    } else if !name_len_ok(n) {
        &&& post == pre
        &&& r matches Err(e)
        &&& is_name_out_of_range(e)
    } else if !grantable(op, cmd.role) {
        &&& post == pre
        &&& r matches Err(e)
        &&& is_no_write_role(e, op, cmd.role)
    } else {
        &&& r matches Ok(m)
        &&& m@.name == trim_of(n)
        &&& m@.role == cmd.role
        &&& post == upsert_row(pre, m@)
    }
}

/// A successful update: the returned row carries the target identifier,
/// the new name and role, and replaces its predecessor in the table.
pub open spec fn update_ok(
    pre: Seq<ModelView>,
    id: u128,
    newname: Seq<u8>,
    newrole: Role,
    r: Result<Model, Error>,
    post: Seq<ModelView>,
) -> bool {
    &&& r matches Ok(m)
    &&& m@.id == id
    &&& m@.name == newname
    &&& m@.role == newrole
    &&& post == upsert_row(pre, m@)
}

/// The role half of an update after the name half has passed.
pub open spec fn update_role_post(
    pre: Seq<ModelView>,
    op: Option<ModelView>,
    cmd: CommandUpdate,
    r: Result<Model, Error>,
    post: Seq<ModelView>,
    newname: Seq<u8>,
) -> bool {
    match cmd.role {
        Option::Some(ro) => if !grantable(op, ro) {
            &&& post == pre
            &&& r matches Err(e)
            &&& is_no_write_role(e, op, ro)
        } else {
            update_ok(pre, cmd.id, newname, ro, r, post)
        },
        Option::None => update_ok(pre, cmd.id, newname, row_of(pre, cmd.id).role, r, post),
    }
}

/// What the update command promises: a missing target is reported; an
/// empty changeset returns the row unchanged with no permission check;
/// otherwise the write-gate and the field validations run in order.
pub open spec fn update_post(
    pre: Seq<ModelView>,
    op: Option<ModelView>,
    cmd: CommandUpdate,
    r: Result<Model, Error>,
    post: Seq<ModelView>,
) -> bool {
    if !has_id(pre, cmd.id) {
        &&& post == pre
        &&& r matches Err(e)
        &&& is_user_not_found(e, cmd.id)
    } else {
        let cur = row_of(pre, cmd.id);
        if cmd.name is None && cmd.role is None {
            &&& post == pre
            &&& r matches Ok(m)
            &&& m@ == cur
        } else if perm_of(op, cur) != Permission::ReadWrite {
            &&& post == pre
            &&& r matches Err(e)
            &&& is_no_write_ids(e, op_id(op), seq![cmd.id])
        } else {
            match cmd.name {
                Option::Some(nm) => if name_taken(pre, bytes_of(nm@)) {
                    &&& post == pre
                    &&& r matches Err(e)
                    &&& is_already_exists_name(e, normalized(bytes_of(nm@)))
                } else if !name_len_ok(bytes_of(nm@)) {
                    &&& post == pre
                    &&& r matches Err(e)
                    &&& is_name_out_of_range(e)
                } else {
                    update_role_post(pre, op, cmd, r, post, trim_of(bytes_of(nm@)))
                },
                Option::None => update_role_post(pre, op, cmd, r, post, cur.name),
            }
        }
    }
}

/// What the delete command promises: an empty id set is a no-op success;
/// otherwise the resolved rows pass the write-gate as one unit, and
/// either nothing is removed and every offending identifier is named, or
/// all of them are removed together.
pub open spec fn delete_post(
    pre: Seq<ModelView>,
    op: Option<ModelView>,
    ids: Seq<u128>,
    r: Result<(), Error>,
    post: Seq<ModelView>,
) -> bool {
    if ids.len() == 0 {
        &&& post == pre
        &&& r is Ok
    } else {
        let resolved = rows_with_ids(pre, ids);
        let off = offending_ids(op, resolved);
        if off.len() > 0 {
            &&& post == pre
            &&& r matches Err(e)
            &&& is_no_write_ids(e, op_id(op), off)
        } else {
            &&& post == without_ids(pre, ids)
            &&& r is Ok
        }
    }
}

/// What command handling promises: the command's own contract, with the
/// created or updated row as a one-element batch and a delete as an
/// empty one.
pub open spec fn handle_post(
    pre: Seq<ModelView>,
    op: Option<ModelView>,
    command: Command,
    r: Result<Vec<Model>, Error>,
    post: Seq<ModelView>,
) -> bool {
    match command {
        Command::Create(c) => match r {
            Result::Ok(v) => v@.len() == 1 && create_post(pre, op, c, Result::Ok(v@[0]), post),
            Result::Err(e) => create_post(pre, op, c, Result::Err(e), post),
        },
        Command::Update(c) => match r {
            Result::Ok(v) => v@.len() == 1 && update_post(pre, op, c, Result::Ok(v@[0]), post),
            Result::Err(e) => update_post(pre, op, c, Result::Err(e), post),
        },
        Command::Delete(c) => match r {
            Result::Ok(v) => v@.len() == 0 && delete_post(pre, op, c.id@, Result::Ok(()), post),
            Result::Err(e) => delete_post(pre, op, c.id@, Result::Err(e), post),
        },
    }
}

/// The comparison a named field induces on two rows, or nothing for an
/// unrecognized field name.
pub open spec fn compare_by_field_spec(a: ModelView, b: ModelView, f: Seq<char>) -> Option<Cmp> {
    match resolve_field(f) {
        Option::Some(fl) => Option::Some(cmp_field(a, b, fl)),
        Option::None => Option::None,
    }
}

impl Model {
    /// A fresh row under a newly drawn identifier.
    pub fn new(name: String, role: Role) -> (m: Model)
        ensures
            m.name == name,
            m.role == role,
    {
        Model { id: crate::ident::fresh_id(), name, role }
    }

    /// Total-order comparison by a named field, rejecting unrecognized
    /// field names rather than treating them as equal.
    pub fn compare_by_field(&self, other: &Model, field: &String) -> (r: Option<Cmp>)
        ensures
            r == compare_by_field_spec(self@, other@, field@),
    {
        match resolve_field_exec(field) {
            Option::Some(f) => Option::Some(compare_field(self, other, f)),
            Option::None => Option::None,
        }
    }

    /// Reconstructs typed entities from stored rows; rows and entities
    /// coincide for users, so every row comes back unchanged.
    pub fn from_models(models: Vec<Model>) -> (r: Result<Vec<Model>, Error>)
        ensures
            r matches Ok(v) && v == models,
    {
        Result::Ok(models)
    }

    /// Validates a candidate name against the table: uniqueness of the
    /// normalized form first, then the length bounds of the trimmed name.
    pub fn validate_name(store: &Store, name: &String) -> (r: Result<String, Error>)
        ensures
            validate_name_post(store@, bytes_of(name@), r),
    {
        broadcast use vstd::slice::group_slice_axioms;

        let ghost n = bytes_of(name@);
        let trimmed = trim_str(name.as_str());
        let normal = lower_str(trimmed);
        let mut i: usize = 0;
        while i < store.rows.len()
            invariant
                i <= store@.len(),
                n == bytes_of(name@),
                bytes_of(normal@) == normalized(n),
                forall|j: int| 0 <= j < i ==> normalized((#[trigger] store@[j]).name)
                    != normalized(n),
            decreases store@.len() - i,
        {
            let rn = normalize(store.rows[i].name.as_str());
            if bytes_eq(rn.as_str().as_bytes(), normal.as_str().as_bytes()) {
                assert(normalized(store@[i as int].name) == normalized(n));
                return Result::Err(Error::AlreadyExists {
                    typ: "User".to_owned(),
                    field: "name".to_owned(),
                    value: normal,
                });
            }
            i = i + 1;
        }
        let tb = trimmed.as_bytes();
        let tl = tb.len();
        if tl < 4 || tl > 128 {
            return Result::Err(Error::NotInRange {
                field: "name.length".to_owned(),
                begin: 4,
                end: 128,
            });
        }
        Result::Ok(trimmed.to_owned())
    }

    /// Validates that the operator may grant the requested role.
    pub fn validate_role(operator: Option<&Model>, role: Role) -> (r: Result<Role, Error>)
        ensures
            validate_role_post(op_view(operator), role, r),
    {
        let ok = match operator {
            Option::Some(o) => role_rank(o.role) >= role_rank(role),
            Option::None => matches!(role, Role::User),
        };
        if ok {
            Result::Ok(role)
        } else {
            let mut fv: Vec<(String, FieldValue)> = Vec::new();
            fv.push(("role".to_owned(), FieldValue::Role(role)));
            Result::Err(Error::NoWritePermission {
                operator_id: match operator {
                    Option::Some(o) => Option::Some(o.id),
                    Option::None => Option::None,
                },
                typ: "User".to_owned(),
                field_values: fv,
            })
        }
    }

    /// Creates a user: validates the name and the requested role, then
    /// persists a fresh row.
    pub fn create(store: &mut Store, operator: Option<&Model>, command: CommandCreate) -> (r:
        Result<Model, Error>)
        requires
            old(store).wf(),
        ensures
            final(store).wf(),
            create_post(old(store)@, op_view(operator), command, r, final(store)@),
    {
        let name = match Self::validate_name(store, &command.name) {
            Result::Ok(t) => t,
            Result::Err(e) => {
                return Result::Err(e);
            },
        };
        let role = match Self::validate_role(operator, command.role) {
            Result::Ok(x) => x,
            Result::Err(e) => {
                return Result::Err(e);
            },
        };
        let user = Model::new(name, role);
        let copy = user.duplicate();
        let ghost uv = user@;
        let mut batch: Vec<Model> = Vec::new();
        batch.push(user);
        assert(views_of(batch@) =~= seq![uv]);
        let _ = Repository::save(store, batch);
        proof {
            lemma_upsert_singleton(old(store)@, uv);
        }
        Result::Ok(copy)
    }

    /// Updates a user: resolves the target, short-circuits an empty
    /// changeset without any permission check, and otherwise gates the
    /// write and revalidates each changed field.
    pub fn update(store: &mut Store, operator: Option<&Model>, command: CommandUpdate) -> (r:
        Result<Model, Error>)
        requires
            old(store).wf(),
        ensures
            final(store).wf(),
            update_post(old(store)@, op_view(operator), command, r, final(store)@),
    {
        let ghost pre = old(store)@;
        let mut model = match Repository::find_by_id(store, command.id) {
            Option::Some(m) => m,
            Option::None => {
                return Result::Err(Error::NotFound { typ: "User".to_owned(), id: command.id });
            },
        };
        if command.is_empty() {
            return Result::Ok(model);
        }
        let mut gate: Vec<Model> = Vec::new();
        gate.push(model.duplicate());
        assert(views_of(gate@) =~= seq![model@]);
        proof {
            crate::store::lemma_index_of_id(pre, command.id);
        }
        match crate::access::check_writeable(operator, &gate) {
            Result::Ok(_) => {
                proof {
                    let op = op_view(operator);
                    let s1 = seq![model@];
                    assert(all_writable(op, s1));
                    assert(perm_of(op, s1[0]) == Permission::ReadWrite);
                    assert(s1[0] == model@);
                }
            },
            Result::Err(e) => {
                proof {
                    let op = op_view(operator);
                    let s1 = seq![model@];
                    assert(!all_writable(op, s1));
                    let w = choose|i: int|
                        0 <= i < s1.len() && perm_of(op, #[trigger] s1[i])
                            != Permission::ReadWrite;
                    assert(s1[w] == model@);
                    assert(perm_of(op, model@) == Permission::ReadOnly);
                    assert(s1.drop_last() =~= Seq::<ModelView>::empty());
                    assert(offending_ids(op, Seq::<ModelView>::empty())
                        == Seq::<u128>::empty());
                    assert(offending_ids(op, s1) =~= seq![model@.id]);
                }
                return Result::Err(e);
            },
        }
        match &command.name {
            Option::Some(nm) => {
                match Self::validate_name(store, nm) {
                    Result::Ok(t) => {
                        model.name = t;
                    },
                    Result::Err(e) => {
                        return Result::Err(e);
                    },
                }
            },
            Option::None => {},
        }
        match command.role {
            Option::Some(ro) => {
                match Self::validate_role(operator, ro) {
                    Result::Ok(x) => {
                        model.role = x;
                    },
                    Result::Err(e) => {
                        return Result::Err(e);
                    },
                }
            },
            Option::None => {},
        }
        let copy = model.duplicate();
        let ghost uv = model@;
        let mut batch: Vec<Model> = Vec::new();
        batch.push(model);
        assert(views_of(batch@) =~= seq![uv]);
        let _ = Repository::save(store, batch);
        proof {
            lemma_upsert_singleton(pre, uv);
        }
        Result::Ok(copy)
    }

    /// Deletes a batch of users as one unit: unresolved identifiers are
    /// silently ignored, and a single non-writable row fails the whole
    /// batch with every offending identifier named and nothing removed.
    pub fn delete(store: &mut Store, operator: Option<&Model>, command: CommandDelete) -> (r:
        Result<(), Error>)
        requires
            old(store).wf(),
        ensures
            final(store).wf(),
            delete_post(old(store)@, op_view(operator), command.id@, r, final(store)@),
    {
        let ghost pre = old(store)@;
        if command.id.len() == 0 {
            return Result::Ok(());
        }
        let models = Repository::find_by_ids(store, &command.id);
        let ghost mvs = views_of(models@);
        match crate::access::check_writeable(operator, &models) {
            Result::Ok(_) => {
                proof {
                    lemma_offending_all(op_view(operator), mvs);
                }
            },
            Result::Err(e) => {
                proof {
                    lemma_offending_all(op_view(operator), mvs);
                }
                return Result::Err(e);
            },
        }
        Repository::delete(store, models);
        proof {
            lemma_delete_by_resolved_ids(pre, command.id@);
        }
        Result::Ok(())
    }

    /// Handles one command, dispatching to create, update or delete.
    pub fn handle(store: &mut Store, operator: Option<&Model>, command: Command) -> (r: Result<
        Vec<Model>,
        Error,
    >)
        requires
            old(store).wf(),
        ensures
            final(store).wf(),
            handle_post(old(store)@, op_view(operator), command, r, final(store)@),
    {
        match command {
            Command::Create(c) => match Self::create(store, operator, c) {
                Result::Ok(m) => {
                    let mut v: Vec<Model> = Vec::new();
                    v.push(m);
                    Result::Ok(v)
                },
                Result::Err(e) => Result::Err(e),
            },
            Command::Update(c) => match Self::update(store, operator, c) {
                Result::Ok(m) => {
                    let mut v: Vec<Model> = Vec::new();
                    v.push(m);
                    Result::Ok(v)
                },
                Result::Err(e) => Result::Err(e),
            },
            Command::Delete(c) => match Self::delete(store, operator, c) {
                Result::Ok(_) => Result::Ok(Vec::new()),
                Result::Err(e) => Result::Err(e),
            },
        }
    }
}

/// Upserting a one-element batch is one upsert.
pub proof fn lemma_upsert_singleton(pre: Seq<ModelView>, m: ModelView)
    ensures
        upsert_all(pre, seq![m]) == upsert_row(pre, m),
{
    let ms = seq![m];
    assert(ms[0] == m);
    assert(ms.drop_first() =~= Seq::<ModelView>::empty());
    assert(upsert_all(upsert_row(pre, m), Seq::<ModelView>::empty()) == upsert_row(pre, m));
}

/// Removing the rows that resolve from an id set removes exactly the
/// rows whose identifier is in the set.
pub proof fn lemma_delete_by_resolved_ids(pre: Seq<ModelView>, ids: Seq<u128>)
    ensures
        without_ids(pre, model_ids(rows_with_ids(pre, ids))) == without_ids(pre, ids),
{
    let resolved = rows_with_ids(pre, ids);
    let rids = model_ids(resolved);
    lemma_model_ids(resolved);
    lemma_rows_with_ids(pre, ids);
    assert forall|j: int| 0 <= j < pre.len() implies (rids.contains((#[trigger] pre[j]).id)
        <==> ids.contains(pre[j].id)) by {
        if rids.contains(pre[j].id) {
            let k = choose|k: int| 0 <= k < rids.len() && rids[k] == pre[j].id;
            assert(rids[k] == resolved[k].id);
            assert(ids.contains(resolved[k].id));
        }
        if ids.contains(pre[j].id) {
            assert(resolved.contains(pre[j]));
            let k = choose|k: int| 0 <= k < resolved.len() && resolved[k] == pre[j];
            assert(rids[k] == pre[j].id);
            assert(rids.contains(pre[j].id));
        }
    }
    lemma_without_ids_congruence(pre, rids, ids);
}

} // verus!
