//! The store contract: create, read-all, update and delete over a
//! record type, with a typed error.
//!
//! Every backend implements the one trait below; a caller can swap one
//! backend for the other without changing any call site, and the
//! contract it relies on stays the same.  The per-backend spec
//! functions (`records`, `create_accepts`, ...) pin the behaviour of
//! each implementation exactly.

use vstd::prelude::*;
use crate::account::AccountData;

verus! {

/// The errors a store operation can report.
#[derive(Debug)]
pub enum CrudError {
    UnknownError,
    NotFound,
    /// A file-system failure, with a description.
    IO(String),
    /// A failure of the relational engine, with a description.
    SqliteError(String),
}

impl Default for CrudError {
    fn default() -> (r: Self)
        ensures
            r is UnknownError,
    {
        CrudError::UnknownError
    }
}

/// Every record whose identifier equals `item.id` replaced by `item`;
/// all other records untouched, order kept.
pub open spec fn update_records(rs: Seq<AccountData>, item: AccountData) -> Seq<AccountData> {
    rs.map_values(
        |r: AccountData|
            if r.id == item.id {
                item
            } else {
                r
            },
    )
}

/// Every record whose identifier equals `id` removed; all other
/// records untouched, order kept.
pub open spec fn delete_records(rs: Seq<AccountData>, id: u128) -> Seq<AccountData> {
    rs.filter(|r: AccountData| r.id != id)
}

/// Whether some record in `rs` carries the identifier `id`.
pub open spec fn has_id(rs: Seq<AccountData>, id: u128) -> bool {
    exists|i: int| 0 <= i < rs.len() && rs[i].id == id
}

/// How many records in `rs` carry the identifier `id`.
pub open spec fn count_id(rs: Seq<AccountData>, id: u128) -> int {
    rs.filter(|r: AccountData| r.id == id).len() as int
}

/// The store contract.  `records` is the sequence of persisted
/// records in storage order; `storage_exists` says whether the backing
/// storage (file or database) is present at all.
pub trait Crud<T: View<V = AccountData>>: Sized {
    /// Whether the backing storage currently exists.
    spec fn storage_exists(&self) -> bool;

    /// The records currently persisted, in storage order.
    spec fn records(&self) -> Seq<AccountData>;

    /// On which records `create` succeeds for this backend.
    spec fn create_accepts(&self, item: AccountData) -> bool;

    /// Which error a refused `create` reports.
    spec fn create_rejection(&self, item: AccountData, e: CrudError) -> bool;

    /// Which error `update`/`delete` report when the storage is absent.
    spec fn missing_storage_err(&self, e: CrudError) -> bool;

    /// Persists a new record.  The store does not check uniqueness of
    /// the identifier beyond what the backend itself enforces.
    fn create(&mut self, item: &T) -> (r: Result<(), CrudError>)
        ensures
            r is Ok <==> old(self).create_accepts(item@),
            r is Ok ==> final(self).storage_exists() && final(self).records() == old(
                self,
            ).records().push(item@),
            r is Err ==> *final(self) == *old(self) && old(self).create_rejection(
                item@,
                r->Err_0,
            ),
    ;

    /// Returns every persisted record.  Absent storage is not an
    /// error: the result is then empty.
    fn read_all(&self) -> (r: Result<Vec<T>, CrudError>)
        ensures
            r matches Ok(v) && v@.map_values(|t: T| t@) == self.records(),
    ;

    /// Replaces the name of every record matching `item`'s identifier.
    /// A missing identifier is a no-op, not an error.
    fn update(&mut self, item: &T) -> (r: Result<(), CrudError>)
        ensures
            r is Ok <==> old(self).storage_exists(),
            r is Ok ==> final(self).storage_exists() && final(self).records() == update_records(
                old(self).records(),
                item@,
            ),
            r is Err ==> *final(self) == *old(self) && old(self).missing_storage_err(r->Err_0),
    ;

    /// Removes every record matching `item`'s identifier.  A missing
    /// identifier is a no-op, not an error.
    fn delete(&mut self, item: &T) -> (r: Result<(), CrudError>)
        ensures
            r is Ok <==> old(self).storage_exists(),
            r is Ok ==> final(self).storage_exists() && final(self).records() == delete_records(
                old(self).records(),
                item@.id,
            ),
            r is Err ==> *final(self) == *old(self) && old(self).missing_storage_err(r->Err_0),
    ;
}

/// Whether no two records in `rs` carry the same identifier — the
/// store invariant the relational backend enforces through its
/// primary key.
pub open spec fn unique_ids(rs: Seq<AccountData>) -> bool {
    forall|i: int, j: int| 0 <= i < j < rs.len() ==> rs[i].id != rs[j].id
}

/// Creating a record whose identifier is fresh keeps identifiers
/// unique.
pub proof fn lemma_unique_ids_create(rs: Seq<AccountData>, item: AccountData)
    requires
        unique_ids(rs),
        !has_id(rs, item.id),
    ensures
        unique_ids(rs.push(item)),
{
}

/// An update keeps identifiers unique: it never changes any record's
/// identifier.
pub proof fn lemma_unique_ids_update(rs: Seq<AccountData>, item: AccountData)
    requires
        unique_ids(rs),
    ensures
        unique_ids(update_records(rs, item)),
{
    assert forall|j: int| 0 <= j < rs.len() implies update_records(rs, item)[j].id == rs[j].id by {
    }
}

/// A delete keeps identifiers unique: the result is a subsequence.
pub proof fn lemma_unique_ids_delete(rs: Seq<AccountData>, id: u128)
    requires
        unique_ids(rs),
    ensures
        unique_ids(delete_records(rs, id)),
    decreases rs.len(),
{
    reveal(Seq::filter);
    let keep = |r: AccountData| r.id != id;
    if rs.len() > 0 {
        let rest = rs.drop_last();
        assert(unique_ids(rest)) by {
            assert forall|i: int, j: int| 0 <= i < j < rest.len() implies rest[i].id
                != rest[j].id by {
                assert(rs[i] == rest[i]);
                assert(rs[j] == rest[j]);
            }
        }
        lemma_unique_ids_delete(rest, id);
        if keep(rs.last()) {
            let out = rest.filter(keep).push(rs.last());
            assert forall|i: int, j: int| 0 <= i < j < out.len() implies out[i].id
                != out[j].id by {
                if j == out.len() - 1 {
                    let r = out[i];
                    assert(rest.filter(keep).contains(r));
                    rest.lemma_filter_contains_rev(keep, r);
                    let k = choose|k: int| 0 <= k < rest.len() && rest[k] == r;
                    assert(rs[k] == r);
                    assert(rs[rs.len() - 1] == rs.last());
                }
            }
        }
    }
}

/// Create-then-read: creating a record on an empty store leaves the
/// store holding exactly that record, so `read_all` returns `[item]`.
pub proof fn lemma_create_then_read(rs: Seq<AccountData>, item: AccountData)
    requires
        rs.len() == 0,
    ensures
        rs.push(item) =~= seq![item],
{
}

/// Update preserves identity and changes the name: after an update,
/// every record that carried the target identifier carries the new
/// name, every other record is untouched, and the number of records
/// with the target identifier is unchanged.
pub proof fn lemma_update_changes_name(rs: Seq<AccountData>, item: AccountData)
    ensures
        update_records(rs, item).len() == rs.len(),
        forall|j: int|
            0 <= j < rs.len() && rs[j].id == item.id ==> update_records(rs, item)[j] == item,
        forall|j: int|
            0 <= j < rs.len() && rs[j].id != item.id ==> update_records(rs, item)[j] == rs[j],
        count_id(update_records(rs, item), item.id) == count_id(rs, item.id),
    decreases rs.len(),
{
    reveal(Seq::filter);
    if rs.len() > 0 {
        let rest = rs.drop_last();
        lemma_update_changes_name(rest, item);
        assert(update_records(rs, item).drop_last() =~= update_records(rest, item));
        let pred = |r: AccountData| r.id == item.id;
        assert(update_records(rs, item).last() == (if pred(rs.last()) {
            item
        } else {
            rs.last()
        }));
    } else {
        assert(update_records(rs, item) =~= Seq::<AccountData>::empty());
    }
}

/// Delete removes exactly the records with the target identifier:
/// nothing else disappears, nothing with that identifier stays, and
/// the lengths add up.
pub proof fn lemma_delete_removes_exactly(rs: Seq<AccountData>, id: u128)
    ensures
        forall|r: AccountData|
            #[trigger] delete_records(rs, id).contains(r) ==> rs.contains(r) && r.id != id,
        forall|r: AccountData|
            rs.contains(r) && r.id != id ==> #[trigger] delete_records(rs, id).contains(r),
        delete_records(rs, id).len() + count_id(rs, id) == rs.len(),
    decreases rs.len(),
{
    reveal(Seq::filter);
    let keep = |r: AccountData| r.id != id;
    let gone = |r: AccountData| r.id == id;
    if rs.len() > 0 {
        let rest = rs.drop_last();
        lemma_delete_removes_exactly(rest, id);
        assert forall|r: AccountData| #[trigger]
            delete_records(rs, id).contains(r) implies rs.contains(r) && r.id != id by {
            if delete_records(rest, id).contains(r) {
                assert(rest.contains(r));
                let j = choose|j: int| 0 <= j < rest.len() && rest[j] == r;
                assert(rs[j] == r);
            } else {
                assert(r == rs.last());
                assert(rs.contains(rs.last()));
            }
        }
        assert forall|r: AccountData|
            rs.contains(r) && r.id != id implies #[trigger] delete_records(rs, id).contains(
            r,
        ) by {
            let j = choose|j: int| 0 <= j < rs.len() && rs[j] == r;
            if j < rs.len() - 1 {
                assert(rest[j] == r);
                assert(rest.contains(r));
                assert(delete_records(rest, id).contains(r));
                let k = choose|k: int|
                    0 <= k < delete_records(rest, id).len() && delete_records(rest, id)[k] == r;
                assert(delete_records(rs, id)[k] == r);
            } else {
                assert(r == rs.last());
                assert(delete_records(rs, id).last() == r);
            }
        }
    } else {
        assert(rs.filter(keep) =~= Seq::<AccountData>::empty());
        assert(rs.filter(gone) =~= Seq::<AccountData>::empty());
    }
}

/// Update with an identifier absent from the store changes nothing.
pub proof fn lemma_update_unknown_id_noop(rs: Seq<AccountData>, item: AccountData)
    requires
        !has_id(rs, item.id),
    ensures
        update_records(rs, item) =~= rs,
{
}

/// Delete with an identifier absent from the store changes nothing.
pub proof fn lemma_delete_unknown_id_noop(rs: Seq<AccountData>, id: u128)
    requires
        !has_id(rs, id),
    ensures
        delete_records(rs, id) =~= rs,
    decreases rs.len(),
{
    reveal(Seq::filter);
    if rs.len() > 0 {
        let rest = rs.drop_last();
        assert(!has_id(rest, id)) by {
            assert forall|i: int| 0 <= i < rest.len() implies rest[i].id != id by {
                assert(rs[i] == rest[i]);
            }
        }
        lemma_delete_unknown_id_noop(rest, id);
        assert(rs.last().id != id) by {
            assert(rs[rs.len() - 1] == rs.last());
        }
    }
}

} // verus!
