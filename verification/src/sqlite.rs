//! The relational-backed store: one table keyed by the identifier,
//! columns `id` and `fullname`.
//!
//! The store works on an in-memory image of the table (`None` when
//! the database file does not exist); the surrounding I/O shell mirrors
//! the same operations onto the embedded engine.  `create` makes the
//! table on first use and refuses a duplicate identifier, as the
//! primary key does; `read_all` on an absent database leniently
//! yields the empty sequence; `update` and `delete` of an absent
//! identifier touch zero rows and succeed.

use vstd::prelude::*;
use crate::account::{Account, AccountData};
use crate::cfg::Cfg;
use crate::crud::{delete_records, has_id, update_records, Crud, CrudError};

verus! {

/// Whether some row of `rows` carries the identifier `id`.
fn contains_id(rows: &Vec<Account>, id: u128) -> (b: bool)
    ensures
        b == has_id(rows.deep_view(), id),
{
    let mut i: usize = 0;
    while i < rows.len()
        invariant
            i <= rows@.len(),
            forall|j: int| 0 <= j < i ==> rows.deep_view()[j].id != id,
        decreases rows@.len() - i,
    {
        if rows[i].id.bits() == id {
            proof {
                assert(rows.deep_view()[i as int].id == id);
            }
            return true;
        }
        i = i + 1;
    }
    false
}

/// A copy of `rows` with every row matching `item`'s identifier
/// replaced by `item`; the engine's `UPDATE ... WHERE id = ?`.
fn replace_rows(rows: &Vec<Account>, item: &Account) -> (r: Vec<Account>)
    ensures
        r.deep_view() == update_records(rows.deep_view(), item@),
{
    let mut out: Vec<Account> = Vec::new();
    let mut i: usize = 0;
    while i < rows.len()
        invariant
            i <= rows@.len(),
            out@.len() == i,
            forall|j: int|
                0 <= j < i ==> out.deep_view()[j] == (if rows.deep_view()[j].id == item@.id {
                    item@
                } else {
                    rows.deep_view()[j]
                }),
        decreases rows@.len() - i,
    {
        let ghost pre = out.deep_view();
        let row: &Account = &rows[i];
        if row.id.bits() == item.id.bits() {
            out.push(item.clone());
            proof {
                assert(out.deep_view() =~= pre.push(item@));
            }
        } else {
            out.push(row.clone());
            proof {
                assert(out.deep_view() =~= pre.push(row@));
            }
        }
        i = i + 1;
    }
    proof {
        assert(out.deep_view() =~= update_records(rows.deep_view(), item@));
    }
    out
}

/// A copy of `rows` without the rows matching `id`; the engine's
/// `DELETE FROM ... WHERE id = ?`.
fn remove_rows(rows: &Vec<Account>, id: u128) -> (r: Vec<Account>)
    ensures
        r.deep_view() == delete_records(rows.deep_view(), id),
{
    proof {
        reveal(Seq::filter);
    }
    let mut out: Vec<Account> = Vec::new();
    let mut i: usize = 0;
    while i < rows.len()
        invariant
            i <= rows@.len(),
            out.deep_view() == rows.deep_view().take(i as int).filter(
                |r: AccountData| r.id != id,
            ),
        decreases rows@.len() - i,
    {
        let ghost pre = out.deep_view();
        let row: &Account = &rows[i];
        if row.id.bits() != id {
            out.push(row.clone());
        }
        proof {
            reveal(Seq::filter);
            let taken = rows.deep_view().take(i + 1);
            assert(taken.drop_last() =~= rows.deep_view().take(i as int));
            assert(taken.last() == rows.deep_view()[i as int]);
            if row@.id != id {
                assert(out.deep_view() =~= pre.push(row@));
            }
        }
        i = i + 1;
    }
    proof {
        assert(rows.deep_view().take(rows@.len() as int) =~= rows.deep_view());
    }
    out
}

/// The relational-backed store.  `db` is the in-memory image of the
/// single table's rows, in insertion order; `None` means the database
/// file does not exist.
pub struct SqliteAccountStore {
    pub filename: String,
    pub db: Option<Vec<Account>>,
}

impl SqliteAccountStore {
    /// A store over a database file that does not exist yet.
    pub fn new(filename: &str) -> (s: Self)
        ensures
            s.filename@ == filename@,
            s.db is None,
    {
        SqliteAccountStore { filename: filename.to_owned(), db: None }
    }

    /// A store over an existing database holding the given rows.
    pub fn with_rows(filename: &str, rows: Vec<Account>) -> (s: Self)
        ensures
            s.filename@ == filename@,
            s.db == Some(rows),
    {
        SqliteAccountStore { filename: filename.to_owned(), db: Some(rows) }
    }

    /// The path of the backing database file.
    pub fn path(&self) -> (r: &str)
        ensures
            r@ == self.filename@,
    {
        self.filename.as_str()
    }

    /// Whether the backing database exists.
    pub fn db_exists(&self) -> (b: bool)
        ensures
            b == (self.db is Some),
    {
        self.db.is_some()
    }

    /// The table image, for the I/O shell to mirror.
    pub fn db_rows(&self) -> (r: &Option<Vec<Account>>)
        ensures
            *r == self.db,
    {
        &self.db
    }
}

/// Builds the relational-backed store a configuration asks for, over
/// the configured storage path or the default file name.
pub fn create_store(cfg: &Cfg) -> (s: SqliteAccountStore)
    ensures
        s.db is None,
        s.filename@ == (match cfg.storage_path {
            Some(p) => p@,
            None => "accounts.sqlite"@,
        }),
{
    match &cfg.storage_path {
        Some(p) => SqliteAccountStore::new(p.as_str()),
        None => SqliteAccountStore::new("accounts.sqlite"),
    }
}

impl Crud<Account> for SqliteAccountStore {
    open spec fn storage_exists(&self) -> bool {
        self.db is Some
    }

    open spec fn records(&self) -> Seq<AccountData> {
        match self.db {
            Some(rows) => rows.deep_view(),
            None => Seq::empty(),
        }
    }

    /// The primary key refuses a duplicate identifier; everything
    /// else is accepted, the table being made on first use.
    open spec fn create_accepts(&self, item: AccountData) -> bool {
        !has_id(self.records(), item.id)
    }

    open spec fn create_rejection(&self, item: AccountData, e: CrudError) -> bool {
        e is SqliteError
    }

    open spec fn missing_storage_err(&self, e: CrudError) -> bool {
        e is SqliteError
    }

    /// Makes the table if absent, then inserts the row; a duplicate
    /// identifier fails on the primary key.
    fn create(&mut self, item: &Account) -> (r: Result<(), CrudError>) {
        let dup = match &self.db {
            Some(rows) => contains_id(rows, item.id.bits()),
            None => false,
        };
        if dup {
            return Err(
                CrudError::SqliteError("UNIQUE constraint failed: accounts.id".to_owned()),
            );
        }
        let ghost old_records = self.records();
        let prev = self.db.take();
        let mut rows: Vec<Account> = match prev {
            Some(rows) => rows,
            None => Vec::new(),
        };
        proof {
            assert(rows.deep_view() =~= old_records);
        }
        rows.push(item.clone());
        proof {
            assert(rows.deep_view() =~= old_records.push(item@));
        }
        self.db = Some(rows);
        Ok(())
    }

    /// Selects every row.  An absent database — or, in the shell, a
    /// connection that cannot be opened — leniently yields the empty
    /// sequence rather than an error.
    fn read_all(&self) -> (r: Result<Vec<Account>, CrudError>) {
        let rows: &Vec<Account> = match &self.db {
            Some(rows) => rows,
            None => {
                proof {
                    assert(Seq::<Account>::empty().map_values(|t: Account| t@)
                        =~= self.records());
                }
                return Ok(Vec::new());
            },
        };
        let mut out: Vec<Account> = Vec::new();
        let mut i: usize = 0;
        while i < rows.len()
            invariant
                i <= rows@.len(),
                out@.map_values(|t: Account| t@) == rows.deep_view().take(i as int),
                self.db == Some(*rows),
            decreases rows@.len() - i,
        {
            let ghost pre = out@.map_values(|t: Account| t@);
            let row: &Account = &rows[i];
            out.push(row.clone());
            proof {
                assert(out@.map_values(|t: Account| t@) =~= pre.push(row@));
                assert(rows.deep_view().take(i + 1) =~= pre.push(rows.deep_view()[i as int]));
            }
            i = i + 1;
        }
        proof {
            assert(rows.deep_view().take(rows@.len() as int) =~= rows.deep_view());
        }
        Ok(out)
    }

    /// Updates the name of the row matching the identifier; zero
    /// matched rows succeed.  An absent database has no table, which
    /// the engine reports as its own error.
    fn update(&mut self, item: &Account) -> (r: Result<(), CrudError>) {
        let prev = self.db.take();
        match prev {
            None => Err(CrudError::SqliteError("no such table: accounts".to_owned())),
            Some(rows) => {
                let new_rows = replace_rows(&rows, item);
                self.db = Some(new_rows);
                Ok(())
            },
        }
    }

    /// Deletes the row matching the identifier; zero matched rows
    /// succeed.  An absent database has no table, which the engine
    /// reports as its own error.
    fn delete(&mut self, item: &Account) -> (r: Result<(), CrudError>) {
        let prev = self.db.take();
        match prev {
            None => Err(CrudError::SqliteError("no such table: accounts".to_owned())),
            Some(rows) => {
                let new_rows = remove_rows(&rows, item.id.bits());
                self.db = Some(new_rows);
                Ok(())
            },
        }
    }
}

} // verus!
