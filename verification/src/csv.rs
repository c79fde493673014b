//! The file-backed store: a flat text file, one record per line,
//! serialized as `<id>,<fullname>`.
//!
//! The store works on an in-memory image of the file (`None` when the
//! file does not exist); the surrounding I/O shell loads the lines
//! before an operation and persists them afterwards.  `create`
//! appends one line; `read_all` scans and parses every line, skipping
//! lines that do not parse (the lenient policy); `update` and `delete`
//! rewrite the whole image, deciding per line by the parsed
//! identifier, never by raw substring search.  Lines that do not parse
//! are carried through a rewrite unchanged.

use vstd::prelude::*;
use crate::account::{line_of, parse_csv_line, parse_line, Account, AccountData};
use crate::cfg::Cfg;
use crate::crud::{delete_records, has_id, update_records, Crud, CrudError};

verus! {

/// The records denoted by a sequence of file lines: each line that
/// parses contributes its record, in file order; the rest are skipped.
pub open spec fn parse_records(lines: Seq<Seq<char>>) -> Seq<AccountData> {
    lines.filter_map(|l: Seq<char>| parse_line(l))
}

/// Whether a line parses to a record carrying the identifier `id`.
pub open spec fn line_matches(l: Seq<char>, id: u128) -> bool {
    parse_line(l) matches Some(r) && r.id == id
}

/// Parsing distributes over appending one line.
pub proof fn lemma_parse_records_push(lines: Seq<Seq<char>>, l: Seq<char>)
    ensures
        parse_records(lines.push(l)) == parse_records(lines) + (match parse_line(l) {
            Some(r) => seq![r],
            None => Seq::<AccountData>::empty(),
        }),
{
    assert(lines.push(l).drop_last() =~= lines);
    assert(lines.push(l).last() == l);
    if parse_line(l) is None {
        assert(parse_records(lines) + Seq::<AccountData>::empty() =~= parse_records(lines));
    }
}

/// A rewrite that replaces each matching line by the new record's line
/// refines a record-level update.
proof fn lemma_rewrite_update_refines(
    old_l: Seq<Seq<char>>,
    new_l: Seq<Seq<char>>,
    item: AccountData,
)
    requires
        new_l.len() == old_l.len(),
        forall|i: int|
            0 <= i < old_l.len() ==> new_l[i] == (if line_matches(old_l[i], item.id) {
                line_of(item)
            } else {
                old_l[i]
            }),
    ensures
        parse_records(new_l) == update_records(parse_records(old_l), item),
    decreases old_l.len(),
{
    let f = |r: AccountData|
        if r.id == item.id {
            item
        } else {
            r
        };
    if old_l.len() == 0 {
        assert(parse_records(new_l) =~= update_records(parse_records(old_l), item));
    } else {
        let op = old_l.drop_last();
        let np = new_l.drop_last();
        assert forall|i: int| 0 <= i < op.len() implies np[i] == (if line_matches(
            op[i],
            item.id,
        ) {
            line_of(item)
        } else {
            op[i]
        }) by {
            assert(op[i] == old_l[i]);
            assert(np[i] == new_l[i]);
        }
        lemma_rewrite_update_refines(op, np, item);
        let lo = old_l.last();
        let ln = new_l.last();
        assert(ln == (if line_matches(lo, item.id) {
            line_of(item)
        } else {
            lo
        }));
        if line_matches(lo, item.id) {
            crate::account::lemma_line_round_trip(item);
            let r0 = parse_line(lo)->Some_0;
            assert(parse_records(old_l) == parse_records(op) + seq![r0]);
            assert(parse_records(new_l) == parse_records(np) + seq![item]);
            assert(update_records(parse_records(old_l), item) =~= update_records(
                parse_records(op),
                item,
            ) + seq![f(r0)]);
        } else {
            match parse_line(lo) {
                Some(r0) => {
                    assert(parse_records(old_l) == parse_records(op) + seq![r0]);
                    assert(parse_records(new_l) == parse_records(np) + seq![r0]);
                    assert(update_records(parse_records(old_l), item) =~= update_records(
                        parse_records(op),
                        item,
                    ) + seq![f(r0)]);
                    assert(f(r0) == r0);
                },
                None => {
                    assert(parse_records(old_l) == parse_records(op));
                    assert(parse_records(new_l) == parse_records(np));
                },
            }
        }
    }
}

/// A rewrite that drops each matching line refines a record-level
/// delete.
proof fn lemma_rewrite_delete_refines(lines: Seq<Seq<char>>, id: u128)
    ensures
        parse_records(lines.filter(|l: Seq<char>| !line_matches(l, id))) == delete_records(
            parse_records(lines),
            id,
        ),
    decreases lines.len(),
{
    reveal_with_fuel(Seq::filter, 3);
    let keep_line = |l: Seq<char>| !line_matches(l, id);
    let keep_rec = |r: AccountData| r.id != id;
    if lines.len() == 0 {
        assert(parse_records(lines.filter(keep_line)) =~= delete_records(
            parse_records(lines),
            id,
        ));
    } else {
        let prefix = lines.drop_last();
        let l = lines.last();
        lemma_rewrite_delete_refines(prefix, id);
        assert(lines.filter(keep_line) == if keep_line(l) {
            prefix.filter(keep_line).push(l)
        } else {
            prefix.filter(keep_line)
        });
        match parse_line(l) {
            Some(r0) => {
                assert(parse_records(lines) == parse_records(prefix) + seq![r0]);
                Seq::filter_distributes_over_add(
                    parse_records(prefix),
                    seq![r0],
                    keep_rec,
                );
                assert(seq![r0].drop_last() =~= Seq::<AccountData>::empty());
                assert(seq![r0].last() == r0);
                if r0.id == id {
                    assert(seq![r0].filter(keep_rec) =~= Seq::<AccountData>::empty());
                    assert(delete_records(parse_records(lines), id) =~= delete_records(
                        parse_records(prefix),
                        id,
                    ));
                } else {
                    assert(seq![r0].filter(keep_rec) =~= seq![r0]);
                    lemma_parse_records_push(prefix.filter(keep_line), l);
                    assert(parse_records(lines.filter(keep_line)) =~= parse_records(
                        prefix.filter(keep_line),
                    ) + seq![r0]);
                }
            },
            None => {
                assert(parse_records(lines) == parse_records(prefix));
                lemma_parse_records_push(prefix.filter(keep_line), l);
                assert(parse_records(lines.filter(keep_line)) =~= parse_records(
                    prefix.filter(keep_line),
                ));
            },
        }
    }
}

/// A line that parses to a record contributes that record to the
/// parsed sequence.
proof fn lemma_parse_records_contains(lines: Seq<Seq<char>>, i: int)
    requires
        0 <= i < lines.len(),
        parse_line(lines[i]) is Some,
    ensures
        parse_records(lines).contains(parse_line(lines[i])->Some_0),
    decreases lines.len(),
{
    let r = parse_line(lines[i])->Some_0;
    if i == lines.len() - 1 {
        assert(parse_records(lines) == parse_records(lines.drop_last()) + seq![r]);
        assert(parse_records(lines).last() == r);
    } else {
        let prefix = lines.drop_last();
        assert(prefix[i] == lines[i]);
        lemma_parse_records_contains(prefix, i);
        let j = choose|j: int|
            0 <= j < parse_records(prefix).len() && parse_records(prefix)[j] == r;
        match parse_line(lines.last()) {
            Some(rl) => {
                assert(parse_records(lines) == parse_records(prefix) + seq![rl]);
                assert(parse_records(lines)[j] == r);
            },
            None => {
                assert(parse_records(lines) == parse_records(prefix));
            },
        }
    }
}

/// When an identifier is absent from the parsed records, no line of
/// the file matches it: a rewrite is then a no-op on every line.
pub proof fn lemma_unknown_id_matches_no_line(lines: Seq<Seq<char>>, id: u128)
    requires
        !has_id(parse_records(lines), id),
    ensures
        forall|i: int| 0 <= i < lines.len() ==> !line_matches(lines[i], id),
{
    assert forall|i: int| 0 <= i < lines.len() implies !line_matches(lines[i], id) by {
        if line_matches(lines[i], id) {
            lemma_parse_records_contains(lines, i);
            let r = parse_line(lines[i])->Some_0;
            let j = choose|j: int|
                0 <= j < parse_records(lines).len() && parse_records(lines)[j] == r;
            assert(parse_records(lines)[j].id == id);
        }
    }
}

/// Create-then-read at the file level: the single line written on an
/// empty file parses back to exactly the one record.
pub proof fn lemma_csv_create_then_read(a: AccountData)
    ensures
        parse_records(Seq::<Seq<char>>::empty().push(line_of(a))) =~= seq![a],
{
    crate::account::lemma_line_round_trip(a);
    lemma_parse_records_push(Seq::<Seq<char>>::empty(), line_of(a));
}

/// The file-backed store.  `file` is the in-memory image of the
/// backing file's lines; `None` means the file does not exist.
pub struct CsvAccountStore {
    pub filename: String,
    pub file: Option<Vec<String>>,
}

impl CsvAccountStore {
    /// The lines of the file image; an absent file has none.
    pub open spec fn lines(&self) -> Seq<Seq<char>> {
        match self.file {
            Some(ls) => ls.deep_view(),
            None => Seq::empty(),
        }
    }

    /// A store over a file that does not exist yet.
    pub fn new(filename: &str) -> (s: Self)
        ensures
            s.filename@ == filename@,
            s.file is None,
    {
        CsvAccountStore { filename: filename.to_owned(), file: None }
    }

    /// A store over an existing file with the given lines.
    pub fn with_file(filename: &str, lines: Vec<String>) -> (s: Self)
        ensures
            s.filename@ == filename@,
            s.file == Some(lines),
    {
        CsvAccountStore { filename: filename.to_owned(), file: Some(lines) }
    }

    /// The path of the backing file.
    pub fn path(&self) -> (r: &str)
        ensures
            r@ == self.filename@,
    {
        self.filename.as_str()
    }

    /// Whether the backing file exists.
    pub fn file_exists(&self) -> (b: bool)
        ensures
            b == (self.file is Some),
    {
        self.file.is_some()
    }

    /// The file image, for the I/O shell to persist.
    pub fn file_lines(&self) -> (r: &Option<Vec<String>>)
        ensures
            *r == self.file,
    {
        &self.file
    }
}

/// Builds the file-backed store a configuration asks for, over the
/// configured storage path or the default file name.
pub fn create_store(cfg: &Cfg) -> (s: CsvAccountStore)
    ensures
        s.file is None,
        s.filename@ == (match cfg.storage_path {
            Some(p) => p@,
            None => "accounts.csv"@,
        }),
{
    match &cfg.storage_path {
        Some(p) => CsvAccountStore::new(p.as_str()),
        None => CsvAccountStore::new("accounts.csv"),
    }
}

/// The rewrite for update: every line whose parsed identifier matches
/// is replaced by the new record's line; every other line — the
/// unparseable ones too — is copied unchanged.
pub fn rewrite_update(lines: &Vec<String>, item: &Account) -> (r: Vec<String>)
    ensures
        r@.len() == lines@.len(),
        forall|i: int|
            0 <= i < lines@.len() ==> r.deep_view()[i] == (if line_matches(
                lines.deep_view()[i],
                item@.id,
            ) {
                line_of(item@)
            } else {
                lines.deep_view()[i]
            }),
{
    let mut out: Vec<String> = Vec::new();
    let mut i: usize = 0;
    while i < lines.len()
        invariant
            i <= lines@.len(),
            out@.len() == i,
            forall|j: int|
                0 <= j < i ==> out.deep_view()[j] == (if line_matches(
                    lines.deep_view()[j],
                    item@.id,
                ) {
                    line_of(item@)
                } else {
                    lines.deep_view()[j]
                }),
        decreases lines@.len() - i,
    {
        let ghost pre = out.deep_view();
        let l: &String = &lines[i];
        proof {
            assert(lines.deep_view()[i as int] == l@);
        }
        let replace = match &parse_csv_line(l.as_str()) {
            Some(a) => a.id.bits() == item.id.bits(),
            None => false,
        };
        proof {
            assert(replace == line_matches(l@, item@.id));
        }
        if replace {
            out.push(item.to_csv());
            proof {
                assert(out.deep_view() =~= pre.push(line_of(item@)));
            }
        } else {
            out.push(l.clone());
            proof {
                assert(out.deep_view() =~= pre.push(l@));
            }
        }
        i = i + 1;
    }
    out
}

/// The rewrite for delete: every line whose parsed identifier matches
/// is dropped; every other line is copied unchanged.
pub fn rewrite_delete(lines: &Vec<String>, item: &Account) -> (r: Vec<String>)
    ensures
        r.deep_view() == lines.deep_view().filter(
            |l: Seq<char>| !line_matches(l, item@.id),
        ),
{
    proof {
        reveal(Seq::filter);
    }
    let mut out: Vec<String> = Vec::new();
    let mut i: usize = 0;
    while i < lines.len()
        invariant
            i <= lines@.len(),
            out.deep_view() == lines.deep_view().take(i as int).filter(
                |l: Seq<char>| !line_matches(l, item@.id),
            ),
        decreases lines@.len() - i,
    {
        let ghost pre = out.deep_view();
        let l: &String = &lines[i];
        proof {
            assert(lines.deep_view()[i as int] == l@);
        }
        let matched = match &parse_csv_line(l.as_str()) {
            Some(a) => a.id.bits() == item.id.bits(),
            None => false,
        };
        proof {
            assert(matched == line_matches(l@, item@.id));
        }
        if !matched {
            out.push(l.clone());
        }
        proof {
            reveal(Seq::filter);
            let taken = lines.deep_view().take(i + 1);
            assert(taken.drop_last() =~= lines.deep_view().take(i as int));
            assert(taken.last() == lines.deep_view()[i as int]);
            if !matched {
                assert(out.deep_view() =~= pre.push(l@));
            }
        }
        i = i + 1;
    }
    proof {
        assert(lines.deep_view().take(lines@.len() as int) =~= lines.deep_view());
    }
    out
}

impl Crud<Account> for CsvAccountStore {
    open spec fn storage_exists(&self) -> bool {
        self.file is Some
    }

    open spec fn records(&self) -> Seq<AccountData> {
        parse_records(self.lines())
    }

    /// The file backend accepts every record; it does not check the
    /// identifier for uniqueness, so duplicates are stored silently.
    open spec fn create_accepts(&self, item: AccountData) -> bool {
        true
    }

    open spec fn create_rejection(&self, item: AccountData, e: CrudError) -> bool {
        false
    }

    open spec fn missing_storage_err(&self, e: CrudError) -> bool {
        e is IO
    }

    /// Appends one serialized line, creating the file image when it
    /// does not exist yet; existing content is never clobbered.
    fn create(&mut self, item: &Account) -> (r: Result<(), CrudError>) {
        let line = item.to_csv();
        let ghost old_lines = self.lines();
        let prev = self.file.take();
        let mut ls: Vec<String> = match prev {
            Some(ls) => ls,
            None => Vec::new(),
        };
        proof {
            assert(ls.deep_view() =~= old_lines);
        }
        ls.push(line);
        proof {
            assert(ls.deep_view() =~= old_lines.push(line_of(item@)));
            lemma_parse_records_push(old_lines, line_of(item@));
            crate::account::lemma_line_round_trip(item@);
            assert(parse_records(old_lines.push(line_of(item@))) =~= parse_records(
                old_lines,
            ).push(item@));
        }
        self.file = Some(ls);
        Ok(())
    }

    /// Scans the file image and parses every line; lines that do not
    /// parse are skipped.  An absent file yields the empty sequence
    /// and is not created.
    fn read_all(&self) -> (r: Result<Vec<Account>, CrudError>) {
        let ls: &Vec<String> = match &self.file {
            Some(ls) => ls,
            None => {
                proof {
                    assert(Seq::<Account>::empty().map_values(|t: Account| t@)
                        =~= self.records());
                }
                return Ok(Vec::new());
            },
        };
        let mut out: Vec<Account> = Vec::new();
        let mut i: usize = 0;
        while i < ls.len()
            invariant
                i <= ls@.len(),
                out@.map_values(|t: Account| t@) == parse_records(ls.deep_view().take(i as int)),
                self.file == Some(*ls),
            decreases ls@.len() - i,
        {
            let ghost pre = out@.map_values(|t: Account| t@);
            let l: &String = &ls[i];
            match parse_csv_line(l.as_str()) {
                Some(a) => {
                    proof {
                        ls.deep_view().lemma_filter_map_take_succ(
                            |x: Seq<char>| parse_line(x),
                            i as int,
                        );
                    }
                    let ghost av = a@;
                    out.push(a);
                    proof {
                        assert(out@.map_values(|t: Account| t@) =~= pre.push(av));
                        assert(pre.push(av) =~= pre + seq![av]);
                    }
                },
                None => {
                    proof {
                        ls.deep_view().lemma_filter_map_take_succ(
                            |x: Seq<char>| parse_line(x),
                            i as int,
                        );
                        assert(pre + Seq::<AccountData>::empty() =~= pre);
                    }
                },
            }
            i = i + 1;
        }
        proof {
            assert(ls.deep_view().take(ls@.len() as int) =~= ls.deep_view());
        }
        Ok(out)
    }

    /// Rewrites the file image, replacing the line of every record
    /// whose identifier matches; an absent file is a file-system
    /// error, and a missing identifier a no-op.
    fn update(&mut self, item: &Account) -> (r: Result<(), CrudError>) {
        let prev = self.file.take();
        match prev {
            None => Err(CrudError::IO("backing file does not exist".to_owned())),
            Some(ls) => {
                let new_ls = rewrite_update(&ls, item);
                proof {
                    lemma_rewrite_update_refines(ls.deep_view(), new_ls.deep_view(), item@);
                }
                self.file = Some(new_ls);
                Ok(())
            },
        }
    }

    /// Rewrites the file image, dropping the line of every record
    /// whose identifier matches; an absent file is a file-system
    /// error, and a missing identifier a no-op.
    fn delete(&mut self, item: &Account) -> (r: Result<(), CrudError>) {
        let prev = self.file.take();
        match prev {
            None => Err(CrudError::IO("backing file does not exist".to_owned())),
            Some(ls) => {
                let new_ls = rewrite_delete(&ls, item);
                proof {
                    lemma_rewrite_delete_refines(ls.deep_view(), item@.id);
                }
                self.file = Some(new_ls);
                Ok(())
            },
        }
    }
}

} // verus!
