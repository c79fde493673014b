//! The domain record: an identifier plus a display name, and its
//! line-oriented text serialization `<id>,<fullname>`.

use vstd::prelude::*;
use vstd::string::*;
use crate::id::{id_str, parse_id_str, AccountId};

verus! {

/// The mathematical content of a record: identifier bits and name
/// characters.
pub struct AccountData {
    pub id: u128,
    pub name: Seq<char>,
}

/// A stored record: a unique identifier and a free-text display name.
/// The name may contain commas; it carries no uniqueness constraint.
pub struct Account {
    pub id: AccountId,
    pub fullname: String,
}

impl View for Account {
    type V = AccountData;

    open spec fn view(&self) -> AccountData {
        AccountData { id: self.id@, name: self.fullname@ }
    }
}

impl DeepView for Account {
    type V = AccountData;

    open spec fn deep_view(&self) -> AccountData {
        self@
    }
}

impl Clone for Account {
    fn clone(&self) -> (r: Self)
        ensures
            r@ == self@,
    {
        Account { id: self.id, fullname: self.fullname.clone() }
    }
}

/// The serialized line for a record: its identifier's text form, one
/// comma, then the name verbatim (no escaping).
pub open spec fn line_of(a: AccountData) -> Seq<char> {
    id_str(a.id) + seq![','] + a.name
}

/// Parsing one line: the first 36 characters must form an identifier,
/// the 37th must be a comma; the rest is the name (which may itself
/// contain commas).
pub open spec fn parse_line(l: Seq<char>) -> Option<AccountData> {
    if l.len() >= 37 && l[36] == ',' && parse_id_str(l.subrange(0, 36)) is Some {
        Some(
            AccountData {
                id: parse_id_str(l.subrange(0, 36))->Some_0,
                name: l.subrange(37, l.len() as int),
            },
        )
    } else {
        None
    }
}

/// Relies on uuid::Uuid::new_v4 for a fresh random identifier; the
/// value depends on the process's random source, so nothing is
/// promised of it.
#[verifier::external_body]
fn fresh_id_bits() -> u128 {
    uuid::Uuid::new_v4().as_u128()
}

impl Account {
    /// Builds a record with the given display name and a freshly
    /// generated random identifier.
    pub fn new(fullname: &str) -> (r: Self)
        ensures
            r@.name == fullname@,
    {
        Account { id: AccountId::from_bits(fresh_id_bits()), fullname: fullname.to_owned() }
    }

    /// Builds a record from an already-known identifier and name.
    pub fn with_id(id: AccountId, fullname: &str) -> (r: Self)
        ensures
            r@.id == id@,
            r@.name == fullname@,
    {
        Account { id, fullname: fullname.to_owned() }
    }

    /// Serializes this record as one line, `<id>,<fullname>`.
    pub fn to_csv(&self) -> (r: String)
        ensures
            r@ == line_of(self@),
    {
        let mut s = self.id.to_text();
        s.append(",");
        s.append(self.fullname.as_str());
        proof {
            reveal_strlit(",");
            assert(s@ =~= line_of(self@));
        }
        s
    }

    /// The record's display text, as the original listing shows it.
    pub fn display_text(&self) -> (r: String)
        ensures
            r@ == "Full name: "@ + self@.name,
    {
        let mut s: String = "Full name: ".to_owned();
        s.append(self.fullname.as_str());
        s
    }
}

/// Parses one line of the backing file into a record.  Yields nothing
/// when the line is not of the form `<id>,<fullname>`.
pub fn parse_csv_line(l: &str) -> (r: Option<Account>)
    ensures
        match r {
            Some(a) => parse_line(l@) == Some(a@),
            None => parse_line(l@) is None,
        },
{
    let n = l.unicode_len();
    if n < 37 {
        return None;
    }
    if l.get_char(36) != ',' {
        return None;
    }
    let id_part = l.substring_char(0, 36);
    match AccountId::parse(id_part) {
        None => {
            proof {
                assert(l@.subrange(0, 36) == id_part@);
            }
            None
        },
        Some(id) => {
            let name = l.substring_char(37, n);
            proof {
                assert(l@.subrange(0, 36) == id_part@);
                assert(l@.subrange(37, l@.len() as int) == name@);
            }
            Some(Account { id, fullname: name.to_owned() })
        },
    }
}

/// Round trip: serializing a record to a line and parsing that line
/// back yields a record with the identical identifier and name.
pub proof fn lemma_line_round_trip(a: AccountData)
    ensures
        parse_line(line_of(a)) == Some(a),
{
    let l = line_of(a);
    crate::id::lemma_id_round_trip(a.id);
    assert(l.subrange(0, 36) =~= id_str(a.id));
    assert(l[36] == ',');
    assert(l.subrange(37, l.len() as int) =~= a.name);
}

} // verus!
