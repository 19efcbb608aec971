//! Database rows, the entities made of them, and languages.
use vstd::prelude::*;

use crate::insert::Table;

verus! {

/// A language an entity can be translated into.
#[derive(Clone, Copy, Debug, PartialEq, Eq, Structural)]
pub enum Language {
    EN,
    DE,
}

/// A language as the database stores it.
#[derive(Clone, Copy, Debug, PartialEq, Eq, Structural)]
pub enum DbLanguage {
    EN,
    DE,
}

/// The database language of a language.
pub open spec fn db_language_of(l: Language) -> DbLanguage {
    match l {
        Language::EN => DbLanguage::EN,
        Language::DE => DbLanguage::DE,
    }
}

/// The language of a database language.
pub open spec fn language_of(l: DbLanguage) -> Language {
    match l {
        DbLanguage::EN => Language::EN,
        DbLanguage::DE => Language::DE,
    }
}

impl From<Language> for DbLanguage {
    fn from(l: Language) -> (r: DbLanguage) {
        match l {
            Language::EN => DbLanguage::EN,
            Language::DE => DbLanguage::DE,
        }
    }
}

impl vstd::std_specs::convert::FromSpecImpl<Language> for DbLanguage {
    open spec fn obeys_from_spec() -> bool {
        true
    }

    open spec fn from_spec(l: Language) -> DbLanguage {
        db_language_of(l)
    }
}

impl From<DbLanguage> for Language {
    fn from(l: DbLanguage) -> (r: Language) {
        match l {
            DbLanguage::EN => Language::EN,
            DbLanguage::DE => Language::DE,
        }
    }
}

impl vstd::std_specs::convert::FromSpecImpl<DbLanguage> for Language {
    open spec fn obeys_from_spec() -> bool {
        true
    }

    open spec fn from_spec(l: DbLanguage) -> Language {
        language_of(l)
    }
}

/// A role a person can have in a book.
#[derive(Debug)]
pub struct Role {
    pub id: u32,
    pub name: String,
    pub language: Language,
}

/// A row of the `role` table.
#[derive(Debug)]
pub struct DbRole {
    pub id: i32,
}

/// A row of the role translation table.
#[derive(Debug)]
pub struct DbRoleTranslation {
    pub fktranslation: i32,
    pub language: DbLanguage,
    pub name: String,
}

impl Table for DbRole {
    const TABLE_NAME: &'static str = "role";
}

/// The table that links books to their characters.
pub struct DbBookCharacter;

impl Table for DbBookCharacter {
    const TABLE_NAME: &'static str = "bookcharacter";
}

/// The id a database id stands for: its bits read as unsigned (`i32 as u32`).
pub open spec fn id_of(id: i32) -> u32 {
    if id >= 0 {
        id as u32
    } else {
        (id + 0x1_0000_0000) as u32
    }
}

/// Reads an `i32` database id as an unsigned id (`as u32`).
pub fn to_u32(id: i32) -> (r: u32)
    ensures
        r == id_of(id),
{
    if id >= 0 {
        id as u32
    } else {
        let shifted: i64 = id as i64 + 0x1_0000_0000i64;
        shifted as u32
    }
}

/// Reads an unsigned id as an `i32` database id (`as i32`): ids above `i32::MAX` wrap.
pub open spec fn db_id_of(id: u32) -> i32 {
    if id <= 0x7fff_ffff {
        id as i32
    } else {
        (id - 0x1_0000_0000) as i32
    }
}

/// Reads an unsigned id as an `i32` database id (`as i32`).
pub fn to_i32_id(id: u32) -> (r: i32)
    ensures
        r == db_id_of(id),
{
    if id <= 0x7fff_ffff {
        id as i32
    } else {
        let shifted: i64 = id as i64 - 0x1_0000_0000i64;
        shifted as i32
    }
}

/// Each id read as an `i32` database id.
pub fn to_i32(ids: &[u32]) -> (r: Vec<i32>)
    ensures
        r@.len() == ids@.len(),
        forall|i: int| 0 <= i < ids@.len() ==> #[trigger] r@[i] == db_id_of(ids@[i]),
{
    let mut r: Vec<i32> = Vec::new();
    let mut i: usize = 0;
    while i < ids.len()
        invariant
            i <= ids@.len(),
            r@.len() == i,
            forall|k: int| 0 <= k < i ==> #[trigger] r@[k] == db_id_of(ids@[k]),
        decreases ids@.len() - i,
    {
        r.push(to_i32_id(ids[i]));
        i = i + 1;
    }
    r
}

/// The first value if there is one, else the second.
pub open spec fn spec_fallback<T>(value: Option<T>, fallback: Option<T>) -> T {
    match value {
        Some(v) => v,
        None => fallback->0,
    }
}

/// The value, or else the fallback; one of them must be there.
pub fn fallback_unwrap<T>(value: Option<T>, fallback: Option<T>) -> (r: T)
    requires
        value is Some || fallback is Some,
    ensures
        r == spec_fallback(value, fallback),
{
    match value {
        Some(v) => v,
        None => fallback.unwrap(),
    }
}

/// The value, or else the fallback, by reference; one of them must be there.
pub fn fallback_unwrap_ref<'a, T>(value: Option<&'a T>, fallback: Option<&'a T>) -> (r: &'a T)
    requires
        value is Some || fallback is Some,
    ensures
        *r == spec_fallback(value, fallback),
{
    match value {
        Some(v) => v,
        None => fallback.unwrap(),
    }
}

/// Converting a language to its database form and back gives it back, both ways round.
pub proof fn law_language_round_trip(l: Language, d: DbLanguage)
    ensures
        language_of(db_language_of(l)) == l,
        db_language_of(language_of(d)) == d,
{
}

/// An id written to the database as an `i32` and read back as a `u32` is the same id, and
/// a database id read as a `u32` and written back is the same database id.
pub proof fn law_id_round_trip(id: u32, db: i32)
    ensures
        id_of(db_id_of(id)) == id,
        db_id_of(id_of(db)) == db,
{
}

/// The id conversions are the two's-complement casts: a database id that is not negative is
/// the same number as an id, a negative one is read 2^32 higher; an id up to `i32::MAX` is
/// the same number as a database id, a larger one is stored 2^32 lower.
pub proof fn law_id_casts(db: i32, id: u32)
    ensures
        db >= 0 ==> id_of(db) as int == db as int,
        db < 0 ==> id_of(db) as int == db as int + 0x1_0000_0000,
        id <= i32::MAX ==> db_id_of(id) as int == id as int,
        id > i32::MAX ==> db_id_of(id) as int == id as int - 0x1_0000_0000,
{
}

impl DbRole {
    /// The role this row stands for, named in the given translation.
    pub fn to_entity(self, role_translation: DbRoleTranslation) -> (r: Role)
        ensures
            r.id == id_of(self.id),
            r.name == role_translation.name,
            r.language == language_of(role_translation.language),
    {
        Role {
            id: to_u32(self.id),
            name: role_translation.name,
            language: Language::from(role_translation.language),
        }
    }
}

} // verus!
