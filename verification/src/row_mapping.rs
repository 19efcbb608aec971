//! How a struct maps to a table row: the plan behind `#[derive(FromRow)]` and `query_row!`.
use vstd::prelude::*;
use vstd::string::*;

use crate::text::{joined, lemma_joined_step, push_char};

verus! {

/// The type of a struct field, as far as the mapping looks at it.
pub enum TypeShape {
    /// A path type, by the names of its segments (`Option<i32>` is `["Option"]`).
    Path(Vec<String>),
    /// Any other type (a reference, a tuple, ...).
    Other,
}

/// An attribute on a struct or a field, as far as `rename` looks at it.
pub enum AttributeShape {
    /// `#[name = "value"]`.
    Str(String),
    /// A name-value attribute whose value is a literal but no string.
    NotString,
    /// A name-value attribute whose value is no literal.
    NotLiteral,
    /// An attribute that is not of the `name = value` form.
    NotNameValue,
}

/// A rename attribute that cannot be read.
#[derive(Debug)]
pub enum RenameError {
    NotNameValue,
    NotLiteral,
    NotString,
}

/// A field of the struct being mapped.
pub struct FieldShape {
    pub name: String,
    pub attributes: Vec<AttributeShape>,
    pub ty: TypeShape,
}

/// The struct being mapped.
pub enum DataShape {
    /// A struct with named fields.
    Named(Vec<FieldShape>),
    /// A struct with unnamed fields, or a unit struct.
    Unnamed,
    /// An enum or a union.
    NotStruct,
}

/// What keeps a type from being mapped.
#[derive(Debug)]
pub enum MappingError {
    NotStruct,
    NotNamed,
    Rename(RenameError),
}

/// How a field is read from a row: its name, its column index, and whether reading it may fail.
pub struct FieldRead {
    pub field: String,
    pub index: usize,
    pub fallible: bool,
}

/// A field with the column it is stored in.
pub struct DbColumnIdent {
    pub field: String,
    pub rename: Option<String>,
    pub is_optional: bool,
}

/// Everything the derived impls say about a type.
pub struct RowMapping {
    pub table_name: String,
    pub columns: Vec<String>,
    /// Reads of a row that holds a value for every field.
    pub reads: Vec<FieldRead>,
    /// Reads of a row that may lack the record: required fields are read fallibly.
    pub optional_reads: Vec<FieldRead>,
    pub column_count: usize,
}

/// A field of this type may be absent: its type's first path segment is `Option`.
pub open spec fn spec_is_optional(ty: TypeShape) -> bool {
    match ty {
        TypeShape::Path(segments) => segments@[0]@ == "Option"@,
        TypeShape::Other => false,
    }
}

/// What the first attribute says of a rename.
pub open spec fn spec_rename(attributes: Seq<AttributeShape>) -> Result<Option<Seq<char>>, RenameError> {
    if attributes.len() == 0 {
        Ok(None)
    } else {
        match attributes[0] {
            AttributeShape::Str(v) => Ok(Some(v@)),
            AttributeShape::NotString => Err(RenameError::NotString),
            AttributeShape::NotLiteral => Err(RenameError::NotLiteral),
            AttributeShape::NotNameValue => Err(RenameError::NotNameValue),
        }
    }
}

/// The column a field is stored in: its rename, else its name.
pub open spec fn column_of(c: DbColumnIdent) -> Seq<char> {
    match c.rename {
        Some(r) => r@,
        None => c.field@,
    }
}

fn str_eq(a: &String, b: &str) -> (r: bool)
    ensures
        r == (a@ == b@),
{
    let b = String::from_str(b);
    *a == b
}

/// Whether a field of this type may be absent.
pub fn is_optional(ty: &TypeShape) -> (b: bool)
    requires
        ty matches TypeShape::Path(segments) ==> segments@.len() > 0,
    ensures
        b == spec_is_optional(*ty),
{
    match ty {
        TypeShape::Path(segments) => str_eq(&segments[0], "Option"),
        TypeShape::Other => false,
    }
}

fn clone_string(s: &String) -> (r: String)
    ensures
        r@ == s@,
{
    s.clone()
}

/// The rename that the first attribute gives, if any.
pub fn renamed_field(attributes: &Vec<AttributeShape>) -> (r: Result<Option<String>, RenameError>)
    ensures
        match spec_rename(attributes@) {
            Ok(None) => r matches Ok(None),
            Ok(Some(v)) => r matches Ok(Some(s)) && s@ == v,
            Err(RenameError::NotString) => r matches Err(RenameError::NotString),
            Err(RenameError::NotLiteral) => r matches Err(RenameError::NotLiteral),
            Err(RenameError::NotNameValue) => r matches Err(RenameError::NotNameValue),
        },
{
    if attributes.len() == 0 {
        return Ok(None);
    }
    match &attributes[0] {
        AttributeShape::Str(v) => Ok(Some(clone_string(v))),
        AttributeShape::NotString => Err(RenameError::NotString),
        AttributeShape::NotLiteral => Err(RenameError::NotLiteral),
        AttributeShape::NotNameValue => Err(RenameError::NotNameValue),
    }
}

impl RenameError {
    /// The text the derive stops with.
    pub fn message(&self) -> (s: &'static str)
        ensures
            self is NotNameValue ==> s@ == "Invalid symbol. Rename only allows \"=\""@,
            self is NotLiteral ==> s@
                == "Invalid Expression. Rename only allows strings using \"=\""@,
            self is NotString ==> s@ == "Invalid value. Rename only allows strings"@,
    {
        match self {
            RenameError::NotNameValue => "Invalid symbol. Rename only allows \"=\"",
            RenameError::NotLiteral => "Invalid Expression. Rename only allows strings using \"=\"",
            RenameError::NotString => "Invalid value. Rename only allows strings",
        }
    }
}

impl MappingError {
    /// The text the derive stops with.
    pub fn message(&self) -> (s: &'static str)
        ensures
            self is NotStruct ==> s@ == "FromRow is only supported for structs!"@,
            self is NotNamed ==> s@ == "FromRow only supports named fields."@,
            self matches MappingError::Rename(e) ==> s@ == (match e {
                RenameError::NotNameValue => "Invalid symbol. Rename only allows \"=\""@,
                RenameError::NotLiteral => "Invalid Expression. Rename only allows strings using \"=\""@,
                RenameError::NotString => "Invalid value. Rename only allows strings"@,
            }),
    {
        match self {
            MappingError::NotStruct => "FromRow is only supported for structs!",
            MappingError::NotNamed => "FromRow only supports named fields.",
            MappingError::Rename(e) => e.message(),
        }
    }
}

/// The first field whose rename cannot be read, if any.
pub open spec fn first_rename_error(fields: Seq<FieldShape>) -> Option<RenameError>
    decreases fields.len(),
{
    if fields.len() == 0 {
        None
    } else {
        match spec_rename(fields[0].attributes@) {
            Err(e) => Some(e),
            Ok(_) => first_rename_error(fields.drop_first()),
        }
    }
}

/// The column that a field with readable attributes is stored in.
pub open spec fn field_column(f: FieldShape) -> Seq<char> {
    match spec_rename(f.attributes@) {
        Ok(Some(v)) => v,
        _ => f.name@,
    }
}

/// `c` describes field `f`.
pub open spec fn describes(c: DbColumnIdent, f: FieldShape) -> bool {
    &&& c.field@ == f.name@
    &&& column_of(c) == field_column(f)
    &&& c.is_optional == spec_is_optional(f.ty)
}

/// Every path type names at least one segment.
pub open spec fn well_formed_fields(fields: Seq<FieldShape>) -> bool {
    forall|i: int|
        0 <= i < fields.len() ==> ((#[trigger] fields[i]).ty matches TypeShape::Path(segments)
            ==> segments@.len() > 0)
}

/// `reads` reads each column in order; `fallible` marks the reads that may fail.
pub open spec fn reads_in_order(
    reads: Seq<FieldRead>,
    mapping: Seq<DbColumnIdent>,
    optional_row: bool,
) -> bool {
    &&& reads.len() == mapping.len()
    &&& forall|i: int|
        0 <= i < reads.len() ==> {
            &&& (#[trigger] reads[i]).field@ == mapping[i].field@
            &&& reads[i].index == i
            &&& reads[i].fallible == (optional_row && !mapping[i].is_optional)
        }
}

proof fn lemma_rename_error_skip(fields: Seq<FieldShape>, i: int)
    requires
        0 <= i < fields.len(),
        spec_rename(fields[i].attributes@) is Ok,
    ensures
        first_rename_error(fields.skip(i)) == first_rename_error(fields.skip(i + 1)),
{
    assert(fields.skip(i).drop_first() =~= fields.skip(i + 1));
}

/// Each field with its column and whether it may be absent; stops at the first rename
/// that cannot be read.
pub fn db_column_idents(fields: &Vec<FieldShape>) -> (r: Result<Vec<DbColumnIdent>, RenameError>)
    requires
        well_formed_fields(fields@),
    ensures
        match first_rename_error(fields@) {
            Some(e) => r == Err::<Vec<DbColumnIdent>, RenameError>(e),
            None => r matches Ok(m) && m@.len() == fields@.len() && forall|i: int|
                0 <= i < fields@.len() ==> describes(#[trigger] m@[i], fields@[i]),
        },
{
    let mut m: Vec<DbColumnIdent> = Vec::new();
    let mut i: usize = 0;
    assert(fields@.skip(0) =~= fields@);
    while i < fields.len()
        invariant
            well_formed_fields(fields@),
            i <= fields@.len(),
            first_rename_error(fields@) == first_rename_error(fields@.skip(i as int)),
            m@.len() == i,
            forall|k: int| 0 <= k < i ==> describes(#[trigger] m@[k], fields@[k]),
        decreases fields@.len() - i,
    {
        let f = &fields[i];
        assert(fields@.skip(i as int)[0] == fields@[i as int]);
        let rename = match renamed_field(&f.attributes) {
            Ok(rename) => rename,
            Err(e) => {
                return Err(e);
            },
        };
        proof {
            lemma_rename_error_skip(fields@, i as int);
        }
        assert(fields@[i as int].ty == f.ty);
        let optional = is_optional(&f.ty);
        m.push(DbColumnIdent { field: clone_string(&f.name), rename, is_optional: optional });
        i = i + 1;
    }
    assert(fields@.skip(i as int) =~= Seq::<FieldShape>::empty());
    Ok(m)
}

/// The column names, in field order.
pub fn column_names(mapping: &Vec<DbColumnIdent>) -> (columns: Vec<String>)
    ensures
        columns@.len() == mapping@.len(),
        forall|i: int| 0 <= i < mapping@.len() ==> (#[trigger] columns@[i])@ == column_of(mapping@[i]),
{
    let mut columns: Vec<String> = Vec::new();
    let mut i: usize = 0;
    while i < mapping.len()
        invariant
            i <= mapping@.len(),
            columns@.len() == i,
            forall|k: int| 0 <= k < i ==> (#[trigger] columns@[k])@ == column_of(mapping@[k]),
        decreases mapping@.len() - i,
    {
        let c = &mapping[i];
        let name = match &c.rename {
            None => clone_string(&c.field),
            Some(value) => clone_string(value),
        };
        columns.push(name);
        i = i + 1;
    }
    columns
}

/// How each field is read: in field order, one column each; in a row that may lack the
/// record, required fields are read fallibly.
pub fn field_reads(mapping: &Vec<DbColumnIdent>) -> (r: (Vec<FieldRead>, Vec<FieldRead>))
    ensures
        reads_in_order(r.0@, mapping@, false),
        reads_in_order(r.1@, mapping@, true),
{
    let mut reads: Vec<FieldRead> = Vec::new();
    let mut optionals: Vec<FieldRead> = Vec::new();
    let mut i: usize = 0;
    while i < mapping.len()
        invariant
            i <= mapping@.len(),
            reads@.len() == i,
            optionals@.len() == i,
            forall|k: int|
                0 <= k < i ==> {
                    &&& (#[trigger] reads@[k]).field@ == mapping@[k].field@
                    &&& reads@[k].index == k
                    &&& !reads@[k].fallible
                },
            forall|k: int|
                0 <= k < i ==> {
                    &&& (#[trigger] optionals@[k]).field@ == mapping@[k].field@
                    &&& optionals@[k].index == k
                    &&& optionals@[k].fallible == !mapping@[k].is_optional
                },
        decreases mapping@.len() - i,
    {
        let c = &mapping[i];
        reads.push(FieldRead { field: clone_string(&c.field), index: i, fallible: false });
        optionals.push(
            FieldRead { field: clone_string(&c.field), index: i, fallible: !c.is_optional },
        );
        i = i + 1;
    }
    (reads, optionals)
}

/// `m` is the mapping of a struct named `ident`, renamed to `rename`, with fields `fields`.
pub open spec fn is_mapping_of(
    m: RowMapping,
    ident: Seq<char>,
    rename: Option<Seq<char>>,
    fields: Seq<FieldShape>,
) -> bool {
    &&& m.table_name@ == (match rename {
        Some(r) => r,
        None => ident,
    })
    &&& m.columns@.len() == fields.len()
    &&& forall|i: int| 0 <= i < fields.len() ==> (#[trigger] m.columns@[i])@ == field_column(fields[i])
    &&& m.reads@.len() == fields.len()
    &&& m.optional_reads@.len() == fields.len()
    &&& forall|i: int|
        0 <= i < fields.len() ==> {
            &&& (#[trigger] m.reads@[i]).field@ == fields[i].name@
            &&& m.reads@[i].index == i
            &&& !m.reads@[i].fallible
            &&& m.optional_reads@[i].field@ == fields[i].name@
            &&& m.optional_reads@[i].index == i
            &&& m.optional_reads@[i].fallible == !spec_is_optional(fields[i].ty)
        }
    &&& m.column_count == fields.len()
}

/// The row mapping of a struct named `ident` with attributes `attributes`: its table, its
/// columns and how each field is read.
pub fn from_row_mapping(ident: &String, attributes: &Vec<AttributeShape>, data: &DataShape) -> (r:
    Result<RowMapping, MappingError>)
    requires
        data matches DataShape::Named(fields) ==> well_formed_fields(fields@),
    ensures
        data is NotStruct ==> r matches Err(MappingError::NotStruct),
        data is Unnamed ==> r matches Err(MappingError::NotNamed),
        data matches DataShape::Named(fields) ==> match first_rename_error(fields@) {
            Some(e) => r == Err::<RowMapping, MappingError>(MappingError::Rename(e)),
            None => match spec_rename(attributes@) {
                Err(e) => r == Err::<RowMapping, MappingError>(MappingError::Rename(e)),
                Ok(rename) => r matches Ok(m) && is_mapping_of(m, ident@, rename, fields@),
            },
        },
{
    let fields = match data {
        DataShape::NotStruct => {
            return Err(MappingError::NotStruct);
        },
        DataShape::Unnamed => {
            return Err(MappingError::NotNamed);
        },
        DataShape::Named(fields) => fields,
    };
    let mapping = match db_column_idents(fields) {
        Ok(m) => m,
        Err(e) => {
            return Err(MappingError::Rename(e));
        },
    };
    let columns = column_names(&mapping);
    let (reads, optional_reads) = field_reads(&mapping);
    let table_name = match renamed_field(attributes) {
        Ok(Some(name)) => name,
        Ok(None) => clone_string(ident),
        Err(e) => {
            return Err(MappingError::Rename(e));
        },
    };
    let column_count = mapping.len();
    let m = RowMapping { table_name, columns, reads, optional_reads, column_count };
    proof {
        assert forall|i: int| 0 <= i < fields@.len() implies (#[trigger] m.columns@[i])@
            == field_column(fields@[i]) by {
            assert(describes(mapping@[i], fields@[i]));
        }
        assert forall|i: int| 0 <= i < fields@.len() implies {
            &&& (#[trigger] m.reads@[i]).field@ == fields@[i].name@
            &&& m.reads@[i].index == i
            &&& !m.reads@[i].fallible
            &&& m.optional_reads@[i].field@ == fields@[i].name@
            &&& m.optional_reads@[i].index == i
            &&& m.optional_reads@[i].fallible == !spec_is_optional(fields@[i].ty)
        } by {
            assert(describes(mapping@[i], fields@[i]));
            assert(m.reads@[i] == reads@[i]);
            assert(m.optional_reads@[i] == optional_reads@[i]);
        }
    }
    Ok(m)
}

/// A token of `query_row!`'s input.
pub enum TokenShape {
    Ident(String),
    Other,
}

/// The identifiers among the tokens, in order.
pub open spec fn idents_of(tokens: Seq<TokenShape>) -> Seq<Seq<char>>
    decreases tokens.len(),
{
    if tokens.len() == 0 {
        Seq::empty()
    } else {
        let rest = idents_of(tokens.drop_last());
        match tokens.last() {
            TokenShape::Ident(s) => rest.push(s@),
            TokenShape::Other => rest,
        }
    }
}

/// The items that identifiers name: `Option T` names `T`, optional; any other `T` names `T`;
/// an `Option` with nothing after it ends the list.
pub open spec fn items_of(ids: Seq<Seq<char>>) -> Seq<(Seq<char>, bool)>
    decreases ids.len(),
{
    if ids.len() == 0 {
        Seq::empty()
    } else if ids[0] != "Option"@ {
        seq![(ids[0], false)] + items_of(ids.drop_first())
    } else if ids.len() == 1 {
        Seq::empty()
    } else {
        seq![(ids[1], true)] + items_of(ids.skip(2))
    }
}

/// The identifiers that write `items` out: `Option T` for an optional `T`, `T` for another.
pub open spec fn written_idents(items: Seq<(Seq<char>, bool)>) -> Seq<Seq<char>>
    decreases items.len(),
{
    if items.len() == 0 {
        Seq::empty()
    } else {
        let first = if items[0].1 {
            seq!["Option"@, items[0].0]
        } else {
            seq![items[0].0]
        };
        first + written_idents(items.drop_first())
    }
}

/// Reading items back from how they are written gives the same items, each `Option T` as
/// one optional `T` and each other identifier as one required item, whatever follows; a
/// trailing `Option` with nothing after it adds nothing. (A required item named `Option`
/// cannot be written.)
pub proof fn law_items_round_trip(items: Seq<(Seq<char>, bool)>)
    requires
        forall|i: int| 0 <= i < items.len() && !(#[trigger] items[i]).1 ==> items[i].0 != "Option"@,
    ensures
        items_of(written_idents(items)) == items,
        items_of(written_idents(items).push("Option"@)) == items,
    decreases items.len(),
{
    if items.len() == 0 {
        assert(written_idents(items).push("Option"@) =~= seq!["Option"@]);
        assert(items =~= Seq::<(Seq<char>, bool)>::empty());
    } else {
        let rest = items.drop_first();
        assert forall|i: int| 0 <= i < rest.len() && !(#[trigger] rest[i]).1 implies rest[i].0
            != "Option"@ by {
            assert(rest[i] == items[i + 1]);
        }
        law_items_round_trip(rest);
        let w = written_idents(items);
        let wr = written_idents(rest);
        let wp = w.push("Option"@);
        if items[0].1 {
            assert(w =~= seq!["Option"@, items[0].0] + wr);
            assert(w.skip(2) =~= wr);
            assert(wp =~= seq!["Option"@, items[0].0] + wr.push("Option"@));
            assert(wp.skip(2) =~= wr.push("Option"@));
        } else {
            assert(w =~= seq![items[0].0] + wr);
            assert(w.drop_first() =~= wr);
            assert(wp =~= seq![items[0].0] + wr.push("Option"@));
            assert(wp.drop_first() =~= wr.push("Option"@));
        }
        assert(items =~= seq![items[0]] + rest);
    }
}

/// The views of parsed items.
pub open spec fn item_views(items: Seq<(String, bool)>) -> Seq<(Seq<char>, bool)> {
    items.map_values(|p: (String, bool)| (p.0@, p.1))
}

/// The items `query_row!(row, A, Option B, ...)` names: the row first, then each type read
/// from it and whether it may be absent.
pub fn query_row_items(tokens: &Vec<TokenShape>) -> (items: Vec<(String, bool)>)
    ensures
        item_views(items@) == items_of(idents_of(tokens@)),
{
    let mut idents: Vec<String> = Vec::new();
    let mut t: usize = 0;
    while t < tokens.len()
        invariant
            t <= tokens@.len(),
            idents@.map_values(|s: String| s@) == idents_of(tokens@.take(t as int)),
        decreases tokens@.len() - t,
    {
        assert(tokens@.take(t + 1).drop_last() =~= tokens@.take(t as int));
        match &tokens[t] {
            TokenShape::Ident(s) => {
                idents.push(clone_string(s));
            },
            TokenShape::Other => {},
        }
        assert(idents@.map_values(|s: String| s@) =~= idents_of(tokens@.take(t + 1)));
        t = t + 1;
    }
    assert(tokens@.take(tokens@.len() as int) =~= tokens@);
    let ghost ids = idents@.map_values(|s: String| s@);
    let mut items: Vec<(String, bool)> = Vec::new();
    let mut i: usize = 0;
    assert(ids.skip(0) =~= ids);
    assert(item_views(items@) =~= Seq::<(Seq<char>, bool)>::empty());
    while i < idents.len()
        invariant
            ids == idents@.map_values(|s: String| s@),
            ids == idents_of(tokens@),
            i <= ids.len(),
            item_views(items@) + items_of(ids.skip(i as int)) == items_of(ids),
        decreases ids.len() - i,
    {
        let ghost before = item_views(items@);
        if !str_eq(&idents[i], "Option") {
            items.push((clone_string(&idents[i]), false));
            proof {
                assert(ids.skip(i as int)[0] == ids[i as int]);
                assert(ids.skip(i as int).drop_first() =~= ids.skip(i + 1));
                assert(item_views(items@) =~= before.push((ids[i as int], false)));
                assert(before.push((ids[i as int], false)) + items_of(ids.skip(i + 1)) =~= before
                    + (seq![(ids[i as int], false)] + items_of(ids.skip(i + 1))));
            }
            i = i + 1;
        } else if i + 1 < idents.len() {
            items.push((clone_string(&idents[i + 1]), true));
            proof {
                assert(ids.skip(i as int)[0] == ids[i as int]);
                assert(ids.skip(i as int)[1] == ids[i + 1]);
                assert(ids.skip(i as int).skip(2) =~= ids.skip(i + 2));
                assert(item_views(items@) =~= before.push((ids[i + 1], true)));
                assert(before.push((ids[i + 1], true)) + items_of(ids.skip(i + 2)) =~= before
                    + (seq![(ids[i + 1], true)] + items_of(ids.skip(i + 2))));
            }
            i = i + 2;
        } else {
            proof {
                assert(ids.skip(i as int)[0] == ids[i as int]);
                assert(ids.skip(i as int).len() == 1);
                assert(ids[i as int] == idents@[i as int]@);
                assert(items_of(ids.skip(i as int)) =~= Seq::<(Seq<char>, bool)>::empty());
                assert(item_views(items@) =~= item_views(items@) + Seq::<(Seq<char>, bool)>::empty());
            }
            return items;
        }
    }
    proof {
        assert(ids.skip(i as int) =~= Seq::<Seq<char>>::empty());
        assert(item_views(items@) + Seq::<(Seq<char>, bool)>::empty() =~= item_views(items@));
    }
    items
}

/// The views of a list of strings.
pub open spec fn string_views(parts: Seq<String>) -> Seq<Seq<char>> {
    parts.map_values(|p: String| p@)
}

/// The query that checks a mapping against the database: it reads the mapped columns of
/// the table and no row, `SELECT <columns, comma separated> FROM <table> LIMIT 0`.
pub fn validation_query(columns: &Vec<String>, table_name: &String) -> (q: String)
    ensures
        q@ == "SELECT "@ + joined(string_views(columns@), seq![',']) + " FROM "@ + table_name@
            + " LIMIT 0"@,
{
    let ghost views = string_views(columns@);
    let mut q = String::new();
    q.append("SELECT ");
    let mut i: usize = 0;
    proof {
        reveal_strlit("SELECT ");
    }
    assert(views.take(0) =~= Seq::<Seq<char>>::empty());
    while i < columns.len()
        invariant
            i <= columns@.len(),
            views == string_views(columns@),
            q@ == "SELECT "@ + joined(views.take(i as int), seq![',']),
        decreases columns@.len() - i,
    {
        proof {
            lemma_joined_step(views, seq![','], i as int);
        }
        if i > 0 {
            push_char(&mut q, ',');
        }
        q.append(columns[i].as_str());
        i = i + 1;
    }
    assert(views.take(columns@.len() as int) =~= views);
    q.append(" FROM ");
    q.append(table_name.as_str());
    q.append(" LIMIT 0");
    q
}

} // verus!
