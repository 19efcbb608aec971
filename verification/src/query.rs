//! A description of a `SELECT`: what it reads, what it joins and how it filters.
use vstd::prelude::*;
use vstd::string::*;

use crate::schemas::DbLanguage;

verus! {

/// A record type that a query reads whole.
#[derive(Clone, Copy, Debug, PartialEq, Eq, Structural)]
pub enum Schema {
    Book,
    BookTranslation,
    Image,
    Franchise,
    Role,
    RoleTranslation,
}

/// A column of a table, or of a joined table by its alias.
#[derive(Debug)]
pub struct Column {
    pub table: String,
    pub column: String,
}

/// A value bound to a parameter of the query.
#[derive(Debug)]
pub enum SqlValue {
    Int(i32),
    Language(DbLanguage),
}

/// A condition.
#[derive(Debug)]
pub enum Expression {
    /// Two columns are equal.
    ColumnEqual(Column, Column),
    /// A column equals a value.
    ValueEqual(Column, SqlValue),
    /// A column matches a pattern, ignoring case.
    ValueILike(Column, String),
    /// A column's value is one of the values.
    ValueIn(Column, Vec<i32>),
    /// A column is null.
    ColumnNull(Column),
    And(Box<Expression>, Box<Expression>),
    Or(Box<Expression>, Box<Expression>),
}

/// What a query reads.
#[derive(Debug)]
pub enum ColumnSet {
    /// The columns of a record of `schema` under `alias`; `optional` when a left join may
    /// leave them null.
    Record { schema: Schema, alias: String, optional: bool },
    /// One column.
    Single(Column),
}

/// A left join.
#[derive(Debug)]
pub struct Join {
    pub schema: Schema,
    pub alias: Option<String>,
    pub on: Expression,
}

/// A page of a listing: `size` rows from page number `page` on.
#[derive(Clone, Copy, Debug, PartialEq, Eq, Structural)]
pub struct Pagination {
    pub page: u32,
    pub size: u32,
}

/// A query over the table of `from`.
#[derive(Debug)]
pub struct Select {
    pub from: Schema,
    pub count: bool,
    pub columns: Vec<ColumnSet>,
    pub joins: Vec<Join>,
    pub filter: Option<Expression>,
    /// The page read, if the query reads only one.
    pub page: Option<Pagination>,
}

/// `c` is the column `table.column`.
pub open spec fn is_col(c: Column, table: Seq<char>, column: Seq<char>) -> bool {
    c.table@ == table && c.column@ == column
}

/// `e` says `a = b` of two columns.
pub open spec fn is_column_equal(e: Expression, a: (Seq<char>, Seq<char>), b: (Seq<char>, Seq<char>)) -> bool {
    e matches Expression::ColumnEqual(x, y) && is_col(x, a.0, a.1) && is_col(y, b.0, b.1)
}

/// `e` says that a column equals a language.
pub open spec fn is_language_equal(e: Expression, a: (Seq<char>, Seq<char>), l: DbLanguage) -> bool {
    e matches Expression::ValueEqual(x, v) && is_col(x, a.0, a.1) && v == SqlValue::Language(l)
}

/// `e` says that a column equals an integer.
pub open spec fn is_int_equal(e: Expression, a: (Seq<char>, Seq<char>), n: i32) -> bool {
    e matches Expression::ValueEqual(x, v) && is_col(x, a.0, a.1) && v == SqlValue::Int(n)
}

/// `e` says that a column is one of `values`.
pub open spec fn is_in(e: Expression, a: (Seq<char>, Seq<char>), values: Seq<i32>) -> bool {
    e matches Expression::ValueIn(x, v) && is_col(x, a.0, a.1) && v@ == values
}

/// `e` says that a column matches `pattern`, ignoring case.
pub open spec fn is_ilike(e: Expression, a: (Seq<char>, Seq<char>), pattern: Seq<char>) -> bool {
    e matches Expression::ValueILike(x, p) && is_col(x, a.0, a.1) && p@ == pattern
}

/// `e` says that a column is null.
pub open spec fn is_null(e: Expression, a: (Seq<char>, Seq<char>)) -> bool {
    e matches Expression::ColumnNull(x) && is_col(x, a.0, a.1)
}

/// `j` joins `schema` under `alias`.
pub open spec fn joins_as(j: Join, schema: Schema, alias: Option<Seq<char>>) -> bool {
    &&& j.schema == schema
    &&& match (j.alias, alias) {
        (Some(a), Some(b)) => a@ == b,
        (None, None) => true,
        _ => false,
    }
}

/// `c` reads the record of `schema` under `alias`.
pub open spec fn reads_record(c: ColumnSet, schema: Schema, alias: Seq<char>, optional: bool) -> bool {
    c matches ColumnSet::Record { schema: s, alias: a, optional: o } && s == schema && a@ == alias
        && o == optional
}

/// The pattern that matches every text holding `s`: `%s%`.
pub open spec fn contains_pattern(s: Seq<char>) -> Seq<char> {
    seq!['%'] + s + seq!['%']
}

fn text(s: &str) -> (r: String)
    ensures
        r@ == s@,
{
    String::from_str(s)
}

/// The column `table.column`.
pub fn column(table: &str, name: &str) -> (c: Column)
    ensures
        is_col(c, table@, name@),
{
    Column { table: text(table), column: text(name) }
}

/// The pattern `%s%`.
pub fn like_pattern(s: &str) -> (p: String)
    ensures
        p@ == contains_pattern(s@),
{
    let mut p = String::new();
    p.append("%");
    p.append(s);
    p.append("%");
    proof {
        reveal_strlit("%");
    }
    assert(p@ =~= contains_pattern(s@));
    p
}

impl Expression {
    /// `table.column` equals `value`.
    pub fn column_equal_language(table: &str, col: &str, value: DbLanguage) -> (e: Expression)
        ensures
            is_language_equal(e, (table@, col@), value),
    {
        Expression::ValueEqual(column(table, col), SqlValue::Language(value))
    }

    /// `table.column` is null.
    pub fn column_null(table: &str, col: &str) -> (e: Expression)
        ensures
            is_null(e, (table@, col@)),
    {
        Expression::ColumnNull(column(table, col))
    }

    /// Both conditions hold.
    pub fn and(self, other: Expression) -> (e: Expression)
        ensures
            e == Expression::And(Box::new(self), Box::new(other)),
    {
        Expression::And(Box::new(self), Box::new(other))
    }

    /// One of the conditions holds.
    pub fn or(self, other: Expression) -> (e: Expression)
        ensures
            e == Expression::Or(Box::new(self), Box::new(other)),
    {
        Expression::Or(Box::new(self), Box::new(other))
    }
}

impl Select {
    /// A query over `from` that reads nothing yet.
    pub fn new(from: Schema) -> (s: Select)
        ensures
            s.from == from,
            !s.count,
            s.columns@.len() == 0,
            s.joins@.len() == 0,
            s.filter is None,
            s.page is None,
    {
        Select {
            from,
            count: false,
            columns: Vec::new(),
            joins: Vec::new(),
            filter: None,
            page: None,
        }
    }

    /// The query counts its rows instead of reading them.
    pub fn count(self) -> (s: Select)
        ensures
            s.count,
            s.from == self.from,
            s.columns == self.columns,
            s.joins == self.joins,
            s.filter == self.filter,
            s.page == self.page,
    {
        let mut s = self;
        s.count = true;
        s
    }

    /// The query also reads the record of `schema` under `alias`.
    pub fn columns(self, schema: Schema, alias: &str, optional: bool) -> (s: Select)
        ensures
            s.from == self.from,
            s.count == self.count,
            s.columns@.len() == self.columns@.len() + 1,
            forall|i: int| 0 <= i < self.columns@.len() ==> s.columns@[i] == self.columns@[i],
            reads_record(s.columns@.last(), schema, alias@, optional),
            s.joins == self.joins,
            s.filter == self.filter,
            s.page == self.page,
    {
        let mut s = self;
        s.columns.push(ColumnSet::Record { schema, alias: text(alias), optional });
        s
    }

    /// The query also reads the single column `table.column`.
    pub fn column(self, table: &str, col: &str) -> (s: Select)
        ensures
            s.from == self.from,
            s.count == self.count,
            s.columns@.len() == self.columns@.len() + 1,
            forall|i: int| 0 <= i < self.columns@.len() ==> s.columns@[i] == self.columns@[i],
            s.columns@.last() matches ColumnSet::Single(c) && is_col(c, table@, col@),
            s.joins == self.joins,
            s.filter == self.filter,
            s.page == self.page,
    {
        let mut s = self;
        s.columns.push(ColumnSet::Single(column(table, col)));
        s
    }

    /// The query also joins `schema`, under `alias` if one is given, on `on`.
    pub fn left_join(self, schema: Schema, alias: Option<&str>, on: Expression) -> (s: Select)
        ensures
            s.from == self.from,
            s.count == self.count,
            s.columns == self.columns,
            s.joins@.len() == self.joins@.len() + 1,
            forall|i: int| 0 <= i < self.joins@.len() ==> s.joins@[i] == self.joins@[i],
            joins_as(s.joins@.last(), schema, match alias {
                Some(a) => Some(a@),
                None => None,
            }),
            s.joins@.last().on == on,
            s.filter == self.filter,
            s.page == self.page,
    {
        let mut s = self;
        let alias = match alias {
            Some(a) => Some(text(a)),
            None => None,
        };
        s.joins.push(Join { schema, alias, on });
        s
    }

    /// The query keeps only the rows where `e` holds.
    pub fn where_expression(self, e: Expression) -> (s: Select)
        ensures
            s.from == self.from,
            s.count == self.count,
            s.columns == self.columns,
            s.joins == self.joins,
            s.filter == Some(e),
            s.page == self.page,
    {
        let mut s = self;
        s.filter = Some(e);
        s
    }
}

impl Select {
    /// The query reads only the page `pagination`.
    pub fn pagination(self, pagination: Pagination) -> (s: Select)
        ensures
            s.from == self.from,
            s.count == self.count,
            s.columns == self.columns,
            s.joins == self.joins,
            s.filter == self.filter,
            s.page == Some(pagination),
    {
        let mut s = self;
        s.page = Some(pagination);
        s
    }
}

/// The total that a count query gave: the number in its one row, as a `usize`. The row must
/// be there: a count query that gave none is a fault that callers stop on.
pub fn count_total(row: Option<i64>) -> (total: usize)
    requires
        row is Some,
    ensures
        total == row->0 as usize,
        0 <= row->0 <= usize::MAX ==> total == row->0,
{
    let count: i64 = row.unwrap();
    count as usize
}

} // verus!
