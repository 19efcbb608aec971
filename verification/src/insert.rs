//! A multi-row `INSERT` statement with numbered parameter placeholders.
use vstd::prelude::*;
use vstd::string::*;

use crate::text::{
    decimal, decimal_string, join_strs, joined, lemma_joined_step, push_char, str_views,
};

verus! {

/// The error a database call reports (`tokio_postgres::Error`), carried through unopened.
#[verifier::external_type_specification]
#[verifier::external_body]
pub struct ExPostgresError(tokio_postgres::Error);

/// A type that is stored in a table of its own.
pub trait Table {
    /// The name of that table.
    const TABLE_NAME: &'static str;
}

/// Why an insert could not be run.
#[derive(Debug)]
pub enum InsertError {
    /// `RETURNING id` was asked of more than one row.
    ReturningMoreThanOne,
    /// A row holds `.0` values where the statement names `.1` columns.
    InvalidLength(usize, usize),
    /// The database refused the statement.
    PostgresError(tokio_postgres::Error),
}

/// Number of values in all rows together.
pub open spec fn total_len<V>(rows: Seq<Seq<V>>) -> nat
    decreases rows.len(),
{
    if rows.len() == 0 {
        0
    } else {
        total_len(rows.drop_last()) + rows.last().len()
    }
}

/// All rows' values, row after row.
pub open spec fn flat<V>(rows: Seq<Seq<V>>) -> Seq<V>
    decreases rows.len(),
{
    if rows.len() == 0 {
        Seq::empty()
    } else {
        flat(rows.drop_last()) + rows.last()
    }
}

/// The placeholder `$k`.
pub open spec fn placeholder(k: nat) -> Seq<char> {
    seq!['$'] + decimal(k)
}

/// The placeholders `$(offset + 1)` up to `$(offset + count)`.
pub open spec fn placeholders(offset: nat, count: nat) -> Seq<Seq<char>> {
    Seq::new(count, |i: int| placeholder((offset + i + 1) as nat))
}

/// One row's placeholders, comma separated, in parentheses.
pub open spec fn group(offset: nat, count: nat) -> Seq<char> {
    seq!['('] + joined(placeholders(offset, count), seq![',']) + seq![')']
}

/// The placeholder group of each row; numbering runs on across rows.
pub open spec fn groups<V>(rows: Seq<Seq<V>>) -> Seq<Seq<char>> {
    Seq::new(rows.len(), |r: int| group(total_len(rows.take(r)), rows[r].len()))
}

/// The `VALUES` list of a statement.
pub open spec fn values_text<V>(rows: Seq<Seq<V>>) -> Seq<char> {
    joined(groups(rows), seq![','])
}

/// The statement text that inserts `rows` into `into`.
pub open spec fn insert_text<V>(into: Seq<char>, columns: Seq<Seq<char>>, rows: Seq<Seq<V>>) -> Seq<
    char,
> {
    if rows.len() == 0 {
        "INSERT INTO "@ + into + " DEFAULT VALUES;"@
    } else {
        "INSERT INTO "@ + into + seq!['('] + joined(columns, seq![',']) + ") values "@
            + values_text(rows)
    }
}

/// The statement text that inserts `rows` and returns the new row's id.
pub open spec fn returning_text<V>(
    into: Seq<char>,
    columns: Seq<Seq<char>>,
    rows: Seq<Seq<V>>,
) -> Seq<char> {
    if rows.len() == 0 {
        "INSERT INTO "@ + into + " DEFAULT VALUES RETURNING id;"@
    } else {
        insert_text(into, columns, rows) + " returning id;"@
    }
}

/// The length of the first row whose length differs from `n`, if any.
pub open spec fn first_mismatch<V>(rows: Seq<Seq<V>>, n: nat) -> Option<nat>
    decreases rows.len(),
{
    if rows.len() == 0 {
        None
    } else if rows[0].len() != n {
        Some(rows[0].len())
    } else {
        first_mismatch(rows.drop_first(), n)
    }
}

/// What the length check answers.
pub open spec fn length_check<V>(rows: Seq<Seq<V>>, n: nat) -> Result<(), InsertError> {
    match first_mismatch(rows, n) {
        None => Ok(()),
        Some(l) => Err(InsertError::InvalidLength(l as usize, n as usize)),
    }
}

proof fn lemma_take_all<A>(s: Seq<A>)
    ensures
        s.take(s.len() as int) == s,
{
    assert(s.take(s.len() as int) =~= s);
}

/// Sums and flattening grow by one row at a time.
proof fn lemma_take_step<V>(rows: Seq<Seq<V>>, i: int)
    requires
        0 <= i < rows.len(),
    ensures
        total_len(rows.take(i + 1)) == total_len(rows.take(i)) + rows[i].len(),
        flat(rows.take(i + 1)) == flat(rows.take(i)) + rows[i],
{
    assert(rows.take(i + 1).drop_last() =~= rows.take(i));
}

/// A prefix holds no more values than the whole.
proof fn lemma_total_prefix<V>(rows: Seq<Seq<V>>, i: int)
    requires
        0 <= i <= rows.len(),
    ensures
        total_len(rows.take(i)) <= total_len(rows),
    decreases rows.len(),
{
    if i == rows.len() {
        lemma_take_all(rows);
    } else {
        assert(rows.drop_last().take(i) =~= rows.take(i));
        lemma_total_prefix(rows.drop_last(), i);
    }
}

/// Flattening keeps every value: as many as the rows hold.
pub proof fn lemma_flat_len<V>(rows: Seq<Seq<V>>)
    ensures
        flat(rows).len() == total_len(rows),
    decreases rows.len(),
{
    if rows.len() > 0 {
        lemma_flat_len(rows.drop_last());
    }
}

/// Row `r`'s value `j` stands at position `total_len(rows.take(r)) + j` of the flattened list.
proof fn lemma_flat_index<V>(rows: Seq<Seq<V>>, r: int, j: int)
    requires
        0 <= r < rows.len(),
        0 <= j < rows[r].len(),
    ensures
        total_len(rows.take(r)) + j < flat(rows).len(),
        flat(rows)[total_len(rows.take(r)) + j] == rows[r][j],
    decreases rows.len(),
{
    let last = rows.len() - 1;
    lemma_flat_len(rows.drop_last());
    lemma_flat_len(rows.take(r));
    if r == last {
        assert(rows.take(r) =~= rows.drop_last());
    } else {
        assert(rows.drop_last().take(r) =~= rows.take(r));
        lemma_flat_index(rows.drop_last(), r, j);
    }
}

/// A row of the first-mismatch search that matches can be passed over.
proof fn lemma_mismatch_skip<V>(rows: Seq<Seq<V>>, n: nat, i: int)
    requires
        0 <= i < rows.len(),
        rows[i].len() == n,
    ensures
        first_mismatch(rows.skip(i), n) == first_mismatch(rows.skip(i + 1), n),
{
    assert(rows.skip(i).drop_first() =~= rows.skip(i + 1));
}

/// The length check passes exactly when every row has `n` values; when it fails, it names
/// the length of the first row that has another number of values, and `n`.
pub proof fn law_length_check<V>(rows: Seq<Seq<V>>, n: nat)
    ensures
        length_check(rows, n) is Ok <==> forall|i: int| 0 <= i < rows.len() ==> (#[trigger] rows[i]).len() == n,
        length_check(rows, n) is Err ==> exists|i: int|
            0 <= i < rows.len() && (#[trigger] rows[i]).len() != n && (forall|j: int| 0 <= j < i ==> (#[trigger] rows[j]).len() == n)
                && length_check(rows, n) == Err::<(), InsertError>(
                InsertError::InvalidLength(rows[i].len() as usize, n as usize),
            ),
    decreases rows.len(),
{
    if rows.len() > 0 {
        let rest = rows.drop_first();
        law_length_check(rest, n);
        if rows[0].len() == n {
            assert forall|i: int| 0 <= i < rows.len() && (forall|k: int| 0 <= k < rest.len() ==> (#[trigger] rest[k]).len() == n) implies (#[trigger] rows[i]).len() == n by {
                if i > 0 {
                    assert(rows[i] == rest[i - 1]);
                }
            }
            assert((forall|i: int| 0 <= i < rows.len() ==> (#[trigger] rows[i]).len() == n) ==> forall|k: int| 0 <= k < rest.len() ==> (#[trigger] rest[k]).len() == n) by {
                assert forall|k: int| 0 <= k < rest.len() && (forall|i: int| 0 <= i < rows.len() ==> (#[trigger] rows[i]).len() == n) implies (#[trigger] rest[k]).len() == n by {
                    assert(rest[k] == rows[k + 1]);
                }
            }
            if length_check(rest, n) is Err {
                let i = choose|i: int|
                    0 <= i < rest.len() && (#[trigger] rest[i]).len() != n && (forall|j: int| 0 <= j < i ==> (#[trigger] rest[j]).len() == n)
                        && length_check(rest, n) == Err::<(), InsertError>(
                        InsertError::InvalidLength(rest[i].len() as usize, n as usize),
                    );
                assert(rows[i + 1] == rest[i]);
                assert forall|j: int| 0 <= j < i + 1 implies (#[trigger] rows[j]).len() == n by {
                    if j > 0 {
                        assert(rows[j] == rest[j - 1]);
                    }
                }
            }
        }
    }
}

/// Rows that all have `n` values pass the length check.
pub proof fn lemma_uniform_rows<V>(rows: Seq<Seq<V>>, n: nat)
    requires
        forall|i: int| 0 <= i < rows.len() ==> (#[trigger] rows[i]).len() == n,
    ensures
        first_mismatch(rows, n) is None,
        length_check(rows, n) == Ok::<(), InsertError>(()),
    decreases rows.len(),
{
    if rows.len() > 0 {
        assert forall|i: int| 0 <= i < rows.drop_first().len() implies (
        #[trigger] rows.drop_first()[i]).len() == n by {
            assert(rows.drop_first()[i] == rows[i + 1]);
        }
        lemma_uniform_rows(rows.drop_first(), n);
    }
}

/// An `INSERT` of rows of values of type `V` into one table.
pub struct Insert<'a, V> {
    into: &'a str,
    columns: &'a [&'a str],
    values: Vec<&'a [V]>,
}

impl<'a, V: Copy> Insert<'a, V> {
    /// The table's name.
    pub closed spec fn table(&self) -> Seq<char> {
        self.into@
    }

    /// The column names.
    pub closed spec fn column_names(&self) -> Seq<Seq<char>> {
        str_views(self.columns@)
    }

    /// The rows pushed so far, in order.
    pub closed spec fn rows(&self) -> Seq<Seq<V>> {
        self.values@.map_values(|row: &[V]| row@)
    }

    /// How many values the rows hold together.
    pub open spec fn value_count(&self) -> nat {
        total_len(self.rows())
    }

    /// An insert into `T`'s table, with no rows yet.
    pub fn new<T: Table>(columns: &'a [&'a str]) -> (ins: Self)
        ensures
            ins.table() == T::TABLE_NAME@,
            ins.column_names() == str_views(columns@),
            ins.rows() == Seq::<Seq<V>>::empty(),
    {
        Self::new_raw(T::TABLE_NAME, columns)
    }

    /// An insert into the table `into`, with no rows yet.
    pub fn new_raw(into: &'a str, columns: &'a [&'a str]) -> (ins: Self)
        ensures
            ins.table() == into@,
            ins.column_names() == str_views(columns@),
            ins.rows() == Seq::<Seq<V>>::empty(),
    {
        let ins = Insert { into, columns, values: Vec::new() };
        assert(ins.rows() =~= Seq::<Seq<V>>::empty());
        ins
    }

    /// Adds one row.
    pub fn push(self, values: &'a [V]) -> (ins: Self)
        ensures
            ins.table() == self.table(),
            ins.column_names() == self.column_names(),
            ins.rows() == self.rows().push(values@),
    {
        let mut ins = self;
        ins.values.push(values);
        assert(ins.rows() =~= self.rows().push(values@));
        ins
    }

    /// Checks that every row has one value per column; names the first row that does not.
    pub fn invalid_length(&self) -> (r: Result<(), InsertError>)
        ensures
            r == length_check(self.rows(), self.column_names().len()),
    {
        let columns_length = self.columns.len();
        let ghost rows = self.rows();
        let ghost n = self.column_names().len();
        let mut i: usize = 0;
        assert(rows.skip(0) =~= rows);
        while i < self.values.len()
            invariant
                rows == self.rows(),
                n == self.column_names().len(),
                n == columns_length,
                i <= rows.len(),
                rows.len() == self.values@.len(),
                first_mismatch(rows, n) == first_mismatch(rows.skip(i as int), n),
            decreases rows.len() - i,
        {
            let values_length = self.values[i].len();
            if values_length != columns_length {
                assert(rows.skip(i as int)[0] == rows[i as int]);
                return Err(InsertError::InvalidLength(values_length, columns_length));
            }
            proof {
                lemma_mismatch_skip(rows, n, i as int);
            }
            i = i + 1;
        }
        assert(rows.skip(i as int) =~= Seq::<Seq<V>>::empty());
        Ok(())
    }

    /// All values, row after row: the statement's parameters in placeholder order.
    pub fn values(&self) -> (res: Vec<V>)
        ensures
            res@ == flat(self.rows()),
            res@.len() == self.value_count(),
    {
        let ghost rows = self.rows();
        let mut res: Vec<V> = Vec::new();
        let mut r: usize = 0;
        assert(rows.take(0) =~= Seq::<Seq<V>>::empty());
        while r < self.values.len()
            invariant
                rows == self.rows(),
                rows.len() == self.values@.len(),
                r <= rows.len(),
                res@ == flat(rows.take(r as int)),
            decreases rows.len() - r,
        {
            let row: &[V] = self.values[r];
            assert(row@ == rows[r as int]);
            let mut j: usize = 0;
            while j < row.len()
                invariant
                    j <= row@.len(),
                    res@ == flat(rows.take(r as int)) + row@.take(j as int),
                decreases row@.len() - j,
            {
                res.push(row[j]);
                assert(row@.take(j + 1) =~= row@.take(j as int).push(row@[j as int]));
                j = j + 1;
            }
            proof {
                lemma_take_all(row@);
                lemma_take_step(rows, r as int);
            }
            r = r + 1;
        }
        proof {
            lemma_take_all(rows);
            lemma_flat_len(rows);
        }
        res
    }

    fn columns_sql(&self) -> (s: String)
        ensures
            s@ == joined(self.column_names(), seq![',']),
    {
        let s = join_strs(self.columns, ",");
        proof {
            reveal_strlit(",");
        }
        assert(","@ =~= seq![',']);
        s
    }

    fn group_sql(offset: usize, count: usize) -> (s: String)
        requires
            offset + count <= usize::MAX,
        ensures
            s@ == group(offset as nat, count as nat),
    {
        let ghost ps = placeholders(offset as nat, count as nat);
        let mut s = String::new();
        push_char(&mut s, '(');
        let mut j: usize = 0;
        while j < count
            invariant
                offset + count <= usize::MAX,
                ps == placeholders(offset as nat, count as nat),
                j <= count,
                s@ == seq!['('] + joined(ps.take(j as int), seq![',']),
            decreases count - j,
        {
            proof {
                lemma_joined_step(ps, seq![','], j as int);
            }
            if j > 0 {
                push_char(&mut s, ',');
            }
            push_char(&mut s, '$');
            let d = decimal_string(offset + j + 1);
            s.append(d.as_str());
            proof {
                let prev = joined(ps.take(j as int), seq![',']);
                assert(ps[j as int] == seq!['$'] + decimal((offset + j + 1) as nat));
                if j > 0 {
                    assert(s@ =~= seq!['('] + (prev + seq![','] + ps[j as int]));
                } else {
                    assert(s@ =~= seq!['('] + ps[j as int]);
                }
            }
            j = j + 1;
        }
        push_char(&mut s, ')');
        proof {
            lemma_take_all(ps);
        }
        s
    }

    /// The `VALUES` list: one parenthesised group of placeholders per row, `$1` up to the
    /// number of values, in order, the groups separated by commas.
    pub fn values_sql(&self) -> (s: String)
        requires
            self.value_count() <= usize::MAX,
        ensures
            s@ == values_text(self.rows()),
    {
        let ghost rows = self.rows();
        let ghost gs = groups(rows);
        let mut s = String::new();
        let mut offset: usize = 0;
        let mut r: usize = 0;
        assert(rows.take(0) =~= Seq::<Seq<V>>::empty());
        while r < self.values.len()
            invariant
                rows == self.rows(),
                gs == groups(rows),
                rows.len() == self.values@.len(),
                total_len(rows) <= usize::MAX,
                r <= rows.len(),
                offset == total_len(rows.take(r as int)),
                s@ == joined(gs.take(r as int), seq![',']),
            decreases rows.len() - r,
        {
            let row: &[V] = self.values[r];
            assert(row@ == rows[r as int]);
            proof {
                lemma_joined_step(gs, seq![','], r as int);
                lemma_take_step(rows, r as int);
                lemma_total_prefix(rows, r + 1);
            }
            if r > 0 {
                push_char(&mut s, ',');
            }
            let g = Self::group_sql(offset, row.len());
            s.append(g.as_str());
            offset = offset + row.len();
            r = r + 1;
        }
        proof {
            lemma_take_all(gs);
        }
        s
    }

    fn head_sql(&self) -> (s: String)
        requires
            self.rows().len() > 0,
            self.value_count() <= usize::MAX,
        ensures
            s@ == insert_text(self.table(), self.column_names(), self.rows()),
    {
        let mut s = String::new();
        s.append("INSERT INTO ");
        s.append(self.into);
        push_char(&mut s, '(');
        let columns = self.columns_sql();
        s.append(columns.as_str());
        s.append(") values ");
        let values = self.values_sql();
        s.append(values.as_str());
        s
    }

    /// The statement text; placeholder `$k` stands for the `k`-th of `values()`.
    pub fn sql(&self) -> (s: String)
        requires
            self.value_count() <= usize::MAX,
        ensures
            s@ == insert_text(self.table(), self.column_names(), self.rows()),
    {
        if self.values.len() == 0 {
            let mut s = String::new();
            s.append("INSERT INTO ");
            s.append(self.into);
            s.append(" DEFAULT VALUES;");
            return s;
        }
        self.head_sql()
    }

    /// The statement text that also returns the new row's id.
    pub fn returning_sql(&self) -> (s: String)
        requires
            self.value_count() <= usize::MAX,
        ensures
            s@ == returning_text(self.table(), self.column_names(), self.rows()),
    {
        if self.values.len() == 0 {
            let mut s = String::new();
            s.append("INSERT INTO ");
            s.append(self.into);
            s.append(" DEFAULT VALUES RETURNING id;");
            return s;
        }
        let mut s = self.head_sql();
        s.append(" returning id;");
        s
    }

    /// What `execute` sends: the statement and its parameters, once the rows passed the length check.
    pub fn execute_plan(&self) -> (r: Result<(String, Vec<V>), InsertError>)
        ensures
            match length_check(self.rows(), self.column_names().len()) {
                Err(e) => r == Err::<(String, Vec<V>), InsertError>(e),
                Ok(_) => r matches Ok((s, params)) && s@ == insert_text(
                    self.table(),
                    self.column_names(),
                    self.rows(),
                ) && params@ == flat(self.rows()),
            },
    {
        match self.invalid_length() {
            Err(e) => Err(e),
            Ok(()) => {
                let params = self.values();
                proof {
                    // The parameters are held in a vector, so their count fits a `usize`.
                    assert(params@.len() == params.len());
                }
                let s = self.sql();
                Ok((s, params))
            },
        }
    }

    /// What `returning` sends: refused for more than one row, then as `execute_plan`
    /// with the `RETURNING id` statement.
    pub fn returning_plan(&self) -> (r: Result<(String, Vec<V>), InsertError>)
        ensures
            self.rows().len() > 1 ==> r matches Err(InsertError::ReturningMoreThanOne),
            self.rows().len() <= 1 ==> match length_check(
                self.rows(),
                self.column_names().len(),
            ) {
                Err(e) => r == Err::<(String, Vec<V>), InsertError>(e),
                Ok(_) => r matches Ok((s, params)) && s@ == returning_text(
                    self.table(),
                    self.column_names(),
                    self.rows(),
                ) && params@ == flat(self.rows()),
            },
    {
        if self.values.len() > 1 {
            return Err(InsertError::ReturningMoreThanOne);
        }
        match self.invalid_length() {
            Err(e) => Err(e),
            Ok(()) => {
                let params = self.values();
                proof {
                    // The parameters are held in a vector, so their count fits a `usize`.
                    assert(params@.len() == params.len());
                }
                let s = self.returning_sql();
                Ok((s, params))
            },
        }
    }
}

/// Parameter `$k` of the statement is value `k - 1` of the parameter list: row `r`'s value
/// `j` is written as placeholder `total_len(rows.take(r)) + j + 1` and is that entry of
/// `flat(rows)`.
pub proof fn law_placeholders_bind_values<V>(rows: Seq<Seq<V>>, r: int, j: int)
    requires
        0 <= r < rows.len(),
        0 <= j < rows[r].len(),
    ensures
        groups(rows)[r] == group(total_len(rows.take(r)), rows[r].len()),
        placeholders(total_len(rows.take(r)), rows[r].len())[j] == placeholder(
            (total_len(rows.take(r)) + j + 1) as nat,
        ),
        total_len(rows.take(r)) + j < flat(rows).len(),
        flat(rows)[total_len(rows.take(r)) + j] == rows[r][j],
        flat(rows).len() == total_len(rows),
{
    lemma_flat_index(rows, r, j);
    lemma_flat_len(rows);
}

/// A pushed row's values come last among the parameters, after all earlier ones, and add
/// their number to the count.
pub proof fn law_push_appends_values<V>(rows: Seq<Seq<V>>, row: Seq<V>)
    ensures
        flat(rows.push(row)) == flat(rows) + row,
        total_len(rows.push(row)) == total_len(rows) + row.len(),
{
    assert(rows.push(row).drop_last() =~= rows);
}

/// With at least one row, the `RETURNING` statement is the plain one followed by ` returning id;`.
pub proof fn law_returning_extends_insert<V>(
    into: Seq<char>,
    columns: Seq<Seq<char>>,
    rows: Seq<Seq<V>>,
)
    requires
        rows.len() > 0,
    ensures
        returning_text(into, columns, rows) == insert_text(into, columns, rows)
            + " returning id;"@,
{
}

impl InsertError {
    /// The error's text, as it is shown to a reader; a database error shows its own text.
    pub fn message(&self) -> (s: String)
        ensures
            self is ReturningMoreThanOne ==> s@
                == "Returning is not supported for more than 1 value at a time"@,
            self matches InsertError::InvalidLength(a, b) ==> s@ == "values length '"@ + decimal(
                a as nat,
            ) + "' does not match the length of the columns '"@ + decimal(b as nat) + "'"@,
            self matches InsertError::PostgresError(v) ==> to_string_from_display_ensures::<
                tokio_postgres::Error,
            >(&v, s),
    {
        match self {
            InsertError::ReturningMoreThanOne => String::from_str(
                "Returning is not supported for more than 1 value at a time",
            ),
            InsertError::PostgresError(value) => value.to_string(),
            InsertError::InvalidLength(a, b) => {
                let mut s = String::from_str("values length '");
                s.append(decimal_string(*a).as_str());
                s.append("' does not match the length of the columns '");
                s.append(decimal_string(*b).as_str());
                s.append("'");
                s
            },
        }
    }

    /// Wraps the database's error.
    pub fn from_postgres(error: tokio_postgres::Error) -> (e: InsertError)
        ensures
            e == InsertError::PostgresError(error),
    {
        InsertError::PostgresError(error)
    }
}

/// The outcome of a database call, with its error as an `InsertError`.
pub fn postgres_result<T>(result: Result<T, tokio_postgres::Error>) -> (r: Result<T, InsertError>)
    ensures
        r == match result {
            Ok(t) => Ok::<T, InsertError>(t),
            Err(e) => Err(InsertError::PostgresError(e)),
        },
{
    match result {
        Ok(t) => Ok(t),
        Err(e) => Err(InsertError::from_postgres(e)),
    }
}

} // verus!
