//! The services over the repositories: books, genres, images, and a book's characters.
use vstd::prelude::*;

use crate::insert::{flat, insert_text, lemma_uniform_rows, Insert, Table};
use crate::book_repository::db_ids;
use crate::query::{column, is_in, is_int_equal, Expression, SqlValue};
use crate::schemas::{db_id_of, to_i32, to_i32_id, DbBookCharacter};
use crate::text::str_views;

verus! {

/// What a client asked wrongly of the book service.
#[derive(Debug)]
pub enum BookServiceError {
    /// The request names books that do not exist: these ones.
    NonExistentBooks(Vec<u32>),
}

/// The items that `existing` does not hold, in order.
pub open spec fn absent(items: Seq<u32>, existing: Seq<u32>) -> Seq<u32>
    decreases items.len(),
{
    if items.len() == 0 {
        Seq::empty()
    } else if existing.contains(items.last()) {
        absent(items.drop_last(), existing)
    } else {
        absent(items.drop_last(), existing).push(items.last())
    }
}

fn holds(values: &[u32], x: u32) -> (b: bool)
    ensures
        b == values@.contains(x),
{
    let mut i: usize = 0;
    while i < values.len()
        invariant
            i <= values@.len(),
            forall|k: int| 0 <= k < i ==> values@[k] != x,
        decreases values@.len() - i,
    {
        if values[i] == x {
            return true;
        }
        i = i + 1;
    }
    false
}

/// The items that do not exist, in order.
pub fn filter_non_existent(items: &[u32], existing: &[u32]) -> (r: Vec<u32>)
    ensures
        r@ == absent(items@, existing@),
{
    let mut r: Vec<u32> = Vec::new();
    let mut i: usize = 0;
    assert(items@.take(0) =~= Seq::<u32>::empty());
    while i < items.len()
        invariant
            i <= items@.len(),
            r@ == absent(items@.take(i as int), existing@),
        decreases items@.len() - i,
    {
        let x = items[i];
        assert(items@.take(i + 1).drop_last() =~= items@.take(i as int));
        if !holds(existing, x) {
            r.push(x);
        }
        i = i + 1;
    }
    assert(items@.take(items@.len() as int) =~= items@);
    r
}

/// An item is reported absent exactly when it is one of the items and does not exist.
pub proof fn law_absent_exactly(items: Seq<u32>, existing: Seq<u32>, x: u32)
    ensures
        absent(items, existing).contains(x) <==> (items.contains(x) && !existing.contains(x)),
    decreases items.len(),
{
    broadcast use vstd::seq_lib::group_seq_properties;

    if items.len() > 0 {
        let d = items.drop_last();
        law_absent_exactly(d, existing, x);
        assert(items =~= d.push(items.last()));
        assert(items.contains(x) <==> (d.contains(x) || x == items.last()));
        let ad = absent(d, existing);
        assert(ad.push(items.last()).contains(x) <==> (ad.contains(x) || x == items.last()));
    }
}

/// Whether statistics can be given for `book_ids`, given which of them exist: when fewer
/// exist than were asked for, the answer names the missing ones.
pub fn statistics_check(book_ids: &[u32], existing: &[u32]) -> (r: Result<(), BookServiceError>)
    ensures
        existing@.len() == book_ids@.len() ==> r is Ok,
        existing@.len() != book_ids@.len() ==> (r matches Err(
            BookServiceError::NonExistentBooks(missing),
        ) && missing@ == absent(book_ids@, existing@)),
{
    if existing.len() != book_ids.len() {
        let non_existent_books = filter_non_existent(book_ids, existing);
        return Err(BookServiceError::NonExistentBooks(non_existent_books));
    }
    Ok(())
}

/// Why a service call failed: the client asked wrongly (`T`), or the server failed (`E`).
#[derive(Debug)]
pub enum ServiceError<T, E> {
    ClientError(T),
    ServerError(E),
}

/// A server failure as a service error.
pub fn map_server_error<T, E>(error: E) -> (r: ServiceError<T, E>)
    ensures
        r == ServiceError::<T, E>::ServerError(error),
{
    ServiceError::ServerError(error)
}

/// A repository's answer as a service's: its value, or its error as a server failure.
pub fn service_result<S, T, E>(answer: Result<S, E>) -> (r: Result<S, ServiceError<T, E>>)
    ensures
        r == match answer {
            Ok(v) => Ok::<S, ServiceError<T, E>>(v),
            Err(e) => Err(ServiceError::<T, E>::ServerError(e)),
        },
{
    match answer {
        Ok(v) => Ok(v),
        Err(e) => Err(map_server_error(e)),
    }
}

/// What a statistics request does once the repository said which of its books exist.
#[derive(Debug)]
pub enum StatisticsStep<E> {
    /// Every book exists: ask the repository for their statistics.
    AskStatistics,
    /// Answer with this error, and ask nothing more.
    Fail(ServiceError<BookServiceError, E>),
}

/// The step after the existence check of `book_ids`: a failed check fails the request as
/// a server failure; fewer existing books than asked for fail it as the client's error,
/// naming the missing ones; else the statistics are asked for.
pub fn statistics_step<E>(book_ids: &[u32], existing: Result<Vec<u32>, E>) -> (r: StatisticsStep<E>)
    ensures
        match existing {
            Err(e) => r == StatisticsStep::Fail(ServiceError::<BookServiceError, E>::ServerError(e)),
            Ok(found) => if found@.len() == book_ids@.len() {
                r is AskStatistics
            } else {
                r matches StatisticsStep::Fail(
                    ServiceError::ClientError(BookServiceError::NonExistentBooks(missing)),
                ) && missing@ == absent(book_ids@, found@)
            },
        },
{
    match existing {
        Err(e) => StatisticsStep::Fail(map_server_error(e)),
        Ok(found) => match statistics_check(book_ids, found.as_slice()) {
            Ok(()) => StatisticsStep::AskStatistics,
            Err(refused) => StatisticsStep::Fail(ServiceError::ClientError(refused)),
        },
    }
}

/// The book service over a book repository `R`.
pub struct DefaultBookService<R> {
    book_repository: R,
}

impl<R> DefaultBookService<R> {
    /// The repository the service reads.
    pub closed spec fn spec_repository(&self) -> R {
        self.book_repository
    }

    /// A service over `book_repository`.
    pub fn new(book_repository: R) -> (s: Self)
        ensures
            s.spec_repository() == book_repository,
    {
        DefaultBookService { book_repository }
    }

    /// The repository the service reads.
    pub fn repository(&self) -> (r: &R)
        ensures
            *r == self.spec_repository(),
    {
        &self.book_repository
    }
}

/// The genre service over a genre repository `R`.
pub struct DefaultGenreService<'a, R: ?Sized> {
    genre_repository: &'a R,
}

impl<'a, R: ?Sized> DefaultGenreService<'a, R> {
    /// The repository the service reads.
    pub closed spec fn spec_repository(&self) -> &'a R {
        self.genre_repository
    }

    /// A service over `genre_repository`.
    pub fn new(genre_repository: &'a R) -> (s: Self)
        ensures
            s.spec_repository() == genre_repository,
    {
        DefaultGenreService { genre_repository }
    }

    /// The repository the service reads.
    pub fn repository(&self) -> (r: &'a R)
        ensures
            r == self.spec_repository(),
    {
        self.genre_repository
    }
}

/// An image to be stored: where its file lies and under which path it is shown.
#[derive(Debug)]
pub struct CreateImage<'a> {
    pub file_name: &'a str,
    pub file_path: &'a str,
    pub uri: &'a str,
    pub display_path: &'a str,
}

/// The image service over an image repository `R` and a file service `F`.
pub struct DefaultMutImageService<'a, R: ?Sized, F: ?Sized> {
    mut_image_repository: &'a R,
    mut_file_service: &'a F,
    display_path: &'a str,
    path: &'a str,
}

impl<'a, R: ?Sized, F: ?Sized> DefaultMutImageService<'a, R, F> {
    /// The directory image files are stored in.
    pub closed spec fn spec_path(&self) -> &'a str {
        self.path
    }

    /// The path images are shown under.
    pub closed spec fn spec_display_path(&self) -> &'a str {
        self.display_path
    }

    /// The repository images are recorded in.
    pub closed spec fn spec_image_repository(&self) -> &'a R {
        self.mut_image_repository
    }

    /// The service files are written with.
    pub closed spec fn spec_file_service(&self) -> &'a F {
        self.mut_file_service
    }

    /// A service storing files under `path`, shown under `display_path`.
    pub fn new(
        mut_image_repository: &'a R,
        mut_file_service: &'a F,
        display_path: &'a str,
        path: &'a str,
    ) -> (s: Self)
        ensures
            s.spec_image_repository() == mut_image_repository,
            s.spec_file_service() == mut_file_service,
            s.spec_display_path() == display_path,
            s.spec_path() == path,
    {
        DefaultMutImageService { mut_image_repository, mut_file_service, display_path, path }
    }

    /// The repository images are recorded in.
    pub fn image_repository(&self) -> (r: &'a R)
        ensures
            r == self.spec_image_repository(),
    {
        self.mut_image_repository
    }

    /// The service files are written with.
    pub fn file_service(&self) -> (f: &'a F)
        ensures
            f == self.spec_file_service(),
    {
        self.mut_file_service
    }

    /// The directory image files are stored in.
    pub fn path(&self) -> (p: &'a str)
        ensures
            p == self.spec_path(),
    {
        self.path
    }

    /// The record of an image whose file was written under `uri` with the name `file_name`.
    pub fn image_record<'b>(&self, uri: &'b str, file_name: &'b str) -> (c: CreateImage<'b>)
        where 'a: 'b
        ensures
            c.file_path == self.spec_path(),
            c.uri == uri,
            c.file_name == file_name,
            c.display_path == self.spec_display_path(),
    {
        CreateImage { file_path: self.path, uri, file_name, display_path: self.display_path }
    }

    /// What `create` records once the file service answered with the written file's
    /// `(uri, name)`: the record of that file; a failure of the file service is the answer
    /// as it is, and nothing is recorded.
    pub fn create_record<'b, E>(&self, file: Result<(&'b str, &'b str), E>) -> (r: Result<
        CreateImage<'b>,
        E,
    >)
        where 'a: 'b
        ensures
            match file {
                Err(e) => r == Err::<CreateImage<'b>, E>(e),
                Ok((uri, file_name)) => r matches Ok(c) && c.file_path == self.spec_path() && c.uri
                    == uri && c.file_name == file_name && c.display_path
                    == self.spec_display_path(),
            },
    {
        match file {
            Err(e) => Err(e),
            Ok((uri, file_name)) => Ok(self.image_record(uri, file_name)),
        }
    }
}

/// Adds and removes a book's characters within transaction `T`.
pub struct DefaultMutBookCharacterRepository<'a, T: ?Sized> {
    transaction: &'a T,
}

impl<'a, T: ?Sized> DefaultMutBookCharacterRepository<'a, T> {
    /// The transaction the changes are made in.
    pub closed spec fn spec_transaction(&self) -> &'a T {
        self.transaction
    }

    /// Changes made within `transaction`.
    pub fn new(transaction: &'a T) -> (r: Self)
        ensures
            r.spec_transaction() == transaction,
    {
        DefaultMutBookCharacterRepository { transaction }
    }

    /// The transaction the changes are made in.
    pub fn transaction(&self) -> (t: &'a T)
        ensures
            t == self.spec_transaction(),
    {
        self.transaction
    }
}

/// The database ids of a book and of its characters, as `add` and `remove` bind them.
pub fn book_character_ids(book_id: u32, characters: &[u32]) -> (r: (i32, Vec<i32>))
    ensures
        r.0 == db_id_of(book_id),
        r.1@.len() == characters@.len(),
        forall|i: int| 0 <= i < characters@.len() ==> #[trigger] r.1@[i] == db_id_of(characters@[i]),
{
    (to_i32_id(book_id), to_i32(characters))
}

/// The rows that `add` inserts: the book's and one character's database id, per character.
pub open spec fn character_rows(book_id: u32, characters: Seq<u32>) -> Seq<Seq<i32>> {
    Seq::new(characters.len(), |i: int| seq![db_id_of(book_id), db_id_of(characters[i])])
}

/// What `add` sends: the statement that inserts one `(fkbook, fkcharacter)` row per
/// character into the book character table, and its parameters.
pub fn add_statement(book_id: u32, characters: &[u32]) -> (r: (String, Vec<i32>))
    ensures
        r.0@ == insert_text(
            DbBookCharacter::TABLE_NAME@,
            seq!["fkbook"@, "fkcharacter"@],
            character_rows(book_id, characters@),
        ),
        r.1@ == flat(character_rows(book_id, characters@)),
{
    let (book, ids) = book_character_ids(book_id, characters);
    let ghost want = character_rows(book_id, characters@);
    let mut rows: Vec<Vec<i32>> = Vec::new();
    let mut i: usize = 0;
    while i < ids.len()
        invariant
            i <= ids@.len(),
            ids@.len() == characters@.len(),
            want == character_rows(book_id, characters@),
            book == db_id_of(book_id),
            forall|k: int| 0 <= k < characters@.len() ==> #[trigger] ids@[k] == db_id_of(characters@[k]),
            rows@.len() == i,
            forall|k: int| 0 <= k < i ==> (#[trigger] rows@[k])@ == want[k],
        decreases ids@.len() - i,
    {
        let row: Vec<i32> = vec![book, ids[i]];
        assert(row@ =~= want[i as int]);
        rows.push(row);
        i = i + 1;
    }
    let columns: Vec<&str> = vec!["fkbook", "fkcharacter"];
    let mut insert: Insert<i32> = Insert::new::<DbBookCharacter>(columns.as_slice());
    proof {
        assert(insert.rows() =~= want.take(0));
    }
    let mut j: usize = 0;
    while j < rows.len()
        invariant
            j <= rows@.len(),
            rows@.len() == characters@.len(),
            want.len() == characters@.len(),
            forall|k: int| 0 <= k < rows@.len() ==> (#[trigger] rows@[k])@ == want[k],
            insert.table() == DbBookCharacter::TABLE_NAME@,
            insert.column_names() == str_views(columns@),
            insert.rows() =~= want.take(j as int),
        decreases rows@.len() - j,
    {
        insert = insert.push(rows[j].as_slice());
        assert(want.take(j + 1) =~= want.take(j as int).push(want[j as int]));
        j = j + 1;
    }
    proof {
        reveal_strlit("fkbook");
        reveal_strlit("fkcharacter");
        assert(want.take(j as int) =~= want);
        assert(str_views(columns@) =~= seq!["fkbook"@, "fkcharacter"@]);
        lemma_uniform_rows(want, 2);
    }
    match insert.execute_plan() {
        Ok(plan) => plan,
        Err(_) => {
            proof {
                assert(false);
            }
            (String::new(), Vec::new())
        },
    }
}

/// Which rows `remove` deletes from the book character table: those of the book whose
/// character is one of `characters`.
pub fn remove_condition(book_id: u32, characters: &[u32]) -> (e: Expression)
    ensures
        e matches Expression::And(a, b) && is_int_equal(
            *a,
            (DbBookCharacter::TABLE_NAME@, "fkbook"@),
            db_id_of(book_id),
        ) && is_in(*b, (DbBookCharacter::TABLE_NAME@, "fkcharacter"@), db_ids(characters@)),
{
    let (book, ids) = book_character_ids(book_id, characters);
    assert(ids@ =~= db_ids(characters@));
    Expression::ValueEqual(column(DbBookCharacter::TABLE_NAME, "fkbook"), SqlValue::Int(book)).and(
        Expression::ValueIn(column(DbBookCharacter::TABLE_NAME, "fkcharacter"), ids),
    )
}

} // verus!
