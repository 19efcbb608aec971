//! Books, read in a language with a fallback language, with their cover images.
use vstd::prelude::*;
use vstd::multiset::Multiset;

use crate::query::{
    column, contains_pattern, is_column_equal, is_ilike, is_in, is_int_equal, is_language_equal,
    is_null, joins_as, like_pattern, reads_record, Expression, Join, Pagination, Schema, Select,
    SqlValue,
};
use crate::schemas::{
    db_id_of, db_language_of, fallback_unwrap_ref, id_of, spec_fallback, to_i32, to_i32_id,
    to_u32, DbLanguage, Language,
};

verus! {

/// The books of a database client `C`, with the image repository `R` for their covers.
pub struct DefaultBookRepository<'a, C, R> {
    client: &'a C,
    default_language: DbLanguage,
    image_repository: R,
}

/// `s` reads a book with its translations, its covers and its franchise.
pub open spec fn is_book_columns(s: Select) -> bool {
    &&& s.columns@.len() == 6
    &&& reads_record(s.columns@[0], Schema::Book, "book"@, false)
    &&& reads_record(s.columns@[1], Schema::BookTranslation, "book_translation"@, true)
    &&& reads_record(s.columns@[2], Schema::BookTranslation, "book_translation_fallback"@, true)
    &&& reads_record(s.columns@[3], Schema::Image, "cover"@, true)
    &&& reads_record(s.columns@[4], Schema::Image, "cover_fallback"@, true)
    &&& reads_record(s.columns@[5], Schema::Franchise, "franchise"@, true)
}

/// The five joins of a book query, for `language` falling back to `fallback`.
pub open spec fn is_book_joins(joins: Seq<Join>, language: DbLanguage, fallback: DbLanguage) -> bool {
    &&& joins.len() == 5
    // the translation in the asked language
    &&& joins_as(joins[0], Schema::BookTranslation, Some("book_translation"@))
    &&& joins[0].on matches Expression::And(a, b)
    &&& is_column_equal(*a, ("book_translation"@, "fktranslation"@), ("book"@, "id"@))
    &&& is_language_equal(*b, ("book_translation"@, "language"@), language)
    // the translation in the fallback language, where there is none in the asked one
    &&& joins_as(joins[1], Schema::BookTranslation, Some("book_translation_fallback"@))
    &&& joins[1].on matches Expression::And(ab, c)
    &&& *ab matches Expression::And(a2, b2)
    &&& is_column_equal(*a2, ("book"@, "id"@), ("book_translation_fallback"@, "fktranslation"@))
    &&& is_null(*b2, ("book_translation"@, "fktranslation"@))
    &&& is_language_equal(*c, ("book_translation_fallback"@, "language"@), fallback)
    // the covers of both translations
    &&& joins_as(joins[2], Schema::Image, Some("cover"@))
    &&& is_column_equal(joins[2].on, ("cover"@, "id"@), ("book_translation"@, "fkcover"@))
    &&& joins_as(joins[3], Schema::Image, Some("cover_fallback"@))
    &&& is_column_equal(
        joins[3].on,
        ("cover_fallback"@, "id"@),
        ("book_translation_fallback"@, "fkcover"@),
    )
    // the franchise
    &&& joins_as(joins[4], Schema::Franchise, None)
    &&& is_column_equal(joins[4].on, ("book"@, "fkfranchise"@), ("franchise"@, "id"@))
}

/// `s` reads the books, in `language` or else in `fallback`.
pub open spec fn is_books_query(s: Select, language: DbLanguage, fallback: DbLanguage) -> bool {
    &&& s.from == Schema::Book
    &&& !s.count
    &&& is_book_columns(s)
    &&& is_book_joins(s.joins@, language, fallback)
}

/// `s` counts the books over the same joins.
pub open spec fn is_books_count(s: Select, language: DbLanguage, fallback: DbLanguage) -> bool {
    &&& s.from == Schema::Book
    &&& s.count
    &&& s.columns@.len() == 0
    &&& is_book_joins(s.joins@, language, fallback)
}

/// `e` says that the title, in the asked or in the fallback language, matches `pattern`.
pub open spec fn is_title_filter(e: Expression, pattern: Seq<char>) -> bool {
    &&& e matches Expression::Or(a, b)
    &&& is_ilike(*a, ("book_translation"@, "title"@), pattern)
    &&& is_ilike(*b, ("book_translation_fallback"@, "title"@), pattern)
}

/// The ids, each read as an `i32` database id.
pub open spec fn db_ids(ids: Seq<u32>) -> Seq<i32> {
    ids.map_values(|id: u32| db_id_of(id))
}

/// The columns of a book query.
pub fn book_select_columns() -> (s: Select)
    ensures
        s.from == Schema::Book,
        !s.count,
        is_book_columns(s),
        s.joins@.len() == 0,
        s.filter is None,
        s.page is None,
{
    Select::new(Schema::Book).columns(Schema::Book, "book", false).columns(
        Schema::BookTranslation,
        "book_translation",
        true,
    ).columns(Schema::BookTranslation, "book_translation_fallback", true).columns(
        Schema::Image,
        "cover",
        true,
    ).columns(Schema::Image, "cover_fallback", true).columns(Schema::Franchise, "franchise", true)
}

/// Appends the five joins of a book query to the query's joins.
pub fn book_joins(select: Select, language: &DbLanguage, fallback_language: &DbLanguage) -> (s:
    Select)
    ensures
        s.from == select.from,
        s.count == select.count,
        s.columns == select.columns,
        s.filter == select.filter,
        s.page == select.page,
        s.joins@.len() == select.joins@.len() + 5,
        forall|i: int| 0 <= i < select.joins@.len() ==> s.joins@[i] == select.joins@[i],
        is_book_joins(
            s.joins@.subrange(select.joins@.len() as int, select.joins@.len() as int + 5),
            *language,
            *fallback_language,
        ),
{
    let ghost n = select.joins@.len();
    let s = select.left_join(
        Schema::BookTranslation,
        Some("book_translation"),
        Expression::ColumnEqual(
            column("book_translation", "fktranslation"),
            column("book", "id"),
        ).and(Expression::column_equal_language("book_translation", "language", *language)),
    ).left_join(
        Schema::BookTranslation,
        Some("book_translation_fallback"),
        Expression::ColumnEqual(
            column("book", "id"),
            column("book_translation_fallback", "fktranslation"),
        ).and(Expression::column_null("book_translation", "fktranslation")).and(
            Expression::column_equal_language(
                "book_translation_fallback",
                "language",
                *fallback_language,
            ),
        ),
    ).left_join(
        Schema::Image,
        Some("cover"),
        Expression::ColumnEqual(column("cover", "id"), column("book_translation", "fkcover")),
    ).left_join(
        Schema::Image,
        Some("cover_fallback"),
        Expression::ColumnEqual(
            column("cover_fallback", "id"),
            column("book_translation_fallback", "fkcover"),
        ),
    ).left_join(
        Schema::Franchise,
        None,
        Expression::ColumnEqual(column("book", "fkfranchise"), column("franchise", "id")),
    );
    proof {
        let added = s.joins@.subrange(n as int, n as int + 5);
        assert(added[0] == s.joins@[n as int]);
        assert(added[1] == s.joins@[n as int + 1]);
        assert(added[2] == s.joins@[n as int + 2]);
        assert(added[3] == s.joins@[n as int + 3]);
        assert(added[4] == s.joins@[n as int + 4]);
    }
    s
}

/// The books, in `language` or else in `fallback_language`.
pub fn book_select(language: &DbLanguage, fallback_language: &DbLanguage) -> (s: Select)
    ensures
        is_books_query(s, *language, *fallback_language),
        s.filter is None,
        s.page is None,
{
    let s = book_joins(book_select_columns(), language, fallback_language);
    assert(s.joins@.subrange(0, 5) =~= s.joins@);
    s
}

/// The books counted over the joins of a book query.
fn book_count(language: &DbLanguage, fallback_language: &DbLanguage) -> (s: Select)
    ensures
        is_books_count(s, *language, *fallback_language),
        s.filter is None,
        s.page is None,
{
    let s = book_joins(Select::new(Schema::Book).count(), language, fallback_language);
    assert(s.joins@.subrange(0, 5) =~= s.joins@);
    s
}

/// The image id of each row: that of its first cover where it has one, else that of its
/// second.
pub open spec fn cover_ids(covers: Seq<(Option<i32>, Option<i32>)>) -> Seq<u32> {
    Seq::new(covers.len(), |i: int| id_of(spec_fallback(covers[i].0, covers[i].1)))
}

/// The image id one row shows, as `get_by_id` asks the image repository for it: its cover's
/// id, or else its fallback cover's.
pub fn image_id(cover: Option<i32>, fallback: Option<i32>) -> (id: u32)
    requires
        cover is Some || fallback is Some,
    ensures
        id == id_of(spec_fallback(cover, fallback)),
{
    to_u32(*fallback_unwrap_ref(cover.as_ref(), fallback.as_ref()))
}

/// The image id each row shows: its cover, or else its fallback cover; one must be there.
pub fn image_ids(covers: &[(Option<i32>, Option<i32>)]) -> (ids: Vec<u32>)
    requires
        forall|i: int| 0 <= i < covers@.len() ==> (#[trigger] covers@[i]).0 is Some || covers@[i].1 is Some,
    ensures
        ids@ == cover_ids(covers@),
{
    let mut ids: Vec<u32> = Vec::new();
    let mut i: usize = 0;
    while i < covers.len()
        invariant
            i <= covers@.len(),
            forall|k: int| 0 <= k < covers@.len() ==> (#[trigger] covers@[k]).0 is Some || covers@[k].1 is Some,
            ids@.len() == i,
            forall|k: int|
                0 <= k < i ==> #[trigger] ids@[k] == id_of(spec_fallback(covers@[k].0, covers@[k].1)),
        decreases covers@.len() - i,
    {
        let (cover, fallback) = &covers[i];
        let id = *fallback_unwrap_ref(cover.as_ref(), fallback.as_ref());
        ids.push(to_u32(id));
        i = i + 1;
    }
    assert(ids@ =~= cover_ids(covers@));
    ids
}

/// The ids of the images.
pub open spec fn ids_of<I>(images: Seq<(u32, I)>) -> Seq<u32> {
    images.map_values(|p: (u32, I)| p.0)
}

/// The position of the first image with id `id` (the length if there is none).
pub open spec fn first_with<I>(images: Seq<(u32, I)>, id: u32) -> int
    decreases images.len(),
{
    if images.len() == 0 {
        0
    } else if images[0].0 == id {
        0
    } else {
        1 + first_with(images.drop_first(), id)
    }
}

/// The images taken for `covers`: for each cover in turn, the first image with its id, whose
/// place the last image then takes.
pub open spec fn taken_images<I>(covers: Seq<u32>, images: Seq<(u32, I)>) -> Seq<(u32, I)>
    decreases covers.len(),
{
    if covers.len() == 0 {
        Seq::empty()
    } else {
        let i = first_with(images, covers[0]);
        seq![images[i]] + taken_images(
            covers.drop_first(),
            images.update(i, images.last()).drop_last(),
        )
    }
}

proof fn lemma_first_with_skip<I>(images: Seq<(u32, I)>, id: u32, k: int)
    requires
        0 <= k <= images.len(),
        forall|m: int| 0 <= m < k ==> images[m].0 != id,
    ensures
        first_with(images, id) == k + first_with(images.skip(k), id),
    decreases k,
{
    if k > 0 {
        assert(images.drop_first().skip(k - 1) =~= images.skip(k));
        lemma_first_with_skip(images.drop_first(), id, k - 1);
    } else {
        assert(images.skip(0) =~= images);
    }
}

proof fn lemma_swap_remove_multiset<A>(s: Seq<A>, i: int)
    requires
        0 <= i < s.len(),
    ensures
        s.update(i, s.last()).drop_last().to_multiset() =~= s.to_multiset().remove(s[i]),
{
    broadcast use vstd::seq_lib::group_to_multiset_ensures;
    broadcast use vstd::multiset::group_multiset_axioms;

    let u = s.update(i, s.last());
    assert(u.drop_last() =~= u.remove(u.len() - 1));
    assert(u.last() == s.last());
}

proof fn lemma_ids_swap_remove<I>(s: Seq<(u32, I)>, i: int)
    requires
        0 <= i < s.len(),
    ensures
        ids_of(s.update(i, s.last()).drop_last()) =~= ids_of(s).update(i, ids_of(s).last()).drop_last(),
{
}

/// Takes, for each cover id in turn, an image with that id out of `images` (the first one,
/// after earlier takes have moved the last image into the gap). Every cover must have its
/// image: as many images of an id as covers name it.
pub fn take_images<I>(covers: &Vec<u32>, images: Vec<(u32, I)>) -> (taken: Vec<(u32, I)>)
    requires
        covers@.to_multiset().subset_of(ids_of(images@).to_multiset()),
    ensures
        taken@.len() == covers@.len(),
        forall|k: int| 0 <= k < covers@.len() ==> (#[trigger] taken@[k]).0 == covers@[k],
        taken@.to_multiset().subset_of(images@.to_multiset()),
        taken@ == taken_images(covers@, images@),
{
    broadcast use vstd::seq_lib::group_to_multiset_ensures;
    broadcast use vstd::multiset::group_multiset_axioms;

    let mut images = images;
    let ghost all = images@;
    let mut taken: Vec<(u32, I)> = Vec::new();
    let mut k: usize = 0;
    assert(covers@.skip(0) =~= covers@);
    assert(taken@ + taken_images(covers@, all) =~= taken_images(covers@, all));
    while k < covers.len()
        invariant
            k <= covers@.len(),
            taken@.len() == k,
            forall|m: int| 0 <= m < k ==> (#[trigger] taken@[m]).0 == covers@[m],
            taken@.to_multiset().add(images@.to_multiset()) == all.to_multiset(),
            covers@.skip(k as int).to_multiset().subset_of(ids_of(images@).to_multiset()),
            taken@ + taken_images(covers@.skip(k as int), images@) == taken_images(covers@, all),
        decreases covers@.len() - k,
    {
        let cover = covers[k];
        let ghost rest = covers@.skip(k as int);
        proof {
            assert(rest[0] == cover);
            assert(rest.contains(cover));
            vstd::seq_lib::to_multiset_contains(rest, cover);
            vstd::seq_lib::to_multiset_contains(ids_of(images@), cover);
            assert(rest.to_multiset().count(cover) >= 1);
            assert(ids_of(images@).to_multiset().count(cover) >= 1);
            assert(ids_of(images@).contains(cover));
        }
        let mut idx: usize = 0;
        while idx < images.len() && images[idx].0 != cover
            invariant
                idx <= images@.len(),
                forall|m: int| 0 <= m < idx ==> images@[m].0 != cover,
                ids_of(images@).contains(cover),
            decreases images@.len() - idx,
        {
            idx = idx + 1;
        }
        proof {
            if idx == images@.len() {
                let w = choose|w: int| 0 <= w < ids_of(images@).len() && ids_of(images@)[w] == cover;
                assert(images@[w].0 == cover);
            }
            lemma_first_with_skip(images@, cover, idx as int);
            assert(images@.skip(idx as int)[0] == images@[idx as int]);
            assert(first_with(images@, cover) == idx);
            assert(covers@.skip(k as int).drop_first() =~= covers@.skip(k + 1));
        }
        let ghost before = images@;
        let image = images.swap_remove(idx);
        proof {
            lemma_swap_remove_multiset(before, idx as int);
            lemma_swap_remove_multiset(ids_of(before), idx as int);
            lemma_ids_swap_remove(before, idx as int);
            assert(ids_of(before)[idx as int] == cover);
            let small = covers@.skip(k + 1).to_multiset();
            let big = ids_of(before).to_multiset();
            assert(rest =~= Seq::<u32>::empty().push(cover) + covers@.skip(k + 1));
            vstd::seq_lib::lemma_multiset_commutative(Seq::<u32>::empty().push(cover), covers@.skip(k + 1));
            vstd::seq_lib::to_multiset_build(Seq::<u32>::empty(), cover);
            vstd::seq_lib::to_multiset_len(Seq::<u32>::empty());
            vstd::multiset::lemma_multiset_empty_len(Seq::<u32>::empty().to_multiset());
            assert(Seq::<u32>::empty().to_multiset() =~= Multiset::<u32>::empty());
            assert(rest.to_multiset() =~= small.insert(cover));
            assert forall|v: u32| small.count(v) <= big.remove(cover).count(v) by {
                assert(rest.to_multiset().count(v) <= big.count(v));
            }
        }
        let ghost taken_before = taken@;
        taken.push(image);
        proof {
            assert(taken_images(rest, before) == seq![before[idx as int]] + taken_images(
                covers@.skip(k + 1),
                images@,
            ));
            assert(taken@ + taken_images(covers@.skip(k + 1), images@) =~= taken_before
                + taken_images(rest, before));
            vstd::seq_lib::to_multiset_build(taken_before, image);
            vstd::seq_lib::to_multiset_contains(before, image);
            assert(before.contains(before[idx as int]));
            assert(taken@.to_multiset().add(images@.to_multiset()) =~= taken_before.to_multiset().add(
                before.to_multiset(),
            ));
        }
        k = k + 1;
    }
    proof {
        assert forall|p: (u32, I)| taken@.to_multiset().count(p) <= all.to_multiset().count(p) by {}
        assert(covers@.skip(k as int) =~= Seq::<u32>::empty());
        assert(taken@ + Seq::<(u32, I)>::empty() =~= taken@);
    }
    taken
}

/// The cover image ids to ask the image repository for: none at all when there are no rows,
/// else the id of each row's cover, or of its fallback cover.
pub fn image_request(covers: &[(Option<i32>, Option<i32>)]) -> (r: Option<Vec<u32>>)
    requires
        forall|i: int| 0 <= i < covers@.len() ==> (#[trigger] covers@[i]).0 is Some || covers@[i].1 is Some,
    ensures
        r is None <==> covers@.len() == 0,
        r matches Some(ids) ==> ids@ == cover_ids(covers@),
{
    if covers.len() == 0 {
        None
    } else {
        Some(image_ids(covers))
    }
}

/// Gives each row its cover image: row `k` gets the image that [`take_images`] takes for the
/// `k`-th cover id, so each row is paired with an image of its own cover's id.
pub fn attach_images<B, I>(rows: Vec<B>, covers: &Vec<u32>, images: Vec<(u32, I)>) -> (r: Vec<(B, (u32, I))>)
    requires
        rows@.len() == covers@.len(),
        covers@.to_multiset().subset_of(ids_of(images@).to_multiset()),
    ensures
        r@.len() == rows@.len(),
        forall|k: int| 0 <= k < rows@.len() ==> (#[trigger] r@[k]).0 == rows@[k],
        forall|k: int| 0 <= k < rows@.len() ==> (#[trigger] r@[k]).1 == taken_images(covers@, images@)[k],
        forall|k: int| 0 <= k < rows@.len() ==> (#[trigger] r@[k]).1.0 == covers@[k],
{
    let taken = take_images(covers, images);
    let ghost all_rows = rows@;
    let ghost all_taken = taken@;
    let mut rows = rows;
    let mut taken = taken;
    let mut r: Vec<(B, (u32, I))> = Vec::new();
    assert(all_rows.skip(0) =~= all_rows);
    assert(all_taken.skip(0) =~= all_taken);
    while rows.len() > 0
        invariant
            all_rows.len() == all_taken.len(),
            r@.len() <= all_rows.len(),
            rows@ == all_rows.skip(r@.len() as int),
            taken@ == all_taken.skip(r@.len() as int),
            forall|k: int| 0 <= k < r@.len() ==> (#[trigger] r@[k]).0 == all_rows[k] && r@[k].1 == all_taken[k],
        decreases rows@.len(),
    {
        let row = rows.remove(0);
        let image = taken.remove(0);
        assert(rows@ =~= all_rows.skip(r@.len() as int + 1));
        assert(taken@ =~= all_taken.skip(r@.len() as int + 1));
        r.push((row, image));
    }
    r
}

/// The books of fetched rows with their cover images: row `k` gets the image taken (as
/// [`take_images`] takes them) for the cover that row `k`'s translation names, or else its
/// fallback translation. `translation_covers[k]` holds those two translations' cover ids.
pub fn books_with_images<B, I>(
    rows: Vec<B>,
    translation_covers: &[(Option<i32>, Option<i32>)],
    images: Vec<(u32, I)>,
) -> (r: Vec<(B, (u32, I))>)
    requires
        rows@.len() == translation_covers@.len(),
        forall|i: int|
            0 <= i < translation_covers@.len() ==> (#[trigger] translation_covers@[i]).0 is Some
                || translation_covers@[i].1 is Some,
        cover_ids(translation_covers@).to_multiset().subset_of(ids_of(images@).to_multiset()),
    ensures
        r@.len() == rows@.len(),
        forall|k: int| 0 <= k < rows@.len() ==> (#[trigger] r@[k]).0 == rows@[k],
        forall|k: int|
            0 <= k < rows@.len() ==> (#[trigger] r@[k]).1 == taken_images(
                cover_ids(translation_covers@),
                images@,
            )[k],
        forall|k: int| 0 <= k < rows@.len() ==> (#[trigger] r@[k]).1.0 == cover_ids(translation_covers@)[k],
{
    let ids = image_ids(translation_covers);
    attach_images(rows, &ids, images)
}

impl<'a, C, R> DefaultBookRepository<'a, C, R> {
    /// The language a book is read in when it has no translation in the asked one.
    pub closed spec fn spec_default_language(&self) -> DbLanguage {
        self.default_language
    }

    /// The client the books are read with.
    pub closed spec fn spec_client(&self) -> &'a C {
        self.client
    }

    /// The repository the cover images are read from.
    pub closed spec fn spec_image_repository(&self) -> R {
        self.image_repository
    }

    /// Books of `client`, falling back to `default_language`, with covers from `image_repository`.
    pub fn new(client: &'a C, default_language: Language, image_repository: R) -> (r: Self)
        ensures
            r.spec_client() == client,
            r.spec_default_language() == db_language_of(default_language),
            r.spec_image_repository() == image_repository,
    {
        DefaultBookRepository {
            client,
            default_language: DbLanguage::from(default_language),
            image_repository,
        }
    }

    /// The client the books are read with.
    pub fn client(&self) -> (c: &'a C)
        ensures
            c == self.spec_client(),
    {
        self.client
    }

    /// The repository the cover images are read from.
    pub fn image_repository(&self) -> (r: &R)
        ensures
            *r == self.spec_image_repository(),
    {
        &self.image_repository
    }

    /// What `get` asks: the number of books, and the books of page `pagination`.
    pub fn get_queries(&self, language: Language, pagination: Pagination) -> (r: (Select, Select))
        ensures
            is_books_count(r.0, db_language_of(language), self.spec_default_language()),
            r.0.filter is None,
            r.0.page is None,
            is_books_query(r.1, db_language_of(language), self.spec_default_language()),
            r.1.filter is None,
            r.1.page == Some(pagination),
    {
        let language = DbLanguage::from(language);
        let total = book_count(&language, &self.default_language);
        (total, book_select(&language, &self.default_language).pagination(pagination))
    }

    /// What `get_by_id` asks: the book with that id.
    pub fn get_by_id_query(&self, id: u32, language: Language) -> (s: Select)
        ensures
            is_books_query(s, db_language_of(language), self.spec_default_language()),
            s.filter matches Some(e) && is_int_equal(e, ("book"@, "id"@), db_id_of(id)),
            s.page is None,
    {
        let id = to_i32_id(id);
        let language = DbLanguage::from(language);
        book_select(&language, &self.default_language).where_expression(
            Expression::ValueEqual(column("book", "id"), SqlValue::Int(id)),
        )
    }

    fn title_filter(title: &str) -> (e: Expression)
        ensures
            is_title_filter(e, contains_pattern(title@)),
    {
        Expression::ValueILike(column("book_translation", "title"), like_pattern(title)).or(
            Expression::ValueILike(column("book_translation_fallback", "title"), like_pattern(title)),
        )
    }

    /// What `get_by_title` asks: the number of books whose title (in either language) holds
    /// `title`, and those of them on page `pagination`.
    pub fn get_by_title_queries(&self, title: &str, language: Language, pagination: Pagination) -> (r: (Select, Select))
        ensures
            r.0.page is None,
            r.1.page == Some(pagination),
            is_books_count(r.0, db_language_of(language), self.spec_default_language()),
            r.0.filter matches Some(e) && is_title_filter(e, contains_pattern(title@)),
            is_books_query(r.1, db_language_of(language), self.spec_default_language()),
            r.1.filter matches Some(e) && is_title_filter(e, contains_pattern(title@)),
    {
        let language = DbLanguage::from(language);
        let total = book_count(&language, &self.default_language).where_expression(
            Self::title_filter(title),
        );
        let books = book_select(&language, &self.default_language).where_expression(
            Self::title_filter(title),
        ).pagination(pagination);
        (total, books)
    }

    /// What `get_by_ids` asks: the books with those ids.
    pub fn get_by_ids_query(&self, ids: &[u32], language: Language) -> (s: Select)
        ensures
            is_books_query(s, db_language_of(language), self.spec_default_language()),
            s.filter matches Some(e) && is_in(e, ("book"@, "id"@), db_ids(ids@)),
            s.page is None,
    {
        let language = DbLanguage::from(language);
        let db = to_i32(ids);
        assert(db@ =~= db_ids(ids@));
        book_select(&language, &self.default_language).where_expression(
            Expression::ValueIn(column("book", "id"), db),
        )
    }
}

/// What `filter_existing` asks: the ids of those books that exist.
pub fn filter_existing_query(books: &[u32]) -> (s: Select)
    ensures
        s.from == Schema::Book,
        !s.count,
        s.columns@.len() == 1,
        s.columns@[0] matches crate::query::ColumnSet::Single(c) && crate::query::is_col(
            c,
            "book"@,
            "id"@,
        ),
        s.joins@.len() == 0,
        s.filter matches Some(e) && is_in(e, ("book"@, "id"@), db_ids(books@)),
        s.page is None,
{
    let ids = to_i32(books);
    assert(ids@ =~= db_ids(books@));
    Select::new(Schema::Book).column("book", "id").where_expression(
        Expression::ValueIn(column("book", "id"), ids),
    )
}

/// The existing books' ids, read back from their `i32` database ids.
pub fn existing_ids(rows: &[i32]) -> (ids: Vec<u32>)
    ensures
        ids@.len() == rows@.len(),
        forall|i: int| 0 <= i < rows@.len() ==> #[trigger] ids@[i] == id_of(rows@[i]),
{
    let mut ids: Vec<u32> = Vec::new();
    let mut i: usize = 0;
    while i < rows.len()
        invariant
            i <= rows@.len(),
            ids@.len() == i,
            forall|k: int| 0 <= k < i ==> #[trigger] ids@[k] == id_of(rows@[k]),
        decreases rows@.len() - i,
    {
        ids.push(to_u32(rows[i]));
        i = i + 1;
    }
    ids
}

} // verus!
