//! Roles, read in a language with a fallback language.
use vstd::prelude::*;

use crate::query::{
    contains_pattern, is_column_equal, is_ilike, is_in, is_int_equal, is_language_equal, is_null,
    joins_as, like_pattern, reads_record, column, Expression, Pagination, Schema, Select,
};
use crate::schemas::{
    db_id_of, db_language_of, fallback_unwrap, id_of, language_of, spec_fallback, to_i32_id,
    DbLanguage, DbRole, DbRoleTranslation, Language, Role,
};

verus! {

/// The roles of a connection pool `P`.
pub struct DefaultRoleRepository<'a, P> {
    pool: &'a P,
    default_language: DbLanguage,
}

/// `s` reads a role with its translation and its fallback translation.
pub open spec fn is_role_select(s: Select) -> bool {
    &&& s.from == Schema::Role
    &&& !s.count
    &&& s.columns@.len() == 3
    &&& reads_record(s.columns@[0], Schema::Role, "role"@, false)
    &&& reads_record(s.columns@[1], Schema::RoleTranslation, "role_translation"@, true)
    &&& reads_record(s.columns@[2], Schema::RoleTranslation, "role_translation_fallback"@, true)
    &&& s.joins@.len() == 0
    &&& s.filter is None
    &&& s.page is None
}

/// `j` joins the translation of the role in `language`.
pub open spec fn is_translation_join(j: crate::query::Join, language: DbLanguage) -> bool {
    &&& joins_as(j, Schema::RoleTranslation, Some("role_translation"@))
    &&& j.on matches Expression::And(a, b)
    &&& is_language_equal(*a, ("role_translation"@, "language"@), language)
    &&& is_column_equal(*b, ("role_translation"@, "fktranslation"@), ("role"@, "id"@))
}

/// `j` joins the translation in `fallback`, only where the role has none in the asked language.
pub open spec fn is_fallback_join(j: crate::query::Join, fallback: DbLanguage) -> bool {
    &&& joins_as(j, Schema::RoleTranslation, Some("role_translation_fallback"@))
    &&& j.on matches Expression::And(ab, c)
    &&& *ab matches Expression::And(a, b)
    &&& is_language_equal(*a, ("role_translation_fallback"@, "language"@), fallback)
    &&& is_column_equal(*b, ("role_translation_fallback"@, "fktranslation"@), ("role"@, "id"@))
    &&& is_null(*c, ("role_translation"@, "fktranslation"@))
}

/// `s` is `base` with the two translation joins appended.
pub open spec fn is_joined(s: Select, base: Select, language: DbLanguage, fallback: DbLanguage) -> bool {
    &&& s.from == base.from
    &&& s.count == base.count
    &&& s.columns == base.columns
    &&& s.filter == base.filter
    &&& s.page == base.page
    &&& s.joins@.len() == base.joins@.len() + 2
    &&& forall|i: int| 0 <= i < base.joins@.len() ==> s.joins@[i] == base.joins@[i]
    &&& is_translation_join(s.joins@[base.joins@.len() as int], language)
    &&& is_fallback_join(s.joins@[base.joins@.len() as int + 1], fallback)
}

/// `s` reads the roles, in `language` or else in `fallback`.
pub open spec fn is_roles_query(s: Select, language: DbLanguage, fallback: DbLanguage) -> bool {
    &&& s.from == Schema::Role
    &&& s.columns@.len() == 3
    &&& reads_record(s.columns@[0], Schema::Role, "role"@, false)
    &&& reads_record(s.columns@[1], Schema::RoleTranslation, "role_translation"@, true)
    &&& reads_record(s.columns@[2], Schema::RoleTranslation, "role_translation_fallback"@, true)
    &&& s.joins@.len() == 2
    &&& is_translation_join(s.joins@[0], language)
    &&& is_fallback_join(s.joins@[1], fallback)
}

/// The columns of a role query: the role, its translation and its fallback translation.
pub fn role_select_columns() -> (s: Select)
    ensures
        is_role_select(s),
{
    Select::new(Schema::Role).columns(Schema::Role, "role", false).columns(
        Schema::RoleTranslation,
        "role_translation",
        true,
    ).columns(Schema::RoleTranslation, "role_translation_fallback", true)
}

/// The role of a row: named in its translation, or else in its fallback translation.
pub fn to_entity(role: (DbRole, Option<DbRoleTranslation>, Option<DbRoleTranslation>)) -> (r: Role)
    requires
        role.1 is Some || role.2 is Some,
    ensures
        r.id == id_of(role.0.id),
        r.name == spec_fallback(role.1, role.2).name,
        r.language == language_of(spec_fallback(role.1, role.2).language),
{
    let (db_role, translation, fallback) = role;
    db_role.to_entity(fallback_unwrap(translation, fallback))
}

/// The columns a role query reads: the role, its translation and its fallback translation.
pub type RoleColumns = (DbRole, Option<DbRoleTranslation>, Option<DbRoleTranslation>);

/// `r` is the role that `row` stands for.
pub open spec fn is_role_of(r: Role, row: RoleColumns) -> bool {
    &&& r.id == id_of(row.0.id)
    &&& r.name == spec_fallback(row.1, row.2).name
    &&& r.language == language_of(spec_fallback(row.1, row.2).language)
}

/// The roles of fetched rows, in order; every row has a translation or a fallback one.
pub fn roles_from_rows(rows: Vec<RoleColumns>) -> (roles: Vec<Role>)
    requires
        forall|i: int| 0 <= i < rows@.len() ==> (#[trigger] rows@[i]).1 is Some || rows@[i].2 is Some,
    ensures
        roles@.len() == rows@.len(),
        forall|i: int| 0 <= i < rows@.len() ==> is_role_of(#[trigger] roles@[i], rows@[i]),
{
    let ghost all = rows@;
    let mut rows = rows;
    let mut roles: Vec<Role> = Vec::new();
    assert(all.skip(0) =~= all);
    while rows.len() > 0
        invariant
            roles@.len() <= all.len(),
            rows@ == all.skip(roles@.len() as int),
            forall|i: int| 0 <= i < all.len() ==> (#[trigger] all[i]).1 is Some || all[i].2 is Some,
            forall|i: int| 0 <= i < roles@.len() ==> is_role_of(#[trigger] roles@[i], all[i]),
        decreases rows@.len(),
    {
        let row = rows.remove(0);
        assert(row == all[roles@.len() as int]);
        assert(rows@ =~= all.skip(roles@.len() as int + 1));
        roles.push(to_entity(row));
    }
    roles
}

impl<'a, P> DefaultRoleRepository<'a, P> {
    /// The pool the roles are read from.
    pub closed spec fn spec_pool(&self) -> &'a P {
        self.pool
    }

    /// The language a role is read in when it has no translation in the asked one.
    pub closed spec fn spec_default_language(&self) -> DbLanguage {
        self.default_language
    }

    /// Roles of `pool`, falling back to `language`.
    pub fn new(pool: &'a P, language: Language) -> (r: Self)
        ensures
            r.spec_pool() == pool,
            r.spec_default_language() == db_language_of(language),
    {
        DefaultRoleRepository { pool, default_language: DbLanguage::from(language) }
    }

    /// The pool the roles are read from.
    pub fn pool(&self) -> (p: &'a P)
        ensures
            p == self.spec_pool(),
    {
        self.pool
    }

    /// Joins the translation in `language` and, where there is none, the one in the default
    /// language.
    pub fn role_joins(&self, select: Select, language: &DbLanguage) -> (s: Select)
        ensures
            is_joined(s, select, *language, self.spec_default_language()),
    {
        let ghost base = select;
        let s = select.left_join(
            Schema::RoleTranslation,
            Some("role_translation"),
            Expression::column_equal_language("role_translation", "language", *language).and(
                Expression::ColumnEqual(column("role_translation", "fktranslation"), column("role", "id")),
            ),
        );
        let s = s.left_join(
            Schema::RoleTranslation,
            Some("role_translation_fallback"),
            Expression::column_equal_language(
                "role_translation_fallback",
                "language",
                self.default_language,
            ).and(
                Expression::ColumnEqual(
                    column("role_translation_fallback", "fktranslation"),
                    column("role", "id"),
                ),
            ).and(Expression::column_null("role_translation", "fktranslation")),
        );
        s
    }

    fn roles(&self, language: Language) -> (s: Select)
        ensures
            is_roles_query(s, db_language_of(language), self.spec_default_language()),
            !s.count,
            s.filter is None,
            s.page is None,
    {
        let language = DbLanguage::from(language);
        self.role_joins(role_select_columns(), &language)
    }

    /// What `get` asks: the number of roles, and the roles of page `pagination`.
    pub fn get_queries(&self, language: Language, pagination: Pagination) -> (r: (Select, Select))
        ensures
            is_roles_query(r.0, db_language_of(language), self.spec_default_language()),
            r.0.count,
            r.0.filter is None,
            r.0.page is None,
            is_roles_query(r.1, db_language_of(language), self.spec_default_language()),
            !r.1.count,
            r.1.filter is None,
            r.1.page == Some(pagination),
    {
        (self.roles(language).count(), self.roles(language).pagination(pagination))
    }

    /// What `get_by_id` asks: the role with that id.
    pub fn get_by_id_query(&self, id: u32, language: Language) -> (s: Select)
        ensures
            is_roles_query(s, db_language_of(language), self.spec_default_language()),
            !s.count,
            s.filter matches Some(e) && is_int_equal(e, ("role"@, "id"@), db_id_of(id)),
            s.page is None,
    {
        let id = to_i32_id(id);
        self.roles(language).where_expression(Expression::ValueEqual(column("role", "id"), crate::query::SqlValue::Int(id)))
    }

    /// What `get_by_ids` asks: the roles with those ids.
    pub fn get_by_ids_query(&self, ids: &[i32], language: Language) -> (s: Select)
        ensures
            is_roles_query(s, db_language_of(language), self.spec_default_language()),
            !s.count,
            s.filter matches Some(e) && is_in(e, ("role"@, "id"@), ids@),
            s.page is None,
    {
        let ids = vstd::slice::slice_to_vec(ids);
        self.roles(language).where_expression(Expression::ValueIn(column("role", "id"), ids))
    }

    /// What `get_by_name` asks: the number of roles whose name (in either language) holds
    /// `name`, and those of them on page `pagination`.
    pub fn get_by_name_queries(&self, name: &str, language: Language, pagination: Pagination) -> (r: (Select, Select))
        ensures
            r.0.page is None,
            r.1.page == Some(pagination),
            is_roles_query(r.0, db_language_of(language), self.spec_default_language()),
            r.0.count,
            is_roles_query(r.1, db_language_of(language), self.spec_default_language()),
            !r.1.count,
            r.0.filter matches Some(e) && is_name_filter(e, contains_pattern(name@)),
            r.1.filter matches Some(e) && is_name_filter(e, contains_pattern(name@)),
    {
        let count = self.roles(language).where_expression(Self::name_filter(name)).count();
        let rows = self.roles(language).where_expression(Self::name_filter(name)).pagination(
            pagination,
        );
        (count, rows)
    }

    fn name_filter(name: &str) -> (e: Expression)
        ensures
            is_name_filter(e, contains_pattern(name@)),
    {
        Expression::ValueILike(column("role_translation", "name"), like_pattern(name)).or(
            Expression::ValueILike(column("role_translation_fallback", "name"), like_pattern(name)),
        )
    }
}

/// `e` says that the name, in the asked or in the fallback language, matches `pattern`.
pub open spec fn is_name_filter(e: Expression, pattern: Seq<char>) -> bool {
    &&& e matches Expression::Or(a, b)
    &&& is_ilike(*a, ("role_translation"@, "name"@), pattern)
    &&& is_ilike(*b, ("role_translation_fallback"@, "name"@), pattern)
}

} // verus!
