# book_catalog

The logic of a book catalogue service, with its contracts proved.

- `insert`: multi-row `INSERT` statements with numbered placeholders and their parameters.
- `query`, `book_repository`, `role_repository`: the queries that read books and roles in a
  language with a fallback language, one page at a time, the count of a listing, the roles of
  fetched rows, and the matching of cover images to books.
- `authorization`: the text of a header value and the bearer token of an `authorization` header.
- `row_mapping`: how a struct maps to a table row (the plan behind the row derive), and the
  query that checks a mapping against the database.
- `schemas`, `services`: rows, entities, id conversions, the service decisions, and the
  statements that add and remove a book's characters.
- `text`: decimal numerals and joining.

`app/` holds the web server, the database calls and the token-stream plumbing.
