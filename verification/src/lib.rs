//! Query text, request parsing and row mapping for a book catalogue service.
pub mod authorization;
pub mod book_repository;
pub mod insert;
pub mod query;
pub mod role_repository;
pub mod row_mapping;
pub mod schemas;
pub mod services;
pub mod text;
