[package]
name = "book_catalog"
version = "0.1.0"
edition = "2021"
publish = false

[dependencies]
tokio-postgres = "0.7"
async-trait = "0.1"
axum = { version = "0.7", default-features = false }
actix-web = { version = "4", default-features = false, features = ["macros"] }
tokio = { version = "1", features = ["macros", "rt-multi-thread"] }
syn = { version = "2", features = ["full"] }
quote = "1"
proc-macro2 = "1"
serde = { version = "1", features = ["derive"] }
