[package]
name = "rxfill"
version = "0.1.0"
edition = "2021"
publish = false

[dependencies]
sea-orm = { version = "*", default-features = false, features = ["macros", "with-time"] }
sea-orm-migration = { version = "*", default-features = false }
async-trait = "*"
thiserror = "*"
time = "*"
