[package]
name = "todo_app"
version = "0.1.0"
edition = "2021"
publish = false

[dependencies]
anyhow = "1"
bcrypt = "*"
crossterm = "*"
rpassword = "*"
rusqlite = "*"
serde_json = { version = "1", features = ["preserve_order"] }
