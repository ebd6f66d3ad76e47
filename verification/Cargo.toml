[package]
name = "message_board"
version = "0.1.0"
edition = "2021"
publish = false

[dependencies]
url = "*"
serde_json = "*"
bytes = "*"
http-body-util = "*"
hyper = { version = "*", features = ["server", "http1"] }
hyper-util = { version = "*", features = ["tokio"] }
maud = "*"
sqlx = { version = "*", default-features = false, features = ["mysql", "runtime-tokio"] }
tokio = { version = "*", features = ["rt-multi-thread", "net", "macros"] }
dotenv = "*"
