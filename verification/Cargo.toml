[package]
name = "edmgutil"
version = "0.1.0"
edition = "2021"
publish = false

[dependencies]
anyhow = "*"
chrono = "*"
clap = "2"
dialoguer = "*"
directories = "*"
plist = "*"
serde = { version = "*", features = ["derive"] }
structopt = "0.3"
url = "*"
uuid = { version = "*", features = ["v4"] }
which = "*"
xattr = "*"
