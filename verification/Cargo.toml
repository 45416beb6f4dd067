[package]
name = "searchcuts"
version = "0.1.0"
edition = "2021"
publish = false

[dependencies]
arboard = { version = "=3.7.0", default-features = false }
dbus = "=0.6.5"
dotenv = "=0.15.0"
rig-core = "0.9"
tokio = { version = "1", features = ["rt-multi-thread", "macros", "time"] }
uinput = "=0.1.3"
