[package]
name = "sched"
version = "0.1.0"
edition = "2021"
publish = false

[dependencies]
chrono = "=0.4.45"
regex = "=1.13.1"
bson = "=1.2.4"
mongodb = { version = "=1.2.5", default-features = false, features = ["sync"] }
clap = "=2.34.0"
dirs = "=3.0.2"
gluon = "=0.18.4"
gluon_codegen = "=0.18.4"
lazy_static = "=1.5.1"
rlua = "=0.17.1"
rustyline = "=6.3.0"
serde = { version = "=1.0.229", features = ["derive"] }
serde_derive = "=1.0.229"
thiserror = "=1.0.69"
