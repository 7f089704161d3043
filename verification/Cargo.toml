[package]
name = "kdlfmt-core"
version = "0.2.0"
edition = "2021"
publish = false

[dependencies]
kdl = { version = "6", features = ["v1"] }
miette = "7"
thiserror = "2"
ec4rs = "1"
dashmap = "6"
rayon = "1"
clap = { version = "4", features = ["derive"] }
