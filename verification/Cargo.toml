[package]
name = "wino"
version = "0.1.0"
edition = "2021"
publish = false

[dependencies]
atom_syndication = "*"
rss = "*"
chrono = "*"
