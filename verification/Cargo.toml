[package]
name = "pgweasel"
version = "0.1.0"
edition = "2021"
publish = false

[dependencies]
memchr = "2"
aho-corasick = "1"
chrono = "0.4"
clap = "4"
rayon = "1"
memmap2 = "0.9"
flate2 = "1"
zip = "*"
tempfile = "3"
