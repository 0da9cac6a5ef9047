[package]
name = "bam_qc"
version = "0.1.0"
edition = "2021"
publish = false

[dependencies]
clap = "2"
rust-htslib = "*"
serde = "*"
serde_derive = "*"
serde_json = "*"
