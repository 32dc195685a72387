[package]
name = "small_site"
version = "0.1.0"
edition = "2021"
publish = false

[dependencies]
markdown = "=1.0.0"
getopts = "=0.2.24"
