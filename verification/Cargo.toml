[package]
name = "scheme_lexer"
version = "0.1.0"
edition = "2021"
publish = false

[dependencies]
unicode_categories = "=0.1.1"
rug = { version = "=1.19.2", default-features = false, features = ["integer"] }
gmp-mpfr-sys = { version = "=1.5.3", default-features = false, features = ["use-system-libs"] }
nom = "=7.1.3"
nom_locate = "=4.2.0"
