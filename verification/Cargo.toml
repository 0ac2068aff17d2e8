[package]
name = "fluent_resmgr"
version = "0.1.0"
edition = "2021"
publish = false

[dependencies]
elsa = "=1.11.2"
fluent-bundle = "=0.15.3"
fluent-fallback = "=0.4.0"
fluent-langneg = "=0.13.1"
futures = "=0.3.34"
intl-memoizer = "=0.5.3"
intl_pluralrules = "=7.0.2"
unic-langid = "=0.9.6"
