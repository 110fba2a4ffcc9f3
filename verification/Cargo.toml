[package]
name = "orchid_ls"
version = "0.1.0"
edition = "2021"
publish = false

[dependencies]
anyhow = "=1.0.104"
hashbrown = "=0.14.5"
intern-all = "=0.4.1"
itertools = "=0.12.1"
orchidlang = "=0.3.0"
ordered-float = "=4.6.0"
serde = "=1.0.229"
serde_json = "=1.0.151"
substack = "=1.1.1"
take_mut = "=0.2.2"
url = "=2.5.8"
urlencoding = "=2.1.3"
