[package]
name = "ringdb"
version = "0.1.0"
edition = "2021"
publish = false

[dependencies]
async-trait = "0.1"
bincode = "2"
bytes = "1"
core_affinity = "*"
crossbeam = "0.8"
futures = "0.3"
local-sync = "*"
monoio = "0.2"
rustyline = "*"
