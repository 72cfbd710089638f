[package]
name = "ironwood"
version = "0.1.0"
edition = "2021"
publish = false

[dependencies]
bytes = "=1.12.1"
corez = "=0.1.1"
incrementalmerkletree = "=0.9.0"
jubjub = "=0.11.1"
nonempty = "=0.11.0"
orchard = "=0.16.0"
prost = "=0.14.4"
rand = "=0.10.3"
rand_core = "=0.10.1"
rusqlite = { version = "=0.37.0", features = ["bundled"] }
sapling-crypto = "=0.9.0"
schemerz = "=0.3.0"
schemerz-rusqlite = "=0.371.0"
subtle = "=2.6.1"
tracing = "=0.1.44"
uuid = "=1.29.0"
zcash_encoding = "=0.5.0"
zcash_note_encryption = "=0.5.1"
zcash_protocol = "=0.11.0"
zcash_transparent = "=0.11.0"

[dev-dependencies]
zip32 = "=0.3.0"
