[package]
name = "pointproofs_paramgen"
version = "0.1.0"
edition = "2021"
publish = false

[dependencies]
pairing-plus = "=0.18.0"
ff-zeroize = "=0.6.3"
sha2 = "=0.8.2"
bigint = "=4.4.3"
rand = "=0.8.8"
zeroize = "=1.9.1"
atoi = "=3.1.0"
