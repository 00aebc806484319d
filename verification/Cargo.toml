[package]
name = "qtv_vm"
version = "0.1.0"
edition = "2021"
publish = false

[dependencies]
arbitrary = "=1.4.2"
sha3 = "=0.10.9"
ml-dsa = "=0.1.2"
slh-dsa = "=0.1.0"
ml-kem = "=0.3.4"
signature = "=2.3.0-pre.4"
hybrid-array = "=0.2.0-rc.8"
