[package]
name = "anagrams"
version = "0.1.0"
edition = "2021"
publish = false

[dependencies]
memchr = "2"
memcmp = "*"
memmap = "0.7"
num_cpus = "1"
