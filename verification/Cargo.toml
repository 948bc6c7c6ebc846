[package]
name = "juner_os"
version = "0.1.0"
edition = "2021"
publish = false

[dependencies]
hashbrown = "=0.17.1"
crossbeam-queue = "=0.3.14"
pc-keyboard = "*"
futures-util = "*"
