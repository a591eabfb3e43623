[package]
name = "datastore_entity"
version = "0.1.0"
edition = "2021"
publish = false

[dependencies]
google-datastore1 = "*"
async-trait = "*"
