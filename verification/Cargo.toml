[package]
name = "texteditor_plugin"
version = "0.1.0"
edition = "2021"
publish = false

[dependencies]
async-trait = "0.1"
serde_json = "=1.0.154"
sicompass-pdk = "=0.6.0"
sicompass-sdk = "=0.9.9"
trash = "=5.2.9"
