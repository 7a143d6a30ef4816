[package]
name = "rumqttc"
version = "0.25.1"
edition = "2021"
publish = false

[dependencies]
bytes = "1.5"
fixedbitset = "0.5"
thiserror = "2.0"
