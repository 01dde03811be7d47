[package]
name = "rfc6381_codec"
version = "0.2.0"
edition = "2021"
publish = false

[dependencies]
four-cc = "*"
mp4ra-rust = "*"
mpeg4-audio-const = "*"
