[package]
name = "bedrock_cracker"
version = "0.1.0"
edition = "2021"
publish = false

[dependencies]
java_random = "*"
next_long_reverser = "*"
opencl3 = "*"
