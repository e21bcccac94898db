[package]
name = "cred_broker"
version = "0.1.0"
edition = "2021"
publish = false

[dependencies]
aws-config = "*"
aws-sdk-s3 = "*"
aws-sdk-sts = "*"
aws-types = "*"
dotenv = "*"
rpassword = "*"
tokio = { version = "*", features = ["rt-multi-thread", "macros"] }
