[package]
name = "dicon_nifti_formatting"
version = "0.1.0"
edition = "2021"
publish = false

[dependencies]
ndarray = "*"
nifti = { version = "*", features = ["ndarray_volumes"] }
serde = { version = "*", features = ["derive"] }
serde_json = "*"
