[package]
name = "exr"
version = "0.1.0"
edition = "2021"
publish = false

[dependencies]
lebe = "=0.5.3"
ndarray = "=0.16.1"
numcodecs = "=0.3.2"
numcodecs-jpeg2000 = "=0.3.0"
postcard = { version = "=1.1.3", default-features = false }
