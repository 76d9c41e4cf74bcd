[package]
name = "qioc"
version = "0.1.0"
edition = "2021"
publish = false

[dependencies]
downcast = "=0.11.0"
qdowncast = "=0.1.0"
qindex_multi = "=0.3.0"
