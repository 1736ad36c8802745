[package]
name = "overload_eval"
version = "0.1.0"
edition = "2021"
publish = false

[dependencies]
itertools = "=0.14.0"
starlark_map = "=0.14.2"
vec1 = "=1.12.1"
