[package]
name = "stc_ts_file_analyzer"
version = "0.1.0"
edition = "2021"
publish = false

[dependencies]
once_cell = "1"
swc_common = "*"
swc_ecma_ast = "*"
swc_ecma_parser = "*"
swc_ecma_transforms = "*"
swc_ecma_visit = "*"
testing = "*"
tracing = "0.1"
