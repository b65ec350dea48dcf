[package]
name = "pybundler"
version = "0.1.0"
edition = "2021"
publish = false

[dependencies]
clap = { version = "=4.6.7", features = ["derive"] }
zip = { version = "=8.6.0", default-features = false, features = ["deflate-flate2-zlib-rs"] }
ruff_linter = "=0.15.22"
ruff_python_parser = "=0.0.5"
ruff_python_ast = "=0.0.5"
ruff_python_formatter = "=0.0.5"
ruff_source_file = "=0.0.5"
ruff_text_size = "=0.0.5"
get-size2 = "=0.10.0"
