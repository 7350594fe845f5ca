[package]
name = "module_manager"
version = "0.1.0"
edition = "2021"
publish = false

[dependencies]
color-print = "*"
exitfailure = "*"
failure = "*"
fs_extra = "*"
log = "*"
regex = "*"
rustpython-parser = "*"
structopt = "*"
walkdir = "*"
