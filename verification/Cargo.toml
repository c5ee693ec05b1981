[package]
name = "tui_tiling"
version = "0.1.0"
edition = "2021"
publish = false

[dependencies]
crossterm = "0.25"
tui = "0.19"
crossbeam = "0.8"
backtrace = "0.3"
