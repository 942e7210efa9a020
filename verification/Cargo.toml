[package]
name = "parsed_to_plot"
version = "0.1.0"
edition = "2021"
publish = false

[dependencies]
id_tree = "*"
plotters = "*"
