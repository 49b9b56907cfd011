[package]
name = "pdf_annotations_converter"
version = "0.1.0"
edition = "2021"

[dependencies]
chrono = "*"
clap = "*"
