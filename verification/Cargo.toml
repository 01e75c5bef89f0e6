[package]
name = "vcf_to_csv"
version = "0.1.0"
edition = "2021"
publish = false

[dependencies]
csv = "1"
ical = "*"
