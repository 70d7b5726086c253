[package]
name = "quadratic_voting"
version = "0.1.0"
edition = "2021"
publish = false
