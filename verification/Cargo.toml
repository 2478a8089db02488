[package]
name = "fri_pcs"
version = "0.1.0"
edition = "2021"
publish = false

[dependencies]
itertools = "=0.14.0"
p3-baby-bear = "=0.5.4"
p3-challenger = "=0.5.4"
p3-commit = "=0.5.4"
p3-dft = "=0.5.4"
p3-field = "=0.5.4"
p3-interpolation = "=0.5.4"
p3-matrix = "=0.5.4"
p3-maybe-rayon = "=0.5.4"
p3-util = "=0.5.4"
tracing = "=0.1.44"
