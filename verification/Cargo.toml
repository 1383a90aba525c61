[package]
name = "osdi_backend"
version = "0.1.0"
edition = "2021"
publish = false

[dependencies]
anyhow = "=1.0.104"
camino = "=1.2.6"
clap = "=4.6.7"
directories-next = "=2.0.0"
lasso = "=0.7.3"
rayon-core = "=1.13.0"
termcolor = "=1.4.1"
typed-index-collections = "=3.5.0"
