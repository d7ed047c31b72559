[package]
name = "ip_network"
version = "0.1.0"
edition = "2021"
publish = false

[dependencies]
serde = "=1.0.229"
ip_network_table-deps-treebitmap = "*"
