[package]
name = "wireplug"
version = "0.1.0"
edition = "2021"
publish = false

[dependencies]
anyhow = "*"
chrono = "*"
clap = { version = "*", features = ["derive"] }
colored = "*"
getifaddrs = "*"
innernet-publicip = "*"
ipnet = "=2.12.2"
libc = "*"
log = "*"
netlink-packet-core = "=0.7.0"
netlink-packet-route = "=0.21.0"
netlink-request = "=2.0.0"
rand = "*"
rustls = "*"
serde = { version = "*", features = ["derive"] }
tokio = { version = "*", features = ["full"] }
tokio-rustls = "*"
toml = "*"
webpki-roots = "*"
wireguard-control = "=2.0.0"
