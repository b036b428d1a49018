[package]
name = "rocolatey_lib"
version = "0.9.3"
edition = "2021"
publish = false

[dependencies]
clap = "=4.6.7"
glob = "=0.3.4"
http-auth-basic = "=0.3.7"
indicatif = "=0.18.6"
num_cpus = "=1.17.0"
quick-xml = "=0.30.0"
regex = "=1.13.1"
reqwest = "=0.13.5"
serde = { version = "=1.0.229", features = ["derive"] }
serde_json = "=1.0.151"
tokio = { version = "=1.53.2", features = ["full"] }
url = "=2.5.8"
warp = { version = "=0.4.3", features = ["server"] }
zip = "=8.6.0"
