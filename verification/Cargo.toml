[package]
name = "nex"
version = "0.1.0"
edition = "2021"
publish = false

[dependencies]
sha2 = "=0.10.9"
pbkdf2 = "=0.12.2"
argon2 = "=0.5.3"
aes = "=0.8.4"
xts-mode = "=0.5.1"
base64 = "=0.22.1"
hex = "=0.4.3"
serde = { version = "=1.0.229", features = ["derive"] }
serde_json = "=1.0.154"
serde_yaml = "=0.9.34"
clap = { version = "=4.6.7", features = ["derive"] }
walkdir = "=2.5.0"
goblin = "=0.10.7"
gvariant = "=0.5.1"
uefi = "=0.41.0"
ext4-view = "=1.0.0"
petgraph = "*"
rayon = "1"
num_cpus = "1"
tempfile = "3"
nix = "*"
