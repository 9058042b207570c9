[package]
name = "relayer_game"
version = "0.1.0"
edition = "2021"
publish = false

[dependencies]
sp-runtime = "=2.0.1"
sp-std = "=2.0.1"
frame-support = "=2.0.1"
frame-system = "=2.0.1"
parity-scale-codec = { version = "=1.3.7", features = ["derive"] }
pallet-balances = "=2.0.1"
pallet-timestamp = "=2.0.1"
pallet-randomness-collective-flip = "=2.0.1"
substrate-bip39 = "=0.4.2"
syn = "=1.0.58"
