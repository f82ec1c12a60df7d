[package]
name = "ethers_erc20balances"
version = "0.1.0"
edition = "2021"
publish = false

[dependencies]
async-trait = "0.1"
auto_impl = "1"
ethers = { version = "2.0", default-features = false, features = ["abigen"] }
