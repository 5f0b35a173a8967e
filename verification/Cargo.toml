[package]
name = "cosmwasm-testing-util"
version = "0.1.0"
edition = "2021"
publish = false

[dependencies]
anyhow = "=1.0.104"
bech32 = "=0.9.1"
cosmwasm-crypto = "=1.5.11"
cosmwasm-schema = "=1.5.11"
cosmwasm-std = { version = "=1.5.11", features = ["stargate", "staking", "ibc3", "cosmwasm_1_1"] }
cosmwasm-vm = { version = "=1.5.11", features = ["stargate", "staking"] }
cw-multi-test = { version = "=0.20.1", features = ["cosmwasm_1_1"] }
cw20 = "=1.1.2"
cw20-base = "=1.1.2"
token-bindings = "=0.11.0"
osmosis-test-tube = "=24.0.1"
