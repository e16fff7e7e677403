[package]
name = "icp_bd_backend"
version = "0.1.0"
edition = "2021"
publish = false

[dependencies]
async-trait = "=0.1.92"
bigdecimal = "=0.3.1"
candid = "=0.7.18"
ic-cdk = "=0.5.7"
ic-cdk-macros = "=0.5.7"
ic-cron = "=0.7.1"
ic-ledger-types = "=0.1.2"
serde = "1"
