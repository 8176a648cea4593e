[package]
name = "snmp2"
version = "0.1.0"
edition = "2021"
publish = false

[dependencies]
asn1-rs = "*"
rasn = "*"
rasn-snmp = "*"
