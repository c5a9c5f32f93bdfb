[package]
name = "cosmic-ext-applet-sysmon"
version = "0.1.0"
edition = "2021"
publish = false

[dependencies]
sysinfo = "=0.33.1"
nvml-wrapper = "=0.13.0"
