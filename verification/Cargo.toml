[package]
name = "kairos_ecs"
version = "0.1.0"
edition = "2021"
publish = false

[dependencies]
fixedbitset = "0.5"
smallvec = "1"
indexmap = "2"
slotmap = "1"
