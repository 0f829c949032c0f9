[package]
name = "atomic_neural_transistors"
version = "0.1.0"
edition = "2021"
publish = false

[dependencies]
ternsig = "=0.4.0"
thiserror = "=2.0.21"
candle-core = "=0.11.0"
candle-nn = "=0.11.0"
safetensors = "=0.8.0"
