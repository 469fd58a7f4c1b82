[package]
name = "sequencer"
version = "0.1.0"
edition = "2021"
publish = false

[dependencies]
biquad = "*"
serde = { version = "1", features = ["derive"] }
serde_json = "1"
wav_io = "*"
midir = "*"
portaudio = "*"
sdl2 = "*"
embedded-graphics = "*"
embedded-graphics-simulator = "*"
