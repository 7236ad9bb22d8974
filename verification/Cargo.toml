[package]
name = "datagraph"
version = "0.1.0"
edition = "2021"
publish = false

[dependencies]
nanoid = "0.4"
rand = "0.8"
serde = { version = "1", features = ["derive"] }
serde-wasm-bindgen = "0.6"
tsify-next = { version = "0.5", features = ["js"] }
wasm-bindgen = "0.2"
js-sys = "0.3"
web-sys = { version = "0.3", features = ["AudioContext", "BaseAudioContext", "AudioNode", "AudioDestinationNode", "AudioWorkletNode", "AudioWorkletNodeOptions", "MessagePort", "MessageEvent", "EventTarget"] }
console_error_panic_hook = "0.1"
console_log = "1"
cpal = "*"
