[package]
name = "esphub"
version = "0.1.0"
edition = "2021"
publish = false

[dependencies]
heapless = "=0.8.0"
sha1 = { version = "=0.10.7", default-features = false }
base64 = { version = "=0.22.1", default-features = false }
hex = { version = "=0.4.3", default-features = false }
postcard = "=1.1.3"
serde = { version = "=1.0.229", default-features = false, features = ["derive"] }
aes = "=0.8.4"
embassy-executor = "*"
embassy-time = "*"
embassy-net = { version = "*", features = ["tcp", "udp", "dhcpv4", "proto-ipv4", "medium-ethernet"] }
embedded-io-async = "*"
esp-hal = "*"
esp-radio = "*"
esp-rtos = "*"
esp-alloc = "*"
esp-backtrace = "*"
esp-bootloader-esp-idf = "*"
esp-println = "*"
edge-dhcp = "*"
edge-nal = "*"
edge-nal-embassy = "*"
defmt = "*"
