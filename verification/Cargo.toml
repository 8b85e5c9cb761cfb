[package]
name = "file-parser"
version = "0.1.0"
edition = "2021"
publish = false

[dependencies]
regex = "1"
anyhow = "1"
clap = { version = "4", features = ["derive"] }
ctrlc = "3"
eframe = { version = "0.29", default-features = false, features = ["default_fonts", "glow", "x11"] }
indicatif = "0.17"
libc = "0.2"
memmap2 = "0.9"
rayon = "1"
ureq = { version = "2", default-features = false, features = ["tls"] }
windows-sys = { version = "0.52", features = ["Win32_Foundation", "Win32_Storage_FileSystem"] }
