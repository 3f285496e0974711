[package]
name = "rgrep"
version = "0.1.0"
edition = "2021"
publish = false

[dependencies]
regex-automata = "0.4"
memmap2 = "*"
dir_rec = "*"
flager = "*"
rayon = "*"
libc = "*"
hyperscan = "*"
winapi = { version = "0.3", features = ["namedpipeapi", "handleapi"] }
