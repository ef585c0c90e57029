[package]
name = "ratatui_vault"
version = "0.1.0"
edition = "2021"
publish = false

[dependencies]
argon2 = "=0.5.3"
chacha20poly1305 = "=0.10.1"
rand_chacha = { version = "=0.9.0", features = ["os_rng"] }
diff = "=0.1.13"
linux-keyutils = { version = "=0.2.5", features = ["std"] }
ratatui-core = "=0.1.2"
ratatui-crossterm = "=0.1.2"
ratatui-widgets = "=0.3.2"
ratatui-textarea = { version = "=0.9.4", features = ["search"] }
