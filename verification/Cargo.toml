[package]
name = "scout"
version = "0.1.0"
edition = "2021"
publish = false

[dependencies]
fuzzy-matcher = "0.3"
serde = { version = "1", features = ["derive"] }
toml = "*"
directories = "*"
libc = "0.2"
system_shutdown = "*"
gtk = "0.18"
gdk = "0.18"
gio = "0.18"
glib = "0.18"
