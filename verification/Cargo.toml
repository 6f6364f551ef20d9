[package]
name = "tasktree"
version = "0.1.0"
edition = "2021"
publish = false

[dependencies]
uuid = "*"
regex = "*"
chrono = "*"
serde = { version = "*", features = ["derive"] }
serde_json = "*"
task-hookrs = "*"
gtk = "*"
gdk = "*"
glib = "*"
