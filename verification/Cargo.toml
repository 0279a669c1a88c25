[package]
name = "orbterm"
version = "0.3.6"
edition = "2021"
publish = false

[dependencies]
failure = "=0.1.8"
libc = "=0.2.191"
libredox = "=0.1.25"
orbclient = "=0.3.55"
orbfont = "=0.1.12"
ransid = "=0.5.0"
redox_event = "=0.4.8"
redox_termios = "=0.1.4"
serde = "=1.0.229"
serde_derive = "=1.0.229"
toml = "=0.5.11"
xdg = "=2.5.2"
