[package]
name = "rnix_lsp"
version = "0.1.0"
edition = "2021"
publish = false

[dependencies]
dirs = "*"
env_logger = "*"
itertools = "0.10"
libc = "0.2"
log = "0.4"
lsp-server = "*"
lsp-types = "0.94"
manix = "*"
nixpkgs-fmt = "*"
regex = "1"
rnix = "0.10"
serde = "1"
serde_json = "1"
xdg = "*"
