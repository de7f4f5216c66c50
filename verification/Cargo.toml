[package]
name = "mailviewer-kde"
version = "0.1.0"
edition = "2021"
publish = false

[dependencies]
cxx-qt = "*"
cxx-qt-lib = "*"
gio = "*"
glib = "*"
gmime = "*"
