[package]
name = "gent_kern"
version = "0.1.0"
edition = "2021"
publish = false

[dependencies]
vmem = { version = "=1.0.0", default-features = false }
psf2 = "=0.4.0"
bitfield = "=0.20.0"
bitflags = "=2.13.2"
limine = "=0.1.12"
acpi = "=4.1.1"
aml = "=0.16.4"
log = "=0.4.35"
spin = "=0.9.9"
linked_list_allocator = "=0.10.6"
