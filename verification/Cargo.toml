[package]
name = "ev_charging_gaps"
version = "0.1.0"
edition = "2021"
publish = false

[dependencies]
clap = { version = "=4.6.7", features = ["derive", "env"] }
csv = "=1.4.0"
geo = "=0.33.1"
num_cpus = "=1.17.0"
quadtree-f32 = "=0.5.0"
rayon = "=1.12.0"
reqwest = { version = "=0.13.5", default-features = false, features = ["blocking"] }
serde = { version = "=1.0.229", features = ["derive"] }
serde_json = "=1.0.151"
shapefile = "=0.9.0"
