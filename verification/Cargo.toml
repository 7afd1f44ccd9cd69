[package]
name = "seastamp"
version = "0.13.0"
edition = "2021"
publish = false

[dependencies]
clap = { version = "4", features = ["derive"] }
clap_complete = "4"
flate2 = "1"
geojson = "*"
netcdf = "*"
polars = { version = "0.43", features = ["parquet", "csv"] }
rayon = "1"
rstar = "0.12"
serde = { version = "1", features = ["derive"] }
shapefile = "*"
toml = "0.8"
