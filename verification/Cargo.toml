[package]
name = "poly_gadgets"
version = "0.1.0"
edition = "2021"
publish = false

[dependencies]
p3-air = "=0.2.0"
p3-challenger = "=0.2.0"
p3-circle = "=0.2.0"
p3-commit = "=0.2.0"
p3-field = "=0.2.0"
p3-fri = "=0.2.0"
p3-keccak = "=0.2.0"
p3-matrix = "=0.2.0"
p3-merkle-tree = "=0.2.0"
p3-mersenne-31 = "=0.2.0"
p3-symmetric = "=0.2.0"
p3-uni-stark = "=0.2.0"
tracing-forest = { version = "=0.1.6", features = ["ansi", "smallvec"] }
tracing-subscriber = { version = "=0.3.23", features = ["std", "env-filter"] }

[dev-dependencies]
rand = "=0.8.8"
