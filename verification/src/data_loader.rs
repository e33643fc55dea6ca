//! Loaders that read one well-known table each.

pub mod material_loader;
