pub mod extension;
pub mod registry;
pub mod processor;
