pub mod constants;
pub mod fields;
pub mod modular;
