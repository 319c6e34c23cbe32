pub mod modular;
pub mod pol_utils;
pub mod poly;
