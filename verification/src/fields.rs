pub mod fq12_u64;
pub mod fq2;
