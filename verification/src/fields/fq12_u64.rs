pub mod circuit;
