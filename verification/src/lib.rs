pub mod ir;
pub mod vm;
