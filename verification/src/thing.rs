pub mod value;
