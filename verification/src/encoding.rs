pub mod edge;
pub mod kind;
pub mod label;
pub mod property;
pub mod value_type;
pub mod value_type_generator;
pub mod vertex;
pub mod vertex_generator;
