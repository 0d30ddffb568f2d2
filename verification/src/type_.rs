pub mod annotation;
pub mod attribute_type;
pub mod consistency;
pub mod entity_type;
pub mod existence;
pub mod hierarchy;
pub mod object_type;
pub mod owns;
pub mod plays;
pub mod relates;
pub mod relation_type;
pub mod role_type;
pub mod schema;
pub mod symmetry;
pub mod type_cache;
pub mod type_decoder;
pub mod type_encoder;
pub mod type_manager;
