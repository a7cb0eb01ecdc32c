//! Extraction and type-inference pipeline for Keycloak's generated REST API
//! reference: locate the schema sections of the documentation page, read each
//! property's declared textual type, and map that free-text notation onto a
//! structured type model.

pub mod extract;
pub mod resolver;
pub mod schema;
pub mod types;

pub use extract::parse_schemas;
pub use resolver::enum_type;
pub use resolver::parse_type;
pub use schema::PropertyRow;
pub use schema::Schema;
pub use schema::SchemaMap;
pub use schema::SchemaSection;
pub use schema::parse_schema;
pub use schema::parse_sections;

pub use types::IntegerFormat;
pub use types::NumberFormat;
pub use types::SchemaType;
pub use types::TypeModel;
