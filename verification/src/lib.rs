//! The decisions a graph node makes while it starts up.

pub mod argument_laws;
pub mod capabilities;
pub mod contention;
pub mod contention_laws;
pub mod decimal;
pub mod domain_laws;
pub mod domains;
pub mod indexing;
pub mod indexing_laws;
pub mod nesting;
pub mod nesting_laws;
pub mod network_args;
pub mod network_laws;
pub mod networks;
pub mod postgres;
pub mod postgres_laws;
pub mod queries;
pub mod query_laws;
pub mod settings;
pub mod settings_laws;
pub mod table_laws;
pub mod text;
pub mod text_laws;
