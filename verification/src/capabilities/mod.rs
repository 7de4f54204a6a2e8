pub mod permissions;
pub mod types;
