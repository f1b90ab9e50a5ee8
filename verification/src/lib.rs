pub mod assoc;
pub mod authenticated;
pub mod clock;
pub mod cookie;
pub mod data;
pub mod endpoints;
pub mod errors;
pub mod hashing;
pub mod in_memory;
pub mod matcher;
pub mod math;
pub mod parse;
pub mod path;
pub mod persistent_storage_provider;
pub mod random;
pub mod session;
pub mod sessions;
pub mod status;
pub mod temporary_storage_provider;
pub mod text;
pub mod user;
pub mod user_agent;
