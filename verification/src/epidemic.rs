pub mod address;
pub mod cluster_config;
pub mod host_key;
pub mod member;
pub mod order;
pub mod time;
pub mod wire;
