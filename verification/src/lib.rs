pub mod address;
pub mod asset_token;
pub mod compliance;
pub mod dividend;
pub mod keyed_map;
pub mod registry;
pub mod seq_facts;
pub mod text;
