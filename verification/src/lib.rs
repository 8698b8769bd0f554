pub mod analysis;
pub mod mcp;
pub mod owl;
pub mod text;
