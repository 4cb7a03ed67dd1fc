pub mod chunk;
pub mod history;
pub mod protocol;
pub mod session;
pub mod world;
