pub mod integer;
pub mod timestamp;
