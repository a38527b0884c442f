pub mod bar;
pub mod bounds;
pub mod crop;
pub mod iter;
pub mod marker;
pub mod plot;
pub mod stream;
