pub mod intersect;
pub mod scatter;
