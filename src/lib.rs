//! Procedural placement and sprite preparation: a seeded random engine, a
//! scatter generator that places well-separated points in an annulus, an
//! opaque-bounds crop engine and a drop-shadow baker, each stated and proved
//! against a mathematical model.
pub mod bitmap;
pub mod crop;
pub mod random;
pub mod scatter;
pub mod shadow;
pub mod store;
