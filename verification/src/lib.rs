//! The verified core of a small circle-particle simulation: the spatial hash
//! that buckets circles by screen cell, the border grid it draws, the index
//! pattern of a triangle fan, and the decisions taken on input events.

pub mod spatial_hash;
pub mod fan;
pub mod controls;
