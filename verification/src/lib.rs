//! An associative container with open addressing and linear probing over a flat slot
//! sequence, which grows when it is nine tenths full.

pub mod key;
pub mod model;
pub mod probing;
pub mod table;
pub mod theory;
pub mod pool;
