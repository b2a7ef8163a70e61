//! Planetary trigrams and the three-source salt.

pub mod planets;
