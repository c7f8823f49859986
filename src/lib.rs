//! Password generation driven by a Mersenne-Twister style generator.
//!
//! The generator (`mt`) is modelled by pure spec functions over its state
//! words and output cursor; the password builder (`passgen`) maps pairs of
//! generator outputs onto characters of the enabled character classes.
pub mod mt;
pub mod passgen;
