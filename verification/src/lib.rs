//! Luhn mod N check characters over a caller-supplied alphabet.
//!
//! The Luhn algorithm protects a string of digits with one check digit. This
//! crate does the same for any alphabet of distinct characters: the size of
//! the alphabet is the base of the arithmetic, and a character's position in
//! the alphabet, taken in ascending order, is its numeric value.
//!
//! ```
//! use luhn::Luhn;
//!
//! let engine = Luhn::new("0123456789").unwrap();
//! assert_eq!(engine.generate("7992739871"), Ok('3'));
//! assert_eq!(engine.validate("79927398713"), Ok(true));
//! assert_eq!(engine.validate_with("7992739871", '3'), Ok(true));
//! ```
//!
//! [`Luhn`] is the engine and [`LuhnError`] what it reports. The module
//! [`model`] says over sequences of characters what each operation returns,
//! and every operation is proved to return just that. The module [`laws`]
//! holds what is proved of the model itself.

pub mod engine;
pub mod error;
pub mod laws;
mod lemmas;
pub mod model;

pub use engine::Luhn;
pub use error::LuhnError;
