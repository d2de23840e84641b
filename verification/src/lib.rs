//! A small abstract-algebra toolkit: a generic ring interface with two
//! concrete rings built on it, modular integers and univariate polynomials
//! over an arbitrary coefficient ring.
//!
//! The `ring` module holds the capability interface every element type
//! satisfies, the algebraic laws each implementation proves, and the
//! embedding of the integers into any ring. `mod_int` and `polynomial` are
//! the two concrete rings; `primitive` equips the built-in signed integers;
//! `arithmetic` wraps the extended Euclidean algorithm the modular inverse
//! rests on.

pub mod arithmetic;
pub mod matrix;
pub mod mod_int;
pub mod polynomial;
pub mod primitive;
pub mod ring;
