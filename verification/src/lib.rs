//! Arithmetization of polynomial-ring addition and multiplication.
//!
//! Coefficient vectors under a fixed modulus are laid out as fixed-width rows
//! of a trace table, and the relations that a proof backend checks on those
//! rows are stated as predicates over plain integers.
//!
//! - [`modpow`]: modular exponentiation, from which the table of point powers
//!   is built.
//! - [`layout`]: the column layout of the two gadgets, fixed by the degree
//!   bound.
//! - [`trace`]: the trace table, one row of values and its zero padding.
//! - [`constraint`]: boundary constraints on the first row.
//! - [`gadgets`]: the addition and the multiplication gadget, each with its
//!   trace builder and its relation.
//! - [`poly`] and [`uniqueness`]: polynomials as coefficient sequences, and
//!   the facts about them that the multiplication gadget rests on.
//! - [`crt`]: a plan for checking sums against a modulus foreign to the
//!   backend's field, which no gadget includes.
//! - [`params`]: the numeric parameters of the ciphertext ring.
//! - [`backend`]: the backend's trace matrix.

pub mod backend;
pub mod constraint;
pub mod crt;
pub mod gadgets;
pub mod layout;
pub mod modpow;
pub mod params;
pub mod poly;
pub mod trace;
pub mod uniqueness;
