//! Newton-Raphson n-th roots and dense polynomial arithmetic over an abstract
//! scalar type.
//!
//! `scalar` declares the numbers that everything computes with, `checked` is
//! the one such type that the library brings along, exact 64-bit integers.
//! `newton` holds the power, the update rules and the solver; `polynomials`,
//! `arithmetic`, `equality` and `rendering` hold the polynomial type and what
//! can be done with it, `decimal` the digits of the exponents; `laws` and
//! `integer_power` hold what is proved of the operations together.
pub mod arithmetic;
pub mod checked;
pub mod decimal;
pub mod equality;
pub mod integer_power;
pub mod laws;
pub mod newton;
pub mod polynomials;
pub mod rendering;
pub mod scalar;
