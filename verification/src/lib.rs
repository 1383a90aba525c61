//! The back end of a compiler for device models.
//!
//! It assembles the differential-algebraic equation system of a device
//! module ([`dae`], on the small model of the intermediate representation in
//! [`ir`] and with the accumulation protocol of [`util`]), and generates the
//! entry points that a circuit simulator calls: the parameter access layer
//! ([`access`], over the given flags of [`bitfield`]) and the loaders of
//! residual, Jacobian, right-hand side and noise ([`load`]). Generated
//! entry points are tables and stores, which a code emission backend turns
//! into native code; what each of them does when called is stated, and
//! proved, over those tables.
//!
//! [`compile`] plans the compilation of a set of modules into one library:
//! the generation units with their object files ([`paths`]), the literal
//! pool ([`interner`]), the table of limiting functions, and the descriptors
//! ([`metadata`]). [`pipeline`] is the life of one generation unit.

pub mod access;
pub mod base_n;
pub mod bitfield;
pub mod callbacks;
pub mod compilation_unit;
pub mod compile;
pub mod dae;
pub mod elysian;
pub mod interner;
pub mod ir;
pub mod load;
pub mod metadata;
pub mod module;
pub mod paths;
pub mod pipeline;
pub mod tivec;
pub mod util;
