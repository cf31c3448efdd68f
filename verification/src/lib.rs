//! Deterministic recursion budgeting for a recursive-descent JavaScript parser.
//!
//! QuickJS bounds every recursive grammar production by one native stack of
//! 1 MiB: when its parser runs out, it reports a catchable
//! `SyntaxError: stack overflow`. Productions fail at different nesting depths
//! because their native frames differ in size. Native frames of this parser
//! have other sizes, which vary with the build, so counting bytes would not
//! give those depths. The guard combines two limits instead:
//!
//! 1. A weighted logical budget. Each recursive edge has a weight in proportion
//!    to the native frame it stands for, and nested edges sum their weights
//!    ([`frame`]).
//! 2. A physical backstop. The stack pointer is kept clear of the end of the
//!    host stack by a reserve, for recursion that has no weight and for small
//!    threads ([`floor`]).
//!
//! [`guard`] holds both limits, [`laws`] what follows from them over many
//! calls, [`host`] what depends on the build and the machine, and [`text`] the
//! reading of procfs text.

pub mod floor;
pub mod frame;
pub mod guard;
pub mod host;
pub mod laws;
pub mod text;
