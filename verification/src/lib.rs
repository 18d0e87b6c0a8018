//! Typed, reference-counted access to the values of a dynamically typed host
//! interpreter, and the positional stack protocol by which native subroutines
//! receive their arguments and hand back their results.
//!
//! The interpreter of this crate, [`raw::Interpreter`], lives in memory: a
//! heap of reference-counted scalars, arrays and hashes, and the stack
//! frame of one call. Every contract is stated over its mathematical
//! picture, [`raw::World`]. Native subroutines run on it as they are, and
//! can be tested on it without a host; what connects it to a running host
//! stands outside this crate.
//!
//! - [`handle`] counts references: a handle accounts for one unit of its
//!   object's count from the moment it is made until it is dropped.
//! - [`scalar`], [`array`] and [`hash`] are the handles on the three kinds
//!   of object, and [`convert`] the conversions between native values and
//!   scalars.
//! - [`context`] is the call context: arguments are fetched by position,
//!   results are pushed, and the call is wound up once, whether the native
//!   subroutine returned or failed ([`croak`]); winding up drops every
//!   handle that the subroutine left behind.
//! - [`derive`] reads the declaration of a structure and decodes keyword
//!   arguments into its fields, collecting everything that is wrong
//!   ([`error`]).
//! - [`registry`] and [`boot`] collect the native subroutines of a module
//!   and register them with the host.

pub mod array;
pub mod boot;
pub mod context;
pub mod convert;
pub mod croak;
pub mod derive;
pub mod error;
pub mod handle;
pub mod hash;
pub mod pushable;
pub mod raw;
pub mod registry;
pub mod scalar;
pub mod text;

pub use crate::array::AV;
pub use crate::boot::{Package, Symbol};
pub use crate::context::Context;
pub use crate::convert::TryFromContext;
pub use crate::hash::HV;
pub use crate::raw::{SSize_t, Size_t, IV, NV, STRLEN, UV};
pub use crate::raw::{G_DISCARD, G_VOID};
pub use crate::scalar::SV;
