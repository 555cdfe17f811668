//! The claim set of the identity token that a CI/CD platform issues to its
//! jobs, and its JSON form, with a decoder and an encoder proved to agree.
use vstd::prelude::*;

pub mod claims;
pub mod json;
pub mod laws;
pub mod text;
pub mod values;

pub use claims::{wire_name, Claims, DecodeError, FIELD_COUNT};
pub use values::{NumericDate, RunnerEnvironment, Visibility};

verus! {

} // verus!
