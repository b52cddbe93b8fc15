//! Sealing of the argument lists.

use vstd::prelude::*;

verus! {

/// Sealing supertrait: implemented only for the argument cons-list types, so
/// downstream crates cannot implement [`LoggableArgs`](crate::encode::LoggableArgs).
pub trait Sealed {

}

impl Sealed for () {

}

impl<H: crate::encode::Loggable, T: crate::encode::LoggableArgs> Sealed for (&H, T) {

}

} // verus!
