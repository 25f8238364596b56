use vstd::prelude::*;

verus! {

/// A type that declares a companion patch type.
pub trait Patchable {
    /// The type of patch associated with this structure.
    type Patch;
}

/// A type that can be updated using its companion patch.
pub trait Patch: Patchable {
    /// Applies the given patch to update the structure.
    fn patch(&mut self, patch: Self::Patch);
}

/// A fallible variant of [`Patch`]: the patch is validated and either applied
/// or rejected with a caller-defined error.
pub trait TryPatch: Patchable {
    /// The error type returned when applying a patch fails.
    type Error: core::fmt::Debug + Send + Sync + 'static;

    /// Applies the provided patch to `self`, or reports why it cannot.
    fn try_patch(&mut self, patch: Self::Patch) -> Result<(), Self::Error>;
}

/// Every infallible patch is a fallible one that never fails.
impl<T: Patch> TryPatch for T {
    type Error = core::convert::Infallible;

    fn try_patch(&mut self, patch: Self::Patch) -> (r: Result<(), Self::Error>)
        ensures
            r is Ok,
    {
        self.patch(patch);
        Ok(())
    }
}

impl<T: Patchable> Patchable for Box<T> {
    type Patch = Box<T::Patch>;
}

impl<T: Patch> Patch for Box<T> {
    fn patch(&mut self, patch: Self::Patch) {
        (**self).patch(*patch);
    }
}

impl<T: Patchable> Patchable for Option<T> {
    type Patch = Option<T::Patch>;
}

impl<T: Patch> Patch for Option<T> {
    /// A present value takes a present patch; a missing value or a missing
    /// patch leaves `self` as it was.
    fn patch(&mut self, patch: Self::Patch)
        ensures
            (*old(self)) is None ==> *final(self) == *old(self),
            patch is None ==> *final(self) == *old(self),
            (*old(self)) is Some && patch is Some ==> (*final(self)) is Some,
    {
        if let (Some(s), Some(p)) = (self, patch) {
            s.patch(p);
        }
    }
}

/// Collections are replaced wholesale, never merged element by element.
impl<T> Patchable for Vec<T> {
    type Patch = Vec<T>;
}

impl<T> Patch for Vec<T> {
    fn patch(&mut self, patch: Self::Patch)
        ensures
            *final(self) == patch,
    {
        *self = patch;
    }
}

} // verus!
