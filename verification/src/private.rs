//! Plumbing types the layer exposes: extension values and the generic
//! extension-installing layer. Users normally reach these only through
//! [`crate::layer`].

use vstd::prelude::*;

verus! {

/// Request-scoped override of the secure-cookie flag, installed as an
/// extension by the layer.
#[derive(Clone, Copy, Debug)]
pub struct UseSecureCookies(pub bool);

/// A layer that installs a value of type `T` as an extension on every
/// request passing through it.
#[derive(Clone, Copy, Debug)]
pub struct AddExtensionLayer<T> {
    pub value: T,
}

impl<T> AddExtensionLayer<T> {
    /// A layer installing `value`.
    pub fn new(value: T) -> (r: Self)
        ensures
            r.value == value,
    {
        AddExtensionLayer { value }
    }
}

/// The service an [`AddExtensionLayer`] wraps around an inner service:
/// it installs its value on each request, then delegates.
#[derive(Clone, Copy, Debug)]
pub struct AddExtension<S, T> {
    pub inner: S,
    pub value: T,
}

impl<S, T> AddExtension<S, T> {
    /// The service delegating to `inner` after installing `value`.
    pub fn new(inner: S, value: T) -> (r: Self)
        ensures
            r.inner == inner,
            r.value == value,
    {
        AddExtension { inner, value }
    }
}

} // verus!
