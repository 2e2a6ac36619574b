//! The middleware layer that makes flash messages work: it installs the
//! signing key, and optionally a secure-cookie override, as request
//! extensions.

use vstd::prelude::*;
use crate::private::{AddExtensionLayer, UseSecureCookies};
use crate::signing::SigningKey;

verus! {

#[verifier::external_type_specification]
#[verifier::external_body]
#[verifier::reject_recursive_types(Inner)]
#[verifier::reject_recursive_types(Outer)]
pub struct ExStack<Inner, Outer>(tower_layer::Stack<Inner, Outer>);

/// Relies on `tower_layer::Stack::new`: chains two middlewares; the stack
/// is opaque here and only handed back to the host framework.
pub assume_specification<Inner, Outer>[ tower_layer::Stack::<Inner, Outer>::new ](
    inner: Inner,
    outer: Outer,
) -> tower_layer::Stack<Inner, Outer>;

/// The layer that applies the middleware necessary for flash messages to
/// work, built around the given signing key.
pub fn layer(signing_key: SigningKey) -> (r: LayerBuilder<AddExtensionLayer<SigningKey>>)
    ensures
        r.layer.value == signing_key,
{
    LayerBuilder { layer: AddExtensionLayer::new(signing_key) }
}

/// The flash layer, with its configuration options. Constructed with
/// [`layer`].
#[derive(Clone, Debug)]
pub struct LayerBuilder<L> {
    pub layer: L,
}

impl<L> LayerBuilder<L> {
    /// Mark the cookie as secure so the cookie will only be sent on
    /// `https`. Defaults to on; for local plain-HTTP development it can
    /// be switched off.
    pub fn use_secure_cookies(self, use_secure_cookies: bool) -> (r: LayerBuilder<
        tower_layer::Stack<AddExtensionLayer<UseSecureCookies>, L>,
    >)
    {
        self.push(AddExtensionLayer::new(UseSecureCookies(use_secure_cookies)))
    }

    fn push<L2>(self, layer: L2) -> (r: LayerBuilder<tower_layer::Stack<L2, L>>) {
        LayerBuilder { layer: tower_layer::Stack::new(layer, self.layer) }
    }
}

} // verus!
