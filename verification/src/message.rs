//! The flash message record and its mathematical model.

use vstd::prelude::*;
use crate::level::Level;

verus! {

/// One flash message: a severity level and a text.
#[derive(Clone, Debug, PartialEq, Eq)]
pub struct FlashMessage {
    pub level: Level,
    pub text: String,
}

/// The mathematical model of a flash message.
pub ghost struct FlashSpec {
    pub level: Level,
    pub text: Seq<char>,
}

impl View for FlashMessage {
    type V = FlashSpec;

    open spec fn view(&self) -> FlashSpec {
        FlashSpec { level: self.level, text: self.text@ }
    }
}

impl DeepView for FlashMessage {
    type V = FlashSpec;

    open spec fn deep_view(&self) -> FlashSpec {
        self.view()
    }
}

impl FlashMessage {
    /// Builds a message from a level and a text.
    pub fn new(level: Level, text: String) -> (r: FlashMessage)
        ensures
            r@ == (FlashSpec { level, text: text@ }),
    {
        FlashMessage { level, text }
    }
}

} // verus!
