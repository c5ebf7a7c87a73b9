//! Values handed across the foreign-function boundary.

use vstd::prelude::*;

use crate::picana_core::definitions::ValueDefinitionBridge;

verus! {

/// A signal definition offered to a caller, or the mark that none was
/// found.
pub struct DefinitionResource {
    available: bool,
    bridge: Option<ValueDefinitionBridge>,
}

impl DefinitionResource {
    /// Whether a definition is held.
    pub closed spec fn is_available(&self) -> bool {
        self.available
    }

    /// The definition held, if any.
    pub closed spec fn held(&self) -> Option<ValueDefinitionBridge> {
        self.bridge
    }

    /// Holds `bridge`.
    pub fn from(bridge: ValueDefinitionBridge) -> (res: Self)
        ensures
            res.is_available(),
            res.held() == Some(bridge),
    {
        DefinitionResource { available: true, bridge: Some(bridge) }
    }

    /// Holds nothing, and says so.
    pub fn empty() -> (res: Self)
        ensures
            !res.is_available(),
            res.held() is None,
    {
        DefinitionResource { available: false, bridge: None }
    }

    /// Whether a definition is held.
    pub fn available(&self) -> (res: bool)
        ensures
            res == self.is_available(),
    {
        self.available
    }

    /// The definition held, if any.
    pub fn bridge(&self) -> (res: Option<&ValueDefinitionBridge>)
        ensures
            match res {
                Some(b) => self.held() == Some(*b),
                None => self.held() is None,
            },
    {
        match &self.bridge {
            Some(b) => Some(b),
            None => None,
        }
    }
}

} // verus!
