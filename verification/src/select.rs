//! The selector net: a named choice among child nets. Every capability call
//! is answered by the currently selected child.

use vstd::prelude::*;

use crate::strmap::StrMap;
use crate::Error;

verus! {

/// The selector's configuration: the chosen child and the declared list.
#[derive(Debug, Clone, PartialEq)]
pub struct SelectNetConfig {
    pub selected: String,
    pub list: Vec<String>,
}

/// A built selector net, delegating to its selected child.
#[derive(Debug, Clone, PartialEq)]
pub struct SelectNet {
    pub selected: String,
}

/// What a net offers: which of the four capabilities it provides.
#[derive(Debug, Clone, Copy, PartialEq, Eq)]
pub struct NetCapability {
    pub tcp_connect: bool,
    pub tcp_bind: bool,
    pub udp_bind: bool,
    pub lookup_host: bool,
}

impl SelectNet {
    /// Builds a selector. An empty child list is malformed and is rejected;
    /// otherwise the declared selection is taken as it stands.
    pub fn new(config: SelectNetConfig) -> (r: Result<SelectNet, Error>)
        ensures
            config.list@.len() == 0 ==> r == Err::<SelectNet, Error>(Error::BadRequest),
            config.list@.len() > 0 ==> r == Ok::<SelectNet, Error>(
                SelectNet { selected: config.selected },
            ),
    {
        if config.list.len() == 0 {
            return Err(Error::BadRequest);
        }
        Ok(SelectNet { selected: config.selected })
    }

    /// Every capability call is delegated: the selector answers exactly what
    /// the net identified by its selection would answer, given the running
    /// table of net capabilities.
    pub fn provide<'a>(&self, nets: &'a StrMap<NetCapability>) -> (r: Option<&'a NetCapability>)
        ensures
            match r {
                Some(c) => nets.spec_get(self.selected@) == Some(*c),
                None => nets.spec_get(self.selected@) is None,
            },
    {
        nets.get(self.selected.as_str())
    }

    /// The child the selector currently delegates to.
    pub fn net(&self) -> (r: &String)
        ensures
            r == self.selected,
    {
        &self.selected
    }
}

} // verus!
