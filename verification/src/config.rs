//! The immutable settings record, resolved once at process start, and a
//! write-once store for it: the first value set wins, later attempts are
//! rejected, and reading is allowed only once a value is stored.

use vstd::prelude::*;

verus! {

/// The settings the listener and each connection read.
#[derive(Debug, Clone, Copy, PartialEq, Eq, Structural)]
pub struct Config {
    pub max_connections: usize,
    pub tcp_recv_buf_size: usize,
    pub tcp_nodelay: bool,
}

impl Config {
    /// The defaults used when no settings file is available.
    pub fn default() -> (c: Config)
        ensures
            c.max_connections == 1000,
            c.tcp_recv_buf_size == 4096,
            c.tcp_nodelay == true,
    {
        Config { max_connections: 1000, tcp_recv_buf_size: 4096, tcp_nodelay: true }
    }

    /// The stored settings; reading before initialization is a startup fault,
    /// so a caller must first establish that a value was stored.
    pub fn global(store: &ConfigStore) -> (c: &Config)
        requires
            store.stored() is Some,
        ensures
            Some(*c) == store.stored(),
    {
        match &store.slot {
            Some(c) => c,
            None => unreached(),
        }
    }
}

/// A write-once slot for the process settings: set at most once, read many
/// times.
pub struct ConfigStore {
    slot: Option<Config>,
}

impl ConfigStore {
    /// The value stored so far, if any.
    pub closed spec fn stored(&self) -> Option<Config> {
        self.slot
    }

    /// An empty store: nothing has been set yet.
    pub fn new() -> (s: ConfigStore)
        ensures
            s.stored() is None,
    {
        ConfigStore { slot: None }
    }

    /// Store a value unless one is already stored: the first value wins, and
    /// the result says whether this call's value was taken.
    pub fn set(&mut self, c: Config) -> (accepted: bool)
        ensures
            old(self).stored() is None ==> accepted && final(self).stored() == Some(c),
            old(self).stored() is Some ==> !accepted && final(self).stored() == old(self).stored(),
    {
        match self.slot {
            None => {
                self.slot = Some(c);
                true
            },
            Some(_) => false,
        }
    }

    /// Whether a value has been stored.
    pub fn is_set(&self) -> (b: bool)
        ensures
            b == (self.stored() is Some),
    {
        self.slot.is_some()
    }
}

} // verus!
