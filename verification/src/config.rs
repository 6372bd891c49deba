//! Configuration: the largest packet that may be sent or received, and the
//! compression level.
//!
//! The configuration is a value that the caller keeps and passes to the
//! functions that need it; `set_config` and `get_config` read and write such a
//! store.

use vstd::prelude::*;

verus! {

/// A compression level, typically on a scale of 0 (none) to 9 (best).
#[derive(Debug, Clone, Copy, PartialEq, Eq, Structural)]
pub struct Compression {
    level: u32,
}

impl Compression {
    /// The level this value stands for.
    pub closed spec fn spec_level(&self) -> u32 {
        self.level
    }

    /// A compression level.
    pub fn new(level: u32) -> (r: Compression)
        ensures
            r.spec_level() == level,
    {
        Compression { level }
    }

    /// No compression.
    pub fn none() -> (r: Compression)
        ensures
            r.spec_level() == 0,
    {
        Compression { level: 0 }
    }

    /// The fastest compression.
    pub fn fast() -> (r: Compression)
        ensures
            r.spec_level() == 1,
    {
        Compression { level: 1 }
    }

    /// The smallest output.
    pub fn best() -> (r: Compression)
        ensures
            r.spec_level() == 9,
    {
        Compression { level: 9 }
    }

    /// The level.
    pub fn level(&self) -> (r: u32)
        ensures
            r == self.spec_level(),
    {
        self.level
    }
}

impl Default for Compression {
    /// Level 6.
    fn default() -> (r: Compression)
        ensures
            r.spec_level() == 6,
    {
        Compression { level: 6 }
    }
}

/// The configuration.
#[derive(Debug, Clone, Copy, PartialEq, Eq, Structural)]
pub struct Config {
    /// The largest packet, in bytes, that may be sent or received.
    pub max_packet_size: usize,
    /// The compression level used when sending.
    pub compression: Compression,
}

/// The default largest packet: `1 << 20` bytes.
pub open spec fn default_max_packet_size() -> usize {
    0x10_0000
}

impl Default for Config {
    /// `1 << 20` bytes, compression level 6.
    fn default() -> (r: Config)
        ensures
            r.max_packet_size == default_max_packet_size(),
            r.compression.spec_level() == 6,
    {
        Config { max_packet_size: 0x10_0000, compression: Compression::default() }
    }
}

/// Stores `config` in `store`: afterwards every getter gives back what `config`
/// holds, whatever the store held before.
pub fn set_config(store: &mut Config, config: Config)
    ensures
        *final(store) == config,
        final(store).max_packet_size == config.max_packet_size,
        final(store).compression == config.compression,
{
    *store = config;
}

/// The configuration held in `store`.
pub fn get_config(store: &Config) -> (r: Config)
    ensures
        r == *store,
{
    *store
}

/// The largest packet size held in `store`.
pub fn get_max_packet_size(store: &Config) -> (r: usize)
    ensures
        r == store.max_packet_size,
{
    store.max_packet_size
}

/// The compression level held in `store`.
pub fn get_compression(store: &Config) -> (r: Compression)
    ensures
        r == store.compression,
{
    store.compression
}

} // verus!
