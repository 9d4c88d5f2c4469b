//! Configuration of the node and the collector, as plain values.

use vstd::prelude::*;

verus! {

/// Which host probes a node runs.
#[derive(Debug, Clone, Copy, PartialEq, Eq, Structural)]
pub struct SysinfoProbes {
    pub cpu: bool,
    pub memory: bool,
    pub disk: bool,
    pub network: bool,
    pub temperature: bool,
    pub static_info: bool,
}

/// The probe sources of a node.
#[derive(Debug, Clone, Copy, PartialEq, Eq, Structural)]
pub struct ProbesConfig {
    pub sysinfo: SysinfoProbes,
}

/// A node's configuration.
#[derive(Debug, Clone, Copy, PartialEq, Eq, Structural)]
pub struct Config {
    pub probes: ProbesConfig,
}

impl SysinfoProbes {
    /// The number of probes switched on.
    pub fn enabled_count(&self) -> (r: u32)
        ensures
            r == (if self.cpu { 1int } else { 0 }) + (if self.memory { 1int } else { 0 }) + (if self.disk { 1int } else { 0 })
                + (if self.network { 1int } else { 0 }) + (if self.temperature { 1int } else { 0 }) + (if self.static_info { 1int } else { 0 }),
    {
        let mut n: u32 = 0;
        if self.cpu { n = n + 1; }
        if self.memory { n = n + 1; }
        if self.disk { n = n + 1; }
        if self.network { n = n + 1; }
        if self.temperature { n = n + 1; }
        if self.static_info { n = n + 1; }
        n
    }
}

/// The collector's configuration file when none is named.
pub fn default_config_file() -> (r: String)
    ensures
        r@ == "helioscope-collector.toml"@,
{
    String::from_str("helioscope-collector.toml")
}

/// The node's configuration file when none is named.
pub fn default_node_config_file() -> (r: String)
    ensures
        r@ == "helioscope-node.toml"@,
{
    String::from_str("helioscope-node.toml")
}

} // verus!
