//! The part of the configuration that selects executors.

use vstd::prelude::*;

verus! {

/// How the mechanism is configured.
pub struct MechConfig {
    /// The name under which the scale-down executor is registered.
    pub scale_down_exec_name: String,
    /// Attributes for that executor, which the dispatch core does not read.
    pub scale_down_exec_attr: String,
}

impl MechConfig {
    /// The configured scale-down executor: its name and its attributes.
    pub fn scale_down_exec_conf(&self) -> (conf: (&String, &String))
        ensures
            conf.0 == self.scale_down_exec_name,
            conf.1 == self.scale_down_exec_attr,
    {
        (&self.scale_down_exec_name, &self.scale_down_exec_attr)
    }
}

/// The simulator's configuration, as far as the dispatch core reads it.
pub struct Config {
    pub mech: MechConfig,
}

} // verus!
