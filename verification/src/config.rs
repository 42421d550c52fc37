//! Configuration records, as the configuration files hold them.
use crate::config::blocks::Blocks;
use crate::config::definitions::Definitions;
use crate::config::general::General;
use crate::config::groups::Groups;
use crate::config::io::Io;
use crate::config::protocols::Protocols;
use vstd::prelude::*;

pub mod blocks;
pub mod definitions;
pub mod general;
pub mod groups;
pub mod io;
pub mod protocols;

verus! {

/// Everything that is configured: one record per configuration file.
pub struct Config {
    pub traffic_lights_blocks: Blocks,
    pub traffic_lights: Definitions,
    pub bridge: Definitions,
    pub general: General,
    pub groups: Groups,
    pub io: Io,
    pub protocols: Protocols,
}

} // verus!
