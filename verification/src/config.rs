//! Rules of the YAML configuration file that do not depend on YAML itself.

use vstd::prelude::*;

verus! {

/// The only version of the configuration file schema that is understood.
pub const CONFIGURATION_VERSION: u32 = 1;

/// Whether a configuration file of this version can be read; other versions
/// are refused rather than read as if they were the current one.
pub fn is_supported_configuration_version(version: u32) -> (supported: bool)
    ensures
        supported <==> version == CONFIGURATION_VERSION,
{
    version == CONFIGURATION_VERSION
}

} // verus!
