//! The global configuration: its entry names, their defaults, and the
//! text written to a fresh configuration file.

use vstd::prelude::*;

verus! {

/// What a freshly written configuration file holds: one record assigning
/// every configuration entry its default.
pub open spec fn spec_default_config_text() -> Seq<char> {
    "{\n"@ + "    arch_package_manager : paru,\n"@ + "    flatpak_default_systemwide : false,\n"@
        + "}\n"@
}

/// Builds the text of a fresh configuration file.
pub fn default_config_text() -> (r: String)
    ensures
        r@ == spec_default_config_text(),
{
    let mut s = "{\n".to_owned();
    s.append("    arch_package_manager : paru,\n");
    s.append("    flatpak_default_systemwide : false,\n");
    s.append("}\n");
    s
}

} // verus!
