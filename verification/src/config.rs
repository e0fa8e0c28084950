//! The boot configuration (`/etc/microhop.conf`) as plain values: what the
//! library reads of it.
use vstd::prelude::*;

verus! {

/// One entry of the `disks:` section: `device: fstype,mountpoint,mode`.
pub struct DiskConfig {
    pub device: String,
    pub fstype: String,
    pub mountpoint: String,
    pub mode: String,
}

/// The `overlayfs:` section.
pub struct OverlayfsConfig {
    pub device: String,
    pub upper: String,
    pub workdir: String,
}

/// The boot configuration, each field holding what the corresponding getter of
/// the configuration returns (defaults already applied).
pub struct MhConfig {
    /// Kernel modules to load, in order.
    pub modules: Vec<String>,
    /// The disks, or why the `disks:` section could not be read.
    pub disks: Result<Vec<DiskConfig>, String>,
    pub overlayfs: Option<OverlayfsConfig>,
    /// The init program (default `/sbin/init`).
    pub init: String,
    /// The temporary sysroot (default `/sysroot`).
    pub sysroot: String,
    /// The `log:` value as written, if any.
    pub log: Option<String>,
    /// Kernel command line parameters to ignore.
    pub mask_cmdline: Vec<String>,
    /// The `firmware:` section's `base`, if the section is present.
    pub firmware: Option<String>,
    /// The firmware base path (default `/lib/firmware`).
    pub firmware_base: String,
}

/// The character views of a list of strings.
pub open spec fn str_views(s: Seq<String>) -> Seq<Seq<char>> {
    s.map_values(|x: String| x@)
}

} // verus!
