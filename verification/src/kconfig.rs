//! Checking a kernel configuration (`.config`) against what a boot
//! configuration needs.
use vstd::prelude::*;
use crate::config;
use crate::config::MhConfig;
use crate::strmap::StrMap;
use crate::text;

verus! {

/// A row of a support table: (name, kernel option, description).
pub open spec fn table_view(t: Seq<(&'static str, &'static str, &'static str)>) -> Seq<
    (Seq<char>, Seq<char>, Seq<char>),
> {
    t.map_values(|e: (&'static str, &'static str, &'static str)| (e.0@, e.1@, e.2@))
}

/// The filesystems that can be checked, with the kernel option each needs.
pub open spec fn fs_table() -> Seq<(Seq<char>, Seq<char>, Seq<char>)> {
    seq![
        ("ext4"@, "CONFIG_EXT4_FS"@, "Fourth Extended Filesystem"@),
        ("ext2"@, "CONFIG_EXT2_FS"@, "Second Extended Filesystem"@),
        ("squashfs"@, "CONFIG_SQUASHFS"@, "Compressed read-only filesystem"@),
        ("btrfs"@, "CONFIG_BTRFS_FS"@, "B-tree filesystem"@),
        ("xfs"@, "CONFIG_XFS_FS"@, "SGI XFS filesystem"@),
        ("f2fs"@, "CONFIG_F2FS_FS"@, "Flash-Friendly File System"@),
        ("jffs2"@, "CONFIG_JFFS2_FS"@, "Journalling Flash File System v2"@),
        ("ubifs"@, "CONFIG_UBIFS_FS"@, "UBIFS file system"@),
        ("tmpfs"@, "CONFIG_TMPFS"@, "Temporary filesystem"@),
        ("iso9660"@, "CONFIG_ISO9660_FS"@, "ISO9660 filesystem"@),
        ("vfat"@, "CONFIG_VFAT_FS"@, "VFAT filesystem"@),
        ("ntfs"@, "CONFIG_NTFS_FS"@, "NTFS filesystem"@),
    ]
}

/// The block device drivers that can be checked, with the kernel option each needs.
pub open spec fn blk_table() -> Seq<(Seq<char>, Seq<char>, Seq<char>)> {
    seq![
        ("virtio_blk"@, "CONFIG_VIRTIO_BLK"@, "Virtio block driver"@),
        ("virtio_mmio"@, "CONFIG_VIRTIO_MMIO"@, "Platform bus driver for memory mapped virtio devices"@),
        ("nvme"@, "CONFIG_BLK_DEV_NVME"@, "NVM Express block device"@),
        ("usb_storage"@, "CONFIG_USB_STORAGE"@, "USB Mass Storage support"@),
        ("uas"@, "CONFIG_USB_UAS"@, "USB Attached SCSI"@),
        ("sd_mod"@, "CONFIG_BLK_DEV_SD"@, "SCSI disk support"@),
        ("sr_mod"@, "CONFIG_BLK_DEV_SR"@, "SCSI CDROM support"@),
        ("mmc_block"@, "CONFIG_MMC_BLOCK"@, "MMC block device driver"@),
        ("nand_block"@, "CONFIG_MTD_NAND_CORE"@, "MTD NAND core device driver"@),
        ("sdhci"@, "CONFIG_MMC_SDHCI"@, "Secure Digital Host Controller Interface support"@),
        ("ahci"@, "CONFIG_SATA_AHCI"@, "AHCI SATA support"@),
        ("nvme"@, "CONFIG_BLK_DEV_NVME"@, "NVME support"@),
        ("ufs"@, "CONFIG_SCSI_UFSHCD"@, "UFS support"@),
        ("ata_piix"@, "CONFIG_ATA_PIIX"@, "Intel PIIX/ICH SATA support"@),
        ("loop"@, "CONFIG_BLK_DEV_LOOP"@, "Loopback device support"@),
    ]
}

/// The supported filesystems: (name, kernel option, description).
pub fn supported_filesystems() -> (t: Vec<(&'static str, &'static str, &'static str)>)
    ensures
        table_view(t@) == fs_table(),
{
    let t = vec![
        ("ext4", "CONFIG_EXT4_FS", "Fourth Extended Filesystem"),
        ("ext2", "CONFIG_EXT2_FS", "Second Extended Filesystem"),
        ("squashfs", "CONFIG_SQUASHFS", "Compressed read-only filesystem"),
        ("btrfs", "CONFIG_BTRFS_FS", "B-tree filesystem"),
        ("xfs", "CONFIG_XFS_FS", "SGI XFS filesystem"),
        ("f2fs", "CONFIG_F2FS_FS", "Flash-Friendly File System"),
        ("jffs2", "CONFIG_JFFS2_FS", "Journalling Flash File System v2"),
        ("ubifs", "CONFIG_UBIFS_FS", "UBIFS file system"),
        ("tmpfs", "CONFIG_TMPFS", "Temporary filesystem"),
        ("iso9660", "CONFIG_ISO9660_FS", "ISO9660 filesystem"),
        ("vfat", "CONFIG_VFAT_FS", "VFAT filesystem"),
        ("ntfs", "CONFIG_NTFS_FS", "NTFS filesystem"),
    ];
    proof {
        assert(table_view(t@) =~= fs_table());
    }
    t
}

/// The supported block device drivers: (name, kernel option, description).
pub fn supported_block_devices() -> (t: Vec<(&'static str, &'static str, &'static str)>)
    ensures
        table_view(t@) == blk_table(),
{
    let t = vec![
        ("virtio_blk", "CONFIG_VIRTIO_BLK", "Virtio block driver"),
        ("virtio_mmio", "CONFIG_VIRTIO_MMIO", "Platform bus driver for memory mapped virtio devices"),
        ("nvme", "CONFIG_BLK_DEV_NVME", "NVM Express block device"),
        ("usb_storage", "CONFIG_USB_STORAGE", "USB Mass Storage support"),
        ("uas", "CONFIG_USB_UAS", "USB Attached SCSI"),
        ("sd_mod", "CONFIG_BLK_DEV_SD", "SCSI disk support"),
        ("sr_mod", "CONFIG_BLK_DEV_SR", "SCSI CDROM support"),
        ("mmc_block", "CONFIG_MMC_BLOCK", "MMC block device driver"),
        ("nand_block", "CONFIG_MTD_NAND_CORE", "MTD NAND core device driver"),
        ("sdhci", "CONFIG_MMC_SDHCI", "Secure Digital Host Controller Interface support"),
        ("ahci", "CONFIG_SATA_AHCI", "AHCI SATA support"),
        ("nvme", "CONFIG_BLK_DEV_NVME", "NVME support"),
        ("ufs", "CONFIG_SCSI_UFSHCD", "UFS support"),
        ("ata_piix", "CONFIG_ATA_PIIX", "Intel PIIX/ICH SATA support"),
        ("loop", "CONFIG_BLK_DEV_LOOP", "Loopback device support"),
    ];
    proof {
        assert(table_view(t@) =~= blk_table());
    }
    t
}

/// The kernel option of the first row whose name equals `key` without regard to
/// ASCII case.
pub open spec fn table_lookup(t: Seq<(Seq<char>, Seq<char>, Seq<char>)>, key: Seq<char>) -> Option<
    Seq<char>,
>
    decreases t.len(),
{
    if t.len() == 0 {
        None
    } else if text::eq_ignore_ascii_case(t[0].0, key) {
        Some(t[0].1)
    } else {
        table_lookup(t.skip(1), key)
    }
}

/// The kernel option that the filesystem `fstype` needs.
pub open spec fn filesystem_config(fstype: Seq<char>) -> Option<Seq<char>> {
    table_lookup(fs_table(), text::unicode_lowercase(fstype))
}

/// The kernel option that the block device driver `blktype` needs.
pub open spec fn block_device_config(blktype: Seq<char>) -> Option<Seq<char>> {
    table_lookup(blk_table(), text::unicode_lowercase(blktype))
}

fn lookup_in(t: &Vec<(&'static str, &'static str, &'static str)>, key: &str) -> (r: Option<
    &'static str,
>)
    ensures
        match r {
            Some(c) => table_lookup(table_view(t@), key@) == Some(c@),
            None => table_lookup(table_view(t@), key@) is None,
        },
{
    let mut i: usize = 0;
    proof {
        assert(table_view(t@).skip(0) =~= table_view(t@));
    }
    while i < t.len()
        invariant
            i <= t@.len(),
            table_lookup(table_view(t@), key@) == table_lookup(table_view(t@).skip(i as int), key@),
        decreases t@.len() - i,
    {
        let ghost rest = table_view(t@).skip(i as int);
        proof {
            assert(rest[0] == table_view(t@)[i as int]);
            assert(rest.skip(1) =~= table_view(t@).skip(i + 1));
        }
        if text::eq_ignore_ascii_case_str(t[i].0, key) {
            return Some(t[i].1);
        }
        i = i + 1;
    }
    None
}

/// The kernel option (such as `CONFIG_EXT4_FS`) that a filesystem needs.
pub fn get_filesystem_config(fstype: &str) -> (r: Option<&'static str>)
    ensures
        match r {
            Some(c) => filesystem_config(fstype@) == Some(c@),
            None => filesystem_config(fstype@) is None,
        },
        text::all_ascii(fstype@) ==> match r {
            Some(c) => table_lookup(fs_table(), fstype@) == Some(c@),
            None => table_lookup(fs_table(), fstype@) is None,
        },
{
    let lower = text::to_lowercase(fstype);
    proof {
        if text::all_ascii(fstype@) {
            lemma_ascii_lower_matches(fstype@);
            lemma_lookup_ignores_ascii_case(fs_table(), lower@, fstype@);
        }
    }
    let t = supported_filesystems();
    lookup_in(&t, lower.as_str())
}

/// The kernel option (such as `CONFIG_VIRTIO_BLK`) that a block device driver needs.
pub fn get_block_device_config(blktype: &str) -> (r: Option<&'static str>)
    ensures
        match r {
            Some(c) => block_device_config(blktype@) == Some(c@),
            None => block_device_config(blktype@) is None,
        },
        text::all_ascii(blktype@) ==> match r {
            Some(c) => table_lookup(blk_table(), blktype@) == Some(c@),
            None => table_lookup(blk_table(), blktype@) is None,
        },
{
    let lower = text::to_lowercase(blktype);
    proof {
        if text::all_ascii(blktype@) {
            lemma_ascii_lower_matches(blktype@);
            lemma_lookup_ignores_ascii_case(blk_table(), lower@, blktype@);
        }
    }
    let t = supported_block_devices();
    lookup_in(&t, lower.as_str())
}

// ---------------------------------------------------------------------------
// The kernel configuration
// ---------------------------------------------------------------------------

/// The (key, value) pair that one line of a kernel configuration sets: blank
/// lines and `#` comments set nothing, nor does a line without `=`.
pub open spec fn kconfig_entry(line: Seq<char>) -> Option<(Seq<char>, Seq<char>)> {
    let t = text::trim(line);
    if t.len() == 0 || t[0] == '#' {
        None
    } else {
        match text::find_char(t, '=') {
            Some(p) => Some((text::trim(t.take(p)), text::trim(t.skip(p + 1)))),
            None => None,
        }
    }
}

/// The settings that the lines `ls` make, a later line overriding an earlier one.
pub open spec fn kconfig_map(ls: Seq<Seq<char>>) -> Map<Seq<char>, Seq<char>>
    decreases ls.len(),
{
    if ls.len() == 0 {
        Map::empty()
    } else {
        let m = kconfig_map(ls.drop_last());
        match kconfig_entry(ls.last()) {
            Some(kv) => m.insert(kv.0, kv.1),
            None => m,
        }
    }
}

/// The key under which an option is looked up: `CONFIG_` is put in front unless
/// it is there already.
pub open spec fn config_key(option: Seq<char>) -> Seq<char> {
    if text::starts_with(option, "CONFIG_"@) {
        option
    } else {
        "CONFIG_"@ + option
    }
}

/// The option is built in (`y`) or a module (`m`).
pub open spec fn option_enabled(cfg: Map<Seq<char>, Seq<char>>, option: Seq<char>) -> bool {
    let k = config_key(option);
    cfg.contains_key(k) && (cfg[k] == "y"@ || cfg[k] == "m"@)
}

/// The option is a module (`m`).
pub open spec fn option_module(cfg: Map<Seq<char>, Seq<char>>, option: Seq<char>) -> bool {
    let k = config_key(option);
    cfg.contains_key(k) && cfg[k] == "m"@
}

fn config_key_string(option: &str) -> (r: String)
    ensures
        r@ == config_key(option@),
{
    let v = text::chars_of(option);
    let p = text::chars_of("CONFIG_");
    proof {
        assert(v@.subrange(0, v@.len() as int) =~= v@);
    }
    if text::starts_with_at(&v, 0, v.len(), &p) {
        String::from_str(option)
    } else {
        text::concat_str("CONFIG_", option)
    }
}

/// A kernel configuration: the values of its options.
pub struct KConfigValidator {
    config: StrMap,
}

impl View for KConfigValidator {
    type V = Map<Seq<char>, Seq<char>>;

    closed spec fn view(&self) -> Map<Seq<char>, Seq<char>> {
        self.config@
    }
}

impl KConfigValidator {
    /// Reads a kernel configuration from its text: each line `KEY=VALUE` sets
    /// `KEY`, both sides trimmed; blank lines, `#` comments and lines without
    /// `=` are skipped.
    pub fn from_text(content: &str) -> (r: Self)
        ensures
            r@ == kconfig_map(text::lines(content@)),
    {
        let v = text::chars_of(content);
        let ls = text::lines_of(&v);
        let ghost lv = text::range_views(v@, ls@);
        let mut config = StrMap::new();
        let mut i: usize = 0;
        while i < ls.len()
            invariant
                v@ == content@,
                lv == text::range_views(v@, ls@),
                lv == text::lines(content@),
                text::ranges_within(ls@, 0, v@.len() as int),
                i <= ls@.len(),
                config@ == kconfig_map(lv.take(i as int)),
            decreases ls@.len() - i,
        {
            let (lo, hi) = ls[i];
            proof {
                assert(lv.take(i + 1).drop_last() =~= lv.take(i as int));
                assert(lv.take(i + 1).last() == v@.subrange(lo as int, hi as int));
            }
            let (a, b) = text::trim_bounds(&v, lo, hi);
            let ghost t = v@.subrange(a as int, b as int);
            if a < b && v[a] != '#' {
                match text::find_char_in(&v, a, b, '=') {
                    Some(p) => {
                        let (ka, kb) = text::trim_bounds(&v, a, p);
                        let (va, vb) = text::trim_bounds(&v, p + 1, b);
                        let key = text::string_from_range(&v, ka, kb);
                        let value = text::string_from_range(&v, va, vb);
                        proof {
                            assert(t.take(p - a) =~= v@.subrange(a as int, p as int));
                            assert(t.skip(p - a + 1) =~= v@.subrange(p + 1, b as int));
                        }
                        config.insert(key, value);
                    },
                    None => {},
                }
            }
            i = i + 1;
        }
        proof {
            assert(lv.take(ls@.len() as int) =~= lv);
        }
        KConfigValidator { config }
    }

    fn lookup(&self, option: &str) -> (r: Option<&String>)
        ensures
            match r {
                Some(v) => self@.contains_key(config_key(option@)) && self@[config_key(option@)]
                    == v@,
                None => !self@.contains_key(config_key(option@)),
            },
    {
        let key = config_key_string(option);
        self.config.get(&key)
    }

    /// The option (with or without its `CONFIG_` prefix) is set to `y` or `m`.
    pub fn is_enabled(&self, option: &str) -> (r: bool)
        ensures
            r == option_enabled(self@, option@),
    {
        match self.lookup(option) {
            Some(v) => {
                let y = String::from_str("y");
                let m = String::from_str("m");
                *v == y || *v == m
            },
            None => false,
        }
    }

    /// The option (with or without its `CONFIG_` prefix) is set to `m`.
    pub fn is_module(&self, option: &str) -> (r: bool)
        ensures
            r == option_module(self@, option@),
    {
        match self.lookup(option) {
            Some(v) => {
                let m = String::from_str("m");
                *v == m
            },
            None => false,
        }
    }
}


// ---------------------------------------------------------------------------
// The validation report
// ---------------------------------------------------------------------------

/// A finding: (kernel option or name it is about, message).
pub type Finding = (Seq<char>, Seq<char>);

/// The four lists of a validation report.
#[verifier::ext_equal]
pub struct Report {
    pub errors: Seq<Finding>,
    pub warnings: Seq<Finding>,
    pub successes: Seq<Finding>,
    pub info: Seq<Finding>,
}

impl Report {
    pub open spec fn empty() -> Report {
        Report { errors: seq![], warnings: seq![], successes: seq![], info: seq![] }
    }

    pub open spec fn error(self, o: Seq<char>, m: Seq<char>) -> Report {
        Report {
            errors: self.errors.push((o, m)),
            warnings: self.warnings,
            successes: self.successes,
            info: self.info,
        }
    }

    pub open spec fn warning(self, o: Seq<char>, m: Seq<char>) -> Report {
        Report {
            errors: self.errors,
            warnings: self.warnings.push((o, m)),
            successes: self.successes,
            info: self.info,
        }
    }

    pub open spec fn success(self, o: Seq<char>, m: Seq<char>) -> Report {
        Report {
            errors: self.errors,
            warnings: self.warnings,
            successes: self.successes.push((o, m)),
            info: self.info,
        }
    }

    pub open spec fn note(self, o: Seq<char>, m: Seq<char>) -> Report {
        Report {
            errors: self.errors,
            warnings: self.warnings,
            successes: self.successes,
            info: self.info.push((o, m)),
        }
    }
}

pub open spec fn findings_view(s: Seq<(String, String)>) -> Seq<Finding> {
    s.map_values(|p: (String, String)| (p.0@, p.1@))
}

/// The findings of a kernel configuration check, by kind, in the order they were made.
pub struct ValidationResult {
    errors: Vec<(String, String)>,
    warnings: Vec<(String, String)>,
    successes: Vec<(String, String)>,
    info: Vec<(String, String)>,
}

impl View for ValidationResult {
    type V = Report;

    closed spec fn view(&self) -> Report {
        Report {
            errors: findings_view(self.errors@),
            warnings: findings_view(self.warnings@),
            successes: findings_view(self.successes@),
            info: findings_view(self.info@),
        }
    }
}

impl ValidationResult {
    pub fn new() -> (r: Self)
        ensures
            r@ == Report::empty(),
    {
        let r = ValidationResult {
            errors: Vec::new(),
            warnings: Vec::new(),
            successes: Vec::new(),
            info: Vec::new(),
        };
        proof {
            assert(r@ =~= Report::empty());
        }
        r
    }

    pub fn add_error(&mut self, option: &str, message: &str)
        ensures
            final(self)@ == old(self)@.error(option@, message@),
    {
        self.errors.push((String::from_str(option), String::from_str(message)));
        proof {
            assert(final(self)@.errors =~= old(self)@.errors.push((option@, message@)));
        }
    }

    pub fn add_warning(&mut self, option: &str, message: &str)
        ensures
            final(self)@ == old(self)@.warning(option@, message@),
    {
        self.warnings.push((String::from_str(option), String::from_str(message)));
        proof {
            assert(final(self)@.warnings =~= old(self)@.warnings.push((option@, message@)));
        }
    }

    pub fn add_success(&mut self, option: &str, message: &str)
        ensures
            final(self)@ == old(self)@.success(option@, message@),
    {
        self.successes.push((String::from_str(option), String::from_str(message)));
        proof {
            assert(final(self)@.successes =~= old(self)@.successes.push((option@, message@)));
        }
    }

    pub fn add_info(&mut self, option: &str, message: &str)
        ensures
            final(self)@ == old(self)@.note(option@, message@),
    {
        self.info.push((String::from_str(option), String::from_str(message)));
        proof {
            assert(final(self)@.info =~= old(self)@.info.push((option@, message@)));
        }
    }

    pub fn has_errors(&self) -> (r: bool)
        ensures
            r == (self@.errors.len() > 0),
    {
        self.errors.len() > 0
    }

    pub fn has_warnings(&self) -> (r: bool)
        ensures
            r == (self@.warnings.len() > 0),
    {
        self.warnings.len() > 0
    }

    pub fn errors(&self) -> (r: &Vec<(String, String)>)
        ensures
            findings_view(r@) == self@.errors,
    {
        &self.errors
    }

    pub fn warnings(&self) -> (r: &Vec<(String, String)>)
        ensures
            findings_view(r@) == self@.warnings,
    {
        &self.warnings
    }

    pub fn successes(&self) -> (r: &Vec<(String, String)>)
        ensures
            findings_view(r@) == self@.successes,
    {
        &self.successes
    }

    pub fn info(&self) -> (r: &Vec<(String, String)>)
        ensures
            findings_view(r@) == self@.info,
    {
        &self.info
    }

    /// The verdict that closes the validation summary: failed with any error,
    /// passed with warnings with any warning and no error, passed otherwise.
    pub fn verdict(&self) -> (r: ValidationVerdict)
        ensures
            r == (if self@.errors.len() > 0 {
                ValidationVerdict::Failed
            } else if self@.warnings.len() > 0 {
                ValidationVerdict::PassedWithWarnings
            } else {
                ValidationVerdict::Passed
            }),
    {
        if self.has_errors() {
            ValidationVerdict::Failed
        } else if self.has_warnings() {
            ValidationVerdict::PassedWithWarnings
        } else {
            ValidationVerdict::Passed
        }
    }
}

/// How a kernel configuration validation ends.
#[derive(Debug, Clone, Copy, PartialEq, Eq)]
pub enum ValidationVerdict {
    /// Some required option is missing: the configuration is incompatible.
    Failed,
    /// Nothing is missing, but something deserves a look.
    PassedWithWarnings,
    /// Compatible.
    Passed,
}


// ---------------------------------------------------------------------------
// Validation
// ---------------------------------------------------------------------------

/// Overlayfs, when the boot configuration asks for it, needs `OVERLAY_FS`.
pub open spec fn overlay_check(
    cfg: Map<Seq<char>, Seq<char>>,
    ov: Option<config::OverlayfsConfig>,
    r: Report,
) -> Report {
    match ov {
        Some(o) => if option_enabled(cfg, "OVERLAY_FS"@) {
            r.success("OVERLAY_FS"@, "Overlayfs support is enabled (device: "@ + o.device@ + ")"@)
        } else {
            r.error(
                "OVERLAY_FS"@,
                "Overlayfs is configured in microhop.conf but CONFIG_OVERLAY_FS is not enabled in kernel. System will fail to boot!"@,
            )
        },
        None => r,
    }
}

/// Loading modules needs `MODULES`.
pub open spec fn module_support_check(cfg: Map<Seq<char>, Seq<char>>, n: nat, r: Report) -> Report {
    if n > 0 {
        if !option_enabled(cfg, "MODULES"@) {
            r.error(
                "CONFIG_MODULES"@,
                "Kernel module support is disabled, but microhop.conf requires modules to be loaded"@,
            )
        } else {
            r.note("CONFIG_MODULES"@, "Kernel module support is enabled"@)
        }
    } else {
        r
    }
}

/// The kernel option of a module: its name in upper case, `-` read as `_`.
pub open spec fn module_config_name(m: Seq<char>) -> Seq<char> {
    text::replace_char(text::unicode_uppercase(m), '-', '_')
}

/// A module should be loadable (`m`); built in (`y`) is worth a warning, absent an error.
pub open spec fn module_check(cfg: Map<Seq<char>, Seq<char>>, m: Seq<char>, r: Report) -> Report {
    let c = module_config_name(m);
    if option_module(cfg, c) {
        r.success(c, "Module "@ + m + " can be loaded"@)
    } else if option_enabled(cfg, c) {
        r.warning(
            c,
            "Module "@ + m
                + " is built-in (=y) instead of loadable module (=m). It will be available but cannot be loaded dynamically"@,
        )
    } else {
        r.error(c, "Module "@ + m + " is not enabled in kernel config. Required by microhop.conf"@)
    }
}

pub open spec fn module_checks(cfg: Map<Seq<char>, Seq<char>>, ms: Seq<Seq<char>>, r: Report) -> Report
    decreases ms.len(),
{
    if ms.len() == 0 {
        r
    } else {
        module_check(cfg, ms.last(), module_checks(cfg, ms.drop_last(), r))
    }
}

/// A filesystem needs its kernel option; when it was asked for explicitly
/// (`required`) what is missing is an error, otherwise a warning.
pub open spec fn fs_check(
    cfg: Map<Seq<char>, Seq<char>>,
    fstype: Seq<char>,
    required: bool,
    r: Report,
) -> Report {
    let lower = text::unicode_lowercase(fstype);
    match filesystem_config(fstype) {
        Some(c) => {
            let o = text::trim_start_matches(c, "CONFIG_"@);
            if option_enabled(cfg, o) {
                r.success(o, "Filesystem "@ + lower + " is supported"@)
            } else if required {
                r.error(o, "Filesystem "@ + lower + " is not enabled. Required for specified rootfs"@)
            } else {
                r.warning(o, "Filesystem "@ + lower + " is not enabled in kernel"@)
            }
        },
        None => {
            let m = "Unknown filesystem type '"@ + fstype
                + "'. Use --list-filesystems to see supported types"@;
            if required {
                r.error(fstype, m)
            } else {
                r.warning(fstype, m)
            }
        },
    }
}

pub open spec fn fs_checks(
    cfg: Map<Seq<char>, Seq<char>>,
    l: Seq<Seq<char>>,
    required: bool,
    r: Report,
) -> Report
    decreases l.len(),
{
    if l.len() == 0 {
        r
    } else {
        fs_check(cfg, l.last(), required, fs_checks(cfg, l.drop_last(), required, r))
    }
}

/// A block device driver that was asked for needs its kernel option.
pub open spec fn blk_check(cfg: Map<Seq<char>, Seq<char>>, b: Seq<char>, r: Report) -> Report {
    let lower = text::unicode_lowercase(b);
    match block_device_config(b) {
        Some(c) => {
            let o = text::trim_start_matches(c, "CONFIG_"@);
            if option_enabled(cfg, o) {
                r.success(o, "Block device "@ + lower + " is supported"@)
            } else {
                r.error(
                    o,
                    "Block device "@ + lower
                        + " is not enabled. Required for specified block device"@,
                )
            }
        },
        None => r.error(
            b,
            "Unknown block device type '"@ + b
                + "'. Use --list-block-devices to see supported types"@,
        ),
    }
}

pub open spec fn blk_checks(cfg: Map<Seq<char>, Seq<char>>, l: Seq<Seq<char>>, r: Report) -> Report
    decreases l.len(),
{
    if l.len() == 0 {
        r
    } else {
        blk_check(cfg, l.last(), blk_checks(cfg, l.drop_last(), r))
    }
}

/// The features every boot needs: (option, description).
pub open spec fn base_features() -> Seq<(Seq<char>, Seq<char>)> {
    seq![
        ("BLK_DEV_INITRD"@, "Initial RAM filesystem support"@),
        ("DEVTMPFS"@, "Maintain a devtmpfs filesystem"@),
        ("TMPFS"@, "Tmpfs virtual memory filesystem"@),
        ("PROC_FS"@, "Proc filesystem"@),
        ("SYSFS"@, "Sysfs filesystem"@),
    ]
}

pub open spec fn base_check(
    cfg: Map<Seq<char>, Seq<char>>,
    f: Seq<char>,
    d: Seq<char>,
    r: Report,
) -> Report {
    if option_enabled(cfg, f) {
        r.note(f, d + " is enabled"@)
    } else {
        r.warning(f, d + " is not enabled. This may cause boot issues"@)
    }
}

pub open spec fn base_checks(
    cfg: Map<Seq<char>, Seq<char>>,
    l: Seq<(Seq<char>, Seq<char>)>,
    r: Report,
) -> Report
    decreases l.len(),
{
    if l.len() == 0 {
        r
    } else {
        base_check(cfg, l.last().0, l.last().1, base_checks(cfg, l.drop_last(), r))
    }
}

/// The filesystem types of the configured disks.
pub open spec fn disk_fstypes(d: Seq<config::DiskConfig>) -> Seq<Seq<char>> {
    d.map_values(|x: config::DiskConfig| x.fstype@)
}

/// The report of checking a kernel configuration against a boot configuration:
/// overlayfs, module support, each module, the filesystems asked for (or else
/// those of the configured disks, as warnings), the block devices asked for,
/// and the base features, in this order.
pub open spec fn validation_report(
    cfg: Map<Seq<char>, Seq<char>>,
    mh: MhConfig,
    filesystems: Option<Seq<Seq<char>>>,
    block_devices: Option<Seq<Seq<char>>>,
) -> Report {
    let r1 = overlay_check(cfg, mh.overlayfs, Report::empty());
    let r2 = module_support_check(cfg, mh.modules@.len(), r1);
    let r3 = module_checks(cfg, config::str_views(mh.modules@), r2);
    let r4 = match filesystems {
        Some(l) => fs_checks(cfg, l, true, r3),
        None => match mh.disks {
            Ok(d) => fs_checks(cfg, disk_fstypes(d@), false, r3),
            Err(_) => r3,
        },
    };
    let r5 = match block_devices {
        Some(l) => blk_checks(cfg, l, r4),
        None => r4,
    };
    base_checks(cfg, base_features(), r5)
}

impl KConfigValidator {
    /// Checks this kernel configuration against what a boot configuration needs.
    /// `filesystems` and `block_devices`, when given, are required; without
    /// `filesystems` the disks of the boot configuration are checked, with
    /// warnings only.
    pub fn validate(
        &self,
        mh_config: &MhConfig,
        filesystems: Option<&[String]>,
        block_devices: Option<&[String]>,
    ) -> (r: ValidationResult)
        ensures
            r@ == validation_report(
                self@,
                *mh_config,
                match filesystems {
                    Some(l) => Some(config::str_views(l@)),
                    None => None,
                },
                match block_devices {
                    Some(l) => Some(config::str_views(l@)),
                    None => None,
                },
            ),
    {
        let mut result = ValidationResult::new();
        match &mh_config.overlayfs {
            Some(ov) => {
                if self.is_enabled("OVERLAY_FS") {
                    let m = text::concat3(
                        "Overlayfs support is enabled (device: ",
                        ov.device.as_str(),
                        ")",
                    );
                    result.add_success("OVERLAY_FS", m.as_str());
                } else {
                    result.add_error(
                        "OVERLAY_FS",
                        "Overlayfs is configured in microhop.conf but CONFIG_OVERLAY_FS is not enabled in kernel. System will fail to boot!",
                    );
                }
            },
            None => {},
        }
        let modules = &mh_config.modules;
        if modules.len() > 0 {
            if !self.is_enabled("MODULES") {
                result.add_error(
                    "CONFIG_MODULES",
                    "Kernel module support is disabled, but microhop.conf requires modules to be loaded",
                );
            } else {
                result.add_info("CONFIG_MODULES", "Kernel module support is enabled");
            }
        }
        let ghost r2 = result@;
        let ghost mv = config::str_views(modules@);
        let mut i: usize = 0;
        while i < modules.len()
            invariant
                i <= modules@.len(),
                mv == config::str_views(modules@),
                result@ == module_checks(self@, mv.take(i as int), r2),
            decreases modules@.len() - i,
        {
            proof {
                assert(mv.take(i + 1).drop_last() =~= mv.take(i as int));
                assert(mv.take(i + 1).last() == modules@[i as int]@);
            }
            self.validate_module(modules[i].as_str(), &mut result);
            i = i + 1;
        }
        proof {
            assert(mv.take(modules@.len() as int) =~= mv);
        }
        let ghost r3 = result@;
        match filesystems {
            Some(fs_list) => {
                self.check_filesystems(fs_list, true, &mut result);
            },
            None => match &mh_config.disks {
                Ok(disks) => {
                    let ghost dv = disk_fstypes(disks@);
                    let mut j: usize = 0;
                    while j < disks.len()
                        invariant
                            j <= disks@.len(),
                            dv == disk_fstypes(disks@),
                            result@ == fs_checks(self@, dv.take(j as int), false, r3),
                        decreases disks@.len() - j,
                    {
                        proof {
                            assert(dv.take(j + 1).drop_last() =~= dv.take(j as int));
                            assert(dv.take(j + 1).last() == disks@[j as int].fstype@);
                        }
                        self.check_filesystem(disks[j].fstype.as_str(), false, &mut result);
                        j = j + 1;
                    }
                    proof {
                        assert(dv.take(disks@.len() as int) =~= dv);
                    }
                },
                Err(_) => {},
            },
        }
        let ghost r4 = result@;
        match block_devices {
            Some(blk_list) => {
                let ghost bv = config::str_views(blk_list@);
                let mut j: usize = 0;
                while j < blk_list.len()
                    invariant
                        j <= blk_list@.len(),
                        bv == config::str_views(blk_list@),
                        result@ == blk_checks(self@, bv.take(j as int), r4),
                    decreases blk_list@.len() - j,
                {
                    proof {
                        assert(bv.take(j + 1).drop_last() =~= bv.take(j as int));
                        assert(bv.take(j + 1).last() == blk_list@[j as int]@);
                    }
                    self.check_block_device(blk_list[j].as_str(), &mut result);
                    j = j + 1;
                }
                proof {
                    assert(bv.take(blk_list@.len() as int) =~= bv);
                }
            },
            None => {},
        }
        self.validate_base_features(&mut result);
        result
    }

    fn check_filesystems(&self, fs_list: &[String], required: bool, result: &mut ValidationResult)
        ensures
            final(result)@ == fs_checks(self@, config::str_views(fs_list@), required, old(result)@),
    {
        let ghost r0 = result@;
        let ghost fv = config::str_views(fs_list@);
        let mut j: usize = 0;
        while j < fs_list.len()
            invariant
                j <= fs_list@.len(),
                fv == config::str_views(fs_list@),
                result@ == fs_checks(self@, fv.take(j as int), required, r0),
            decreases fs_list@.len() - j,
        {
            proof {
                assert(fv.take(j + 1).drop_last() =~= fv.take(j as int));
                assert(fv.take(j + 1).last() == fs_list@[j as int]@);
            }
            self.check_filesystem(fs_list[j].as_str(), required, result);
            j = j + 1;
        }
        proof {
            assert(fv.take(fs_list@.len() as int) =~= fv);
        }
    }

    fn check_filesystem(&self, fstype: &str, required: bool, result: &mut ValidationResult)
        ensures
            final(result)@ == fs_check(self@, fstype@, required, old(result)@),
    {
        match get_filesystem_config(fstype) {
            Some(config_name) => {
                let option = text::trim_start_matches_str(config_name, "CONFIG_");
                let lower = text::to_lowercase(fstype);
                if self.is_enabled(option.as_str()) {
                    let m = text::concat3("Filesystem ", lower.as_str(), " is supported");
                    result.add_success(option.as_str(), m.as_str());
                } else if required {
                    let m = text::concat3(
                        "Filesystem ",
                        lower.as_str(),
                        " is not enabled. Required for specified rootfs",
                    );
                    result.add_error(option.as_str(), m.as_str());
                } else {
                    let m = text::concat3(
                        "Filesystem ",
                        lower.as_str(),
                        " is not enabled in kernel",
                    );
                    result.add_warning(option.as_str(), m.as_str());
                }
            },
            None => {
                let m = text::concat3(
                    "Unknown filesystem type '",
                    fstype,
                    "'. Use --list-filesystems to see supported types",
                );
                if required {
                    result.add_error(fstype, m.as_str());
                } else {
                    result.add_warning(fstype, m.as_str());
                }
            },
        }
    }

    fn check_block_device(&self, blktype: &str, result: &mut ValidationResult)
        ensures
            final(result)@ == blk_check(self@, blktype@, old(result)@),
    {
        match get_block_device_config(blktype) {
            Some(config_name) => {
                let option = text::trim_start_matches_str(config_name, "CONFIG_");
                let lower = text::to_lowercase(blktype);
                if self.is_enabled(option.as_str()) {
                    let m = text::concat3("Block device ", lower.as_str(), " is supported");
                    result.add_success(option.as_str(), m.as_str());
                } else {
                    let m = text::concat3(
                        "Block device ",
                        lower.as_str(),
                        " is not enabled. Required for specified block device",
                    );
                    result.add_error(option.as_str(), m.as_str());
                }
            },
            None => {
                let m = text::concat3(
                    "Unknown block device type '",
                    blktype,
                    "'. Use --list-block-devices to see supported types",
                );
                result.add_error(blktype, m.as_str());
            },
        }
    }

    fn validate_module(&self, module_name: &str, result: &mut ValidationResult)
        ensures
            final(result)@ == module_check(self@, module_name@, old(result)@),
    {
        let upper = text::to_uppercase(module_name);
        let config_name = text::replace_char_str(upper.as_str(), '-', '_');
        if self.is_module(config_name.as_str()) {
            let m = text::concat3("Module ", module_name, " can be loaded");
            result.add_success(config_name.as_str(), m.as_str());
        } else if self.is_enabled(config_name.as_str()) {
            let m = text::concat3(
                "Module ",
                module_name,
                " is built-in (=y) instead of loadable module (=m). It will be available but cannot be loaded dynamically",
            );
            result.add_warning(config_name.as_str(), m.as_str());
        } else {
            let m = text::concat3(
                "Module ",
                module_name,
                " is not enabled in kernel config. Required by microhop.conf",
            );
            result.add_error(config_name.as_str(), m.as_str());
        }
    }

    fn validate_base_features(&self, result: &mut ValidationResult)
        ensures
            final(result)@ == base_checks(self@, base_features(), old(result)@),
    {
        let required_features: Vec<(&str, &str)> = vec![
            ("BLK_DEV_INITRD", "Initial RAM filesystem support"),
            ("DEVTMPFS", "Maintain a devtmpfs filesystem"),
            ("TMPFS", "Tmpfs virtual memory filesystem"),
            ("PROC_FS", "Proc filesystem"),
            ("SYSFS", "Sysfs filesystem"),
        ];
        let ghost fv = required_features@.map_values(|e: (&str, &str)| (e.0@, e.1@));
        proof {
            assert(fv =~= base_features());
        }
        let ghost r0 = result@;
        let mut i: usize = 0;
        while i < required_features.len()
            invariant
                i <= required_features@.len(),
                fv == required_features@.map_values(|e: (&str, &str)| (e.0@, e.1@)),
                fv == base_features(),
                result@ == base_checks(self@, fv.take(i as int), r0),
            decreases required_features@.len() - i,
        {
            let (feature, description) = required_features[i];
            proof {
                assert(fv.take(i + 1).drop_last() =~= fv.take(i as int));
                assert(fv.take(i + 1).last() == (feature@, description@));
            }
            if self.is_enabled(feature) {
                let mut m = String::from_str(description);
                m.append(" is enabled");
                result.add_info(feature, m.as_str());
            } else {
                let mut m = String::from_str(description);
                m.append(" is not enabled. This may cause boot issues");
                result.add_warning(feature, m.as_str());
            }
            i = i + 1;
        }
        proof {
            assert(fv.take(required_features@.len() as int) =~= fv);
        }
    }
}


// ---------------------------------------------------------------------------
// Laws
// ---------------------------------------------------------------------------

/// An option that is a module is enabled.
pub proof fn lemma_module_is_enabled(cfg: Map<Seq<char>, Seq<char>>, option: Seq<char>)
    ensures
        option_module(cfg, option) ==> option_enabled(cfg, option),
{
}

/// An option is looked up the same with or without its `CONFIG_` prefix:
/// `X` and `CONFIG_X` name the same setting.
pub proof fn lemma_prefix_optional(cfg: Map<Seq<char>, Seq<char>>, option: Seq<char>)
    requires
        !text::starts_with(option, "CONFIG_"@),
    ensures
        option_enabled(cfg, "CONFIG_"@ + option) == option_enabled(cfg, option),
        option_module(cfg, "CONFIG_"@ + option) == option_module(cfg, option),
{
    let p = "CONFIG_"@;
    assert((p + option).take(p.len() as int) =~= p);
}

/// A later `KEY=VALUE` line overrides what earlier lines set for `KEY`.
pub proof fn lemma_last_setting_wins(ls: Seq<Seq<char>>, line: Seq<char>)
    ensures
        kconfig_entry(line) matches Some(kv) ==> kconfig_map(ls.push(line)) == kconfig_map(
            ls,
        ).insert(kv.0, kv.1),
{
    assert(ls.push(line).drop_last() =~= ls);
}

/// Counting the findings: the errors, warnings, successes and notes of a report.
pub open spec fn findings(r: Report) -> nat {
    r.errors.len() + r.warnings.len() + r.successes.len() + r.info.len()
}

proof fn lemma_module_checks_count(cfg: Map<Seq<char>, Seq<char>>, ms: Seq<Seq<char>>, r: Report)
    ensures
        findings(module_checks(cfg, ms, r)) == findings(r) + ms.len(),
        module_checks(cfg, ms, r).errors.len() >= r.errors.len(),
    decreases ms.len(),
{
    if ms.len() > 0 {
        lemma_module_checks_count(cfg, ms.drop_last(), r);
    }
}

proof fn lemma_fs_checks_count(
    cfg: Map<Seq<char>, Seq<char>>,
    l: Seq<Seq<char>>,
    required: bool,
    r: Report,
)
    ensures
        findings(fs_checks(cfg, l, required, r)) == findings(r) + l.len(),
        fs_checks(cfg, l, required, r).errors.len() >= r.errors.len(),
    decreases l.len(),
{
    if l.len() > 0 {
        lemma_fs_checks_count(cfg, l.drop_last(), required, r);
    }
}

proof fn lemma_blk_checks_count(cfg: Map<Seq<char>, Seq<char>>, l: Seq<Seq<char>>, r: Report)
    ensures
        findings(blk_checks(cfg, l, r)) == findings(r) + l.len(),
        blk_checks(cfg, l, r).errors.len() >= r.errors.len(),
    decreases l.len(),
{
    if l.len() > 0 {
        lemma_blk_checks_count(cfg, l.drop_last(), r);
    }
}

proof fn lemma_base_checks_count(
    cfg: Map<Seq<char>, Seq<char>>,
    l: Seq<(Seq<char>, Seq<char>)>,
    r: Report,
)
    ensures
        findings(base_checks(cfg, l, r)) == findings(r) + l.len(),
        base_checks(cfg, l, r).errors.len() == r.errors.len(),
    decreases l.len(),
{
    if l.len() > 0 {
        lemma_base_checks_count(cfg, l.drop_last(), r);
    }
}

/// Every check of a validation yields exactly one finding: one for overlayfs
/// when it is configured, one for module support when modules are configured,
/// one per module, per filesystem checked, per block device asked for, and one
/// per base feature (five).
pub proof fn lemma_one_finding_per_check(
    cfg: Map<Seq<char>, Seq<char>>,
    mh: MhConfig,
    filesystems: Option<Seq<Seq<char>>>,
    block_devices: Option<Seq<Seq<char>>>,
)
    ensures
        findings(validation_report(cfg, mh, filesystems, block_devices)) == (if mh.overlayfs is Some {
            1nat
        } else {
            0nat
        }) + (if mh.modules@.len() > 0 {
            1nat
        } else {
            0nat
        }) + mh.modules@.len() + match filesystems {
            Some(l) => l.len(),
            None => match mh.disks {
                Ok(d) => d@.len(),
                Err(_) => 0,
            },
        } + match block_devices {
            Some(l) => l.len(),
            None => 0,
        } + 5,
{
    let r1 = overlay_check(cfg, mh.overlayfs, Report::empty());
    let r2 = module_support_check(cfg, mh.modules@.len(), r1);
    let mv = config::str_views(mh.modules@);
    lemma_module_checks_count(cfg, mv, r2);
    let r3 = module_checks(cfg, mv, r2);
    match filesystems {
        Some(l) => lemma_fs_checks_count(cfg, l, true, r3),
        None => match mh.disks {
            Ok(d) => lemma_fs_checks_count(cfg, disk_fstypes(d@), false, r3),
            Err(_) => {},
        },
    }
    let r4 = match filesystems {
        Some(l) => fs_checks(cfg, l, true, r3),
        None => match mh.disks {
            Ok(d) => fs_checks(cfg, disk_fstypes(d@), false, r3),
            Err(_) => r3,
        },
    };
    match block_devices {
        Some(l) => lemma_blk_checks_count(cfg, l, r4),
        None => {},
    }
    let r5 = match block_devices {
        Some(l) => blk_checks(cfg, l, r4),
        None => r4,
    };
    lemma_base_checks_count(cfg, base_features(), r5);
    assert(base_features().len() == 5);
}

/// An overlayfs that the configuration asks for on a kernel without
/// `CONFIG_OVERLAY_FS`, or modules on a kernel without module support, make
/// the validation fail.
pub proof fn lemma_missing_support_fails(
    cfg: Map<Seq<char>, Seq<char>>,
    mh: MhConfig,
    filesystems: Option<Seq<Seq<char>>>,
    block_devices: Option<Seq<Seq<char>>>,
)
    requires
        (mh.overlayfs is Some && !option_enabled(cfg, "OVERLAY_FS"@)) || (mh.modules@.len() > 0
            && !option_enabled(cfg, "MODULES"@)),
    ensures
        validation_report(cfg, mh, filesystems, block_devices).errors.len() > 0,
{
    let r1 = overlay_check(cfg, mh.overlayfs, Report::empty());
    let r2 = module_support_check(cfg, mh.modules@.len(), r1);
    assert(r2.errors.len() > 0);
    let mv = config::str_views(mh.modules@);
    lemma_module_checks_count(cfg, mv, r2);
    let r3 = module_checks(cfg, mv, r2);
    match filesystems {
        Some(l) => lemma_fs_checks_count(cfg, l, true, r3),
        None => match mh.disks {
            Ok(d) => lemma_fs_checks_count(cfg, disk_fstypes(d@), false, r3),
            Err(_) => {},
        },
    }
    let r4 = match filesystems {
        Some(l) => fs_checks(cfg, l, true, r3),
        None => match mh.disks {
            Ok(d) => fs_checks(cfg, disk_fstypes(d@), false, r3),
            Err(_) => r3,
        },
    };
    match block_devices {
        Some(l) => lemma_blk_checks_count(cfg, l, r4),
        None => {},
    }
    let r5 = match block_devices {
        Some(l) => blk_checks(cfg, l, r4),
        None => r4,
    };
    lemma_base_checks_count(cfg, base_features(), r5);
}

proof fn lemma_ascii_lower_matches(s: Seq<char>)
    ensures
        text::eq_ignore_ascii_case(text::ascii_lower_seq(s), s),
{
    assert forall|i: int| 0 <= i < s.len() implies text::ascii_lower(
        #[trigger] text::ascii_lower_seq(s)[i],
    ) == text::ascii_lower(s[i]) by {
        let c = s[i];
        if 'A' <= c && c <= 'Z' {
            assert(text::ascii_lower_seq(s)[i] == text::ascii_lower(c));
            assert('a' <= text::ascii_lower(c) && text::ascii_lower(c) <= 'z');
        }
    }
}

/// Support tables are looked up without regard to ASCII case: keys that differ
/// only in the case of ASCII letters find the same row.
pub proof fn lemma_lookup_ignores_ascii_case(
    t: Seq<(Seq<char>, Seq<char>, Seq<char>)>,
    k1: Seq<char>,
    k2: Seq<char>,
)
    requires
        text::eq_ignore_ascii_case(k1, k2),
    ensures
        table_lookup(t, k1) == table_lookup(t, k2),
    decreases t.len(),
{
    if t.len() > 0 {
        assert(text::eq_ignore_ascii_case(t[0].0, k1) == text::eq_ignore_ascii_case(t[0].0, k2))
            by {
            if text::eq_ignore_ascii_case(t[0].0, k1) {
                assert forall|i: int| 0 <= i < t[0].0.len() implies text::ascii_lower(
                    #[trigger] t[0].0[i],
                ) == text::ascii_lower(k2[i]) by {
                    assert(text::ascii_lower(k1[i]) == text::ascii_lower(k2[i]));
                }
            }
            if text::eq_ignore_ascii_case(t[0].0, k2) {
                assert forall|i: int| 0 <= i < t[0].0.len() implies text::ascii_lower(
                    #[trigger] t[0].0[i],
                ) == text::ascii_lower(k1[i]) by {
                    assert(text::ascii_lower(k1[i]) == text::ascii_lower(k2[i]));
                }
            }
        }
        lemma_lookup_ignores_ascii_case(t.skip(1), k1, k2);
    }
}

/// The filesystem and block device tables do not care about ASCII case: a name
/// and its ASCII upper-case form find the same kernel option. (For ASCII names
/// this is what `get_filesystem_config` and `get_block_device_config` return.)
pub proof fn lemma_config_lookup_ignores_ascii_case(name: Seq<char>)
    ensures
        table_lookup(fs_table(), name) == table_lookup(fs_table(), text::ascii_upper_seq(name)),
        table_lookup(blk_table(), name) == table_lookup(blk_table(), text::ascii_upper_seq(name)),
{
    let u = text::ascii_upper_seq(name);
    assert forall|i: int| 0 <= i < name.len() implies text::ascii_lower(#[trigger] name[i])
        == text::ascii_lower(u[i]) by {
        let c = name[i];
        assert(u[i] == text::ascii_upper(c));
        if 'a' <= c && c <= 'z' {
            assert('A' <= text::ascii_upper(c) && text::ascii_upper(c) <= 'Z');
        }
    }
    lemma_lookup_ignores_ascii_case(fs_table(), name, u);
    lemma_lookup_ignores_ascii_case(blk_table(), name, u);
}

proof fn lemma_lookup_is_a_row(t: Seq<(Seq<char>, Seq<char>, Seq<char>)>, key: Seq<char>)
    ensures
        table_lookup(t, key) matches Some(c) ==> exists|i: int| 0 <= i < t.len() && (#[trigger] t[i]).1 == c,
    decreases t.len(),
{
    if t.len() > 0 && !text::eq_ignore_ascii_case(t[0].0, key) {
        lemma_lookup_is_a_row(t.skip(1), key);
        if table_lookup(t, key) is Some {
            let c = table_lookup(t, key)->Some_0;
            let i = choose|i: int| 0 <= i < t.skip(1).len() && (#[trigger] t.skip(1)[i]).1 == c;
            assert(t[i + 1] == t.skip(1)[i]);
        }
    }
}

/// Every kernel option that the support tables give is a `CONFIG_` option.
pub proof fn lemma_config_options_prefixed(name: Seq<char>)
    ensures
        table_lookup(fs_table(), name) matches Some(c) ==> text::starts_with(c, "CONFIG_"@),
        table_lookup(blk_table(), name) matches Some(c) ==> text::starts_with(c, "CONFIG_"@),
{
    reveal_strlit("CONFIG_");
    reveal_strlit("CONFIG_ATA_PIIX");
    reveal_strlit("CONFIG_BLK_DEV_LOOP");
    reveal_strlit("CONFIG_BLK_DEV_NVME");
    reveal_strlit("CONFIG_BLK_DEV_SD");
    reveal_strlit("CONFIG_BLK_DEV_SR");
    reveal_strlit("CONFIG_BTRFS_FS");
    reveal_strlit("CONFIG_EXT2_FS");
    reveal_strlit("CONFIG_EXT4_FS");
    reveal_strlit("CONFIG_F2FS_FS");
    reveal_strlit("CONFIG_ISO9660_FS");
    reveal_strlit("CONFIG_JFFS2_FS");
    reveal_strlit("CONFIG_MMC_BLOCK");
    reveal_strlit("CONFIG_MMC_SDHCI");
    reveal_strlit("CONFIG_MTD_NAND_CORE");
    reveal_strlit("CONFIG_NTFS_FS");
    reveal_strlit("CONFIG_SATA_AHCI");
    reveal_strlit("CONFIG_SCSI_UFSHCD");
    reveal_strlit("CONFIG_SQUASHFS");
    reveal_strlit("CONFIG_TMPFS");
    reveal_strlit("CONFIG_UBIFS_FS");
    reveal_strlit("CONFIG_USB_STORAGE");
    reveal_strlit("CONFIG_USB_UAS");
    reveal_strlit("CONFIG_VFAT_FS");
    reveal_strlit("CONFIG_VIRTIO_BLK");
    reveal_strlit("CONFIG_VIRTIO_MMIO");
    reveal_strlit("CONFIG_XFS_FS");
    assert forall|i: int| 0 <= i < fs_table().len() implies text::starts_with(
        (#[trigger] fs_table()[i]).1,
        "CONFIG_"@,
    ) by {
        assert(fs_table()[i].1.take(7) =~= "CONFIG_"@);
    }
    assert forall|i: int| 0 <= i < blk_table().len() implies text::starts_with(
        (#[trigger] blk_table()[i]).1,
        "CONFIG_"@,
    ) by {
        assert(blk_table()[i].1.take(7) =~= "CONFIG_"@);
    }
    lemma_lookup_is_a_row(fs_table(), name);
    lemma_lookup_is_a_row(blk_table(), name);
}

/// `opt` is the kernel option named after `name`: `CONFIG_`, then the name in
/// capitals.
pub open spec fn option_named_after(name: Seq<char>, opt: Seq<char>) -> bool {
    opt.len() >= 7 + name.len() && opt.subrange(0, 7 + name.len() as int) == "CONFIG_"@ + text::ascii_upper_seq(name)
}

proof fn lemma_same_letter_same_capital(a: char, b: char)
    requires
        text::ascii_lower(a) == text::ascii_lower(b),
    ensures
        text::ascii_upper(a) == text::ascii_upper(b),
{
    let (ua, ub) = (a as u32, b as u32);
    assert(ua < 0xD800 || 0xE000 <= ua <= 0x10FFFF);
    if 'A' <= a && a <= 'Z' {
        assert(text::ascii_lower(a) as u32 == ua + 32);
    }
    if 'A' <= b && b <= 'Z' {
        assert(text::ascii_lower(b) as u32 == ub + 32);
    }
    if 'a' <= a && a <= 'z' {
        assert(text::ascii_upper(a) as u32 == ua - 32);
    }
    if 'a' <= b && b <= 'z' {
        assert(text::ascii_upper(b) as u32 == ub - 32);
    }
}

proof fn lemma_lookup_matches_a_row(t: Seq<(Seq<char>, Seq<char>, Seq<char>)>, key: Seq<char>)
    ensures
        table_lookup(t, key) matches Some(c) ==> exists|i: int|
            0 <= i < t.len() && (#[trigger] t[i]).1 == c && text::eq_ignore_ascii_case(t[i].0, key),
    decreases t.len(),
{
    if t.len() > 0 && !text::eq_ignore_ascii_case(t[0].0, key) {
        lemma_lookup_matches_a_row(t.skip(1), key);
        if table_lookup(t, key) is Some {
            let c = table_lookup(t, key)->Some_0;
            let i = choose|i: int|
                0 <= i < t.skip(1).len() && (#[trigger] t.skip(1)[i]).1 == c && text::eq_ignore_ascii_case(
                    t.skip(1)[i].0,
                    key,
                );
            assert(t[i + 1] == t.skip(1)[i]);
        }
    } else if t.len() > 0 {
        assert(t[0] == t[0]);
    }
}

/// Each filesystem's kernel option is named after the filesystem: every row of
/// the table gives `CONFIG_` and its name in capitals, and so does the option
/// that a lookup finds, in terms of the name looked up (in any ASCII case).
pub proof fn lemma_fs_option_named_after_fs(key: Seq<char>)
    ensures
        forall|i: int| 0 <= i < fs_table().len() ==> option_named_after(
            (#[trigger] fs_table()[i]).0,
            fs_table()[i].1,
        ),
        table_lookup(fs_table(), key) matches Some(opt) ==> option_named_after(key, opt),
{
    reveal_strlit("CONFIG_");
    reveal_strlit("ext4");
    reveal_strlit("ext2");
    reveal_strlit("squashfs");
    reveal_strlit("btrfs");
    reveal_strlit("xfs");
    reveal_strlit("f2fs");
    reveal_strlit("jffs2");
    reveal_strlit("ubifs");
    reveal_strlit("tmpfs");
    reveal_strlit("iso9660");
    reveal_strlit("vfat");
    reveal_strlit("ntfs");
    reveal_strlit("CONFIG_EXT4_FS");
    reveal_strlit("CONFIG_EXT2_FS");
    reveal_strlit("CONFIG_SQUASHFS");
    reveal_strlit("CONFIG_BTRFS_FS");
    reveal_strlit("CONFIG_XFS_FS");
    reveal_strlit("CONFIG_F2FS_FS");
    reveal_strlit("CONFIG_JFFS2_FS");
    reveal_strlit("CONFIG_UBIFS_FS");
    reveal_strlit("CONFIG_TMPFS");
    reveal_strlit("CONFIG_ISO9660_FS");
    reveal_strlit("CONFIG_VFAT_FS");
    reveal_strlit("CONFIG_NTFS_FS");
    assert forall|i: int| 0 <= i < fs_table().len() implies option_named_after(
        (#[trigger] fs_table()[i]).0,
        fs_table()[i].1,
    ) by {
        let (n, o) = (fs_table()[i].0, fs_table()[i].1);
        assert(o.subrange(0, 7 + n.len() as int) =~= "CONFIG_"@ + text::ascii_upper_seq(n));
    }
    lemma_lookup_matches_a_row(fs_table(), key);
    if table_lookup(fs_table(), key) is Some {
        let opt = table_lookup(fs_table(), key)->Some_0;
        let i = choose|i: int|
            0 <= i < fs_table().len() && (#[trigger] fs_table()[i]).1 == opt && text::eq_ignore_ascii_case(
                fs_table()[i].0,
                key,
            );
        let n = fs_table()[i].0;
        assert(option_named_after(n, opt));
        assert forall|j: int| 0 <= j < key.len() implies text::ascii_upper(#[trigger] key[j])
            == text::ascii_upper(n[j]) by {
            lemma_same_letter_same_capital(key[j], n[j]);
        }
        assert(text::ascii_upper_seq(key) =~= text::ascii_upper_seq(n));
    }
}

proof fn lemma_fs_checks_warn_only(
    cfg: Map<Seq<char>, Seq<char>>,
    l: Seq<Seq<char>>,
    r: Report,
)
    ensures
        fs_checks(cfg, l, false, r).errors == r.errors,
    decreases l.len(),
{
    if l.len() > 0 {
        lemma_fs_checks_warn_only(cfg, l.drop_last(), r);
    }
}

proof fn lemma_base_checks_keep_errors(
    cfg: Map<Seq<char>, Seq<char>>,
    l: Seq<(Seq<char>, Seq<char>)>,
    r: Report,
)
    ensures
        base_checks(cfg, l, r).errors == r.errors,
    decreases l.len(),
{
    if l.len() > 0 {
        lemma_base_checks_keep_errors(cfg, l.drop_last(), r);
    }
}

/// Without a list of filesystems or block devices to require, the filesystems
/// of the configured disks are checked with warnings only, and nothing is
/// checked of block devices: every error comes from overlayfs, module support
/// or a module.
pub proof fn lemma_unrequired_checks_only_warn(cfg: Map<Seq<char>, Seq<char>>, mh: MhConfig)
    ensures
        validation_report(cfg, mh, None, None).errors == module_checks(
            cfg,
            config::str_views(mh.modules@),
            module_support_check(cfg, mh.modules@.len(), overlay_check(cfg, mh.overlayfs, Report::empty())),
        ).errors,
{
    let r3 = module_checks(
        cfg,
        config::str_views(mh.modules@),
        module_support_check(cfg, mh.modules@.len(), overlay_check(cfg, mh.overlayfs, Report::empty())),
    );
    match mh.disks {
        Ok(d) => lemma_fs_checks_warn_only(cfg, disk_fstypes(d@), r3),
        Err(_) => {},
    }
    let r4 = match mh.disks {
        Ok(d) => fs_checks(cfg, disk_fstypes(d@), false, r3),
        Err(_) => r3,
    };
    lemma_base_checks_keep_errors(cfg, base_features(), r4);
}

/// The four kinds of findings, one for each `add_*` method of `ValidationResult`.
pub enum FindingKind {
    Error,
    Warning,
    Success,
    Info,
}

/// A report after one `add_*` call of kind `k`.
pub open spec fn add_finding(r: Report, k: FindingKind, o: Seq<char>, m: Seq<char>) -> Report {
    match k {
        FindingKind::Error => r.error(o, m),
        FindingKind::Warning => r.warning(o, m),
        FindingKind::Success => r.success(o, m),
        FindingKind::Info => r.note(o, m),
    }
}

/// A report after a sequence of `add_*` calls, in order.
pub open spec fn add_findings(r: Report, calls: Seq<(FindingKind, Seq<char>, Seq<char>)>) -> Report
    decreases calls.len(),
{
    if calls.len() == 0 {
        r
    } else {
        let c = calls.last();
        add_finding(add_findings(r, calls.drop_last()), c.0, c.1, c.2)
    }
}

/// After `ValidationResult::new` and any sequence of `add_*` calls, the result
/// has errors exactly when some call was `add_error`, and has warnings exactly
/// when some call was `add_warning`.
pub proof fn lemma_has_errors_and_warnings(calls: Seq<(FindingKind, Seq<char>, Seq<char>)>)
    ensures
        (add_findings(Report::empty(), calls).errors.len() > 0) == (exists|i: int|
            0 <= i < calls.len() && (#[trigger] calls[i]).0 is Error),
        (add_findings(Report::empty(), calls).warnings.len() > 0) == (exists|i: int|
            0 <= i < calls.len() && (#[trigger] calls[i]).0 is Warning),
    decreases calls.len(),
{
    if calls.len() > 0 {
        let init = calls.drop_last();
        lemma_has_errors_and_warnings(init);
        assert forall|i: int| 0 <= i < init.len() implies #[trigger] init[i] == calls[i] by {}
        if exists|i: int| 0 <= i < init.len() && (#[trigger] init[i]).0 is Error {
            let i = choose|i: int| 0 <= i < init.len() && (#[trigger] init[i]).0 is Error;
            assert(calls[i] == init[i]);
        }
        if exists|i: int| 0 <= i < init.len() && (#[trigger] init[i]).0 is Warning {
            let i = choose|i: int| 0 <= i < init.len() && (#[trigger] init[i]).0 is Warning;
            assert(calls[i] == init[i]);
        }
        let last = calls.len() - 1;
        assert(calls[last] == calls.last());
        if exists|i: int| 0 <= i < calls.len() && (#[trigger] calls[i]).0 is Error {
            let i = choose|i: int| 0 <= i < calls.len() && (#[trigger] calls[i]).0 is Error;
            if i < last {
                assert(init[i] == calls[i]);
            }
        }
        if exists|i: int| 0 <= i < calls.len() && (#[trigger] calls[i]).0 is Warning {
            let i = choose|i: int| 0 <= i < calls.len() && (#[trigger] calls[i]).0 is Warning;
            if i < last {
                assert(init[i] == calls[i]);
            }
        }
    }
}

} // verus!
