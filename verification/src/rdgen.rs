//! What the initramfs generator computes: the directory layout, the firmware
//! list entries, the modules to bring and the boot configuration it writes.
use vstd::prelude::*;
use crate::config;
use crate::config::MhConfig;
use crate::text;

verus! {

// ---------------------------------------------------------------------------
// Layout
// ---------------------------------------------------------------------------

/// The directories of a new initramfs, and the modules directory (empty without
/// a kernel).
pub open spec fn ramfs_layout(sysroot: Seq<char>, kernel: Option<Seq<char>>) -> (
    Seq<Seq<char>>,
    Seq<char>,
) {
    let base = seq![
        "bin"@,
        "etc"@,
        "proc"@,
        "dev"@,
        "sys"@,
        text::trim_start_matches(sysroot, "/"@),
    ];
    match kernel {
        Some(k) => (base.push("lib/modules/"@ + k), "lib/modules/"@ + k),
        None => (base, seq![]),
    }
}

/// The directories to create in a new initramfs for the sysroot `sysroot` and
/// the kernel release `kernel`, and the modules directory.
pub fn ramfs_dirs(sysroot: &str, kernel: Option<&str>) -> (r: (Vec<String>, String))
    ensures
        r.0@.map_values(|s: String| s@) == ramfs_layout(
            sysroot@,
            match kernel {
                Some(k) => Some(k@),
                None => None,
            },
        ).0,
        r.1@ == ramfs_layout(
            sysroot@,
            match kernel {
                Some(k) => Some(k@),
                None => None,
            },
        ).1,
{
    let mut dirs: Vec<String> = Vec::new();
    dirs.push(String::from_str("bin"));
    dirs.push(String::from_str("etc"));
    dirs.push(String::from_str("proc"));
    dirs.push(String::from_str("dev"));
    dirs.push(String::from_str("sys"));
    dirs.push(text::trim_start_matches_str(sysroot, "/"));
    let ghost base = dirs@.map_values(|s: String| s@);
    proof {
        assert(base =~= ramfs_layout(sysroot@, None).0);
    }
    match kernel {
        Some(k) => {
            let kr = text::concat_str("lib/modules/", k);
            dirs.push(text::concat_str("lib/modules/", k));
            proof {
                assert(dirs@.map_values(|s: String| s@) =~= base.push("lib/modules/"@ + k@));
            }
            (dirs, kr)
        },
        None => {
            let kr = String::new();
            proof {
                assert(kr@ =~= Seq::<char>::empty());
            }
            (dirs, kr)
        },
    }
}

// ---------------------------------------------------------------------------
// Firmware list
// ---------------------------------------------------------------------------

/// What a line of a firmware list says.
#[derive(Debug, PartialEq, Eq)]
pub enum FirmwareLine {
    /// A blank line or a `#` comment.
    Skip,
    /// `SOURCE:DEST`, both trimmed.
    Entry(String, String),
    /// A line without `:`.
    Invalid,
}

pub open spec fn firmware_line(line: Seq<char>) -> Option<Option<(Seq<char>, Seq<char>)>> {
    let t = text::trim(line);
    if t.len() == 0 || t[0] == '#' {
        Some(None)
    } else {
        match text::find_char(t, ':') {
            Some(p) => Some(Some((text::trim(t.take(p)), text::trim(t.skip(p + 1))))),
            None => None,
        }
    }
}

/// What a line of a firmware list says: blank lines and `#` comments are
/// skipped, `SOURCE:DEST` (split at the first `:`) names a file to copy, and any
/// other line is invalid.
pub fn parse_firmware_line(line: &str) -> (r: FirmwareLine)
    ensures
        match r {
            FirmwareLine::Skip => firmware_line(line@) == Some(
                None::<(Seq<char>, Seq<char>)>,
            ),
            FirmwareLine::Entry(s, d) => firmware_line(line@) == Some(Some((s@, d@))),
            FirmwareLine::Invalid => firmware_line(line@) is None,
        },
{
    let v = text::chars_of(line);
    let (a, b) = text::trim_bounds(&v, 0, v.len());
    proof {
        assert(v@.subrange(0, v@.len() as int) =~= v@);
    }
    let ghost t = v@.subrange(a as int, b as int);
    if a == b || v[a] == '#' {
        return FirmwareLine::Skip;
    }
    match text::find_char_in(&v, a, b, ':') {
        Some(p) => {
            let (sa, sb) = text::trim_bounds(&v, a, p);
            let (da, db) = text::trim_bounds(&v, p + 1, b);
            proof {
                assert(t.take(p - a) =~= v@.subrange(a as int, p as int));
                assert(t.skip(p - a + 1) =~= v@.subrange(p + 1, b as int));
            }
            FirmwareLine::Entry(
                text::string_from_range(&v, sa, sb),
                text::string_from_range(&v, da, db),
            )
        },
        None => FirmwareLine::Invalid,
    }
}

// ---------------------------------------------------------------------------
// Kernel modules
// ---------------------------------------------------------------------------

/// A module's name: its file stem up to the first `.`.
pub open spec fn module_name(stem: Seq<char>) -> Seq<char> {
    match text::find_char(stem, '.') {
        Some(p) => stem.take(p),
        None => stem,
    }
}

/// A module's name from the stem of its file name (`ext4.ko` gives `ext4`).
pub fn module_name_from_stem(stem: &str) -> (r: String)
    ensures
        r@ == module_name(stem@),
{
    let v = text::chars_of(stem);
    proof {
        assert(v@.subrange(0, v@.len() as int) =~= v@);
    }
    match text::find_char_in(&v, 0, v.len(), '.') {
        Some(p) => text::string_from_range(&v, 0, p),
        None => text::string_from_chars(&v),
    }
}

/// The configured modules that no other configured module depends on, each once,
/// in order of first appearance.
pub open spec fn main_modules(ms: Seq<Seq<char>>, is_dep: Seq<bool>) -> Seq<Seq<char>>
    decreases ms.len(),
{
    if ms.len() == 0 {
        seq![]
    } else {
        let prev = main_modules(ms.drop_last(), is_dep.take(ms.len() - 1));
        if !is_dep[ms.len() - 1] && !prev.contains(ms.last()) {
            prev.push(ms.last())
        } else {
            prev
        }
    }
}

/// The modules looked up in the kernel are configured, not dependencies, and
/// each appears once.
pub proof fn lemma_main_modules(ms: Seq<Seq<char>>, is_dep: Seq<bool>)
    requires
        ms.len() == is_dep.len(),
    ensures
        main_modules(ms, is_dep).no_duplicates(),
        forall|k: int|
            0 <= k < main_modules(ms, is_dep).len() ==> exists|i: int|
                0 <= i < ms.len() && !is_dep[i] && ms[i] == #[trigger] main_modules(ms, is_dep)[k],
    decreases ms.len(),
{
    if ms.len() > 0 {
        let t = is_dep.take(ms.len() - 1);
        lemma_main_modules(ms.drop_last(), t);
        let prev = main_modules(ms.drop_last(), t);
        let r = main_modules(ms, is_dep);
        assert forall|k: int| 0 <= k < r.len() implies exists|i: int|
            0 <= i < ms.len() && !is_dep[i] && ms[i] == #[trigger] r[k] by {
            if k < prev.len() {
                assert(r[k] == prev[k]);
                let i = choose|i: int| 0 <= i < ms.len() - 1 && !t[i] && ms.drop_last()[i] == prev[k];
                assert(ms[i] == ms.drop_last()[i]);
                assert(is_dep[i] == t[i]);
            } else {
                assert(r[k] == ms.last());
            }
        }
    }
}

fn vec_contains(v: &Vec<String>, s: &String) -> (r: bool)
    ensures
        r == v@.map_values(|x: String| x@).contains(s@),
{
    let ghost vv = v@.map_values(|x: String| x@);
    let mut i: usize = 0;
    while i < v.len()
        invariant
            i <= v@.len(),
            vv == v@.map_values(|x: String| x@),
            forall|j: int| 0 <= j < i ==> vv[j] != s@,
        decreases v@.len() - i,
    {
        if v[i] == *s {
            proof {
                assert(vv[i as int] == s@);
            }
            return true;
        }
        i = i + 1;
    }
    false
}

/// The modules to look up in the kernel: the configured ones that are not a
/// dependency of another (`is_dep[i]` tells for `modules[i]`), without repeats.
pub fn select_main_modules(modules: &[String], is_dep: &[bool]) -> (r: Vec<String>)
    requires
        modules@.len() == is_dep@.len(),
    ensures
        r@.map_values(|x: String| x@) == main_modules(config::str_views(modules@), is_dep@),
{
    let ghost mv = config::str_views(modules@);
    let mut r: Vec<String> = Vec::new();
    let mut i: usize = 0;
    proof {
        assert(r@.map_values(|x: String| x@) =~= Seq::<Seq<char>>::empty());
    }
    while i < modules.len()
        invariant
            modules@.len() == is_dep@.len(),
            mv == config::str_views(modules@),
            i <= modules@.len(),
            r@.map_values(|x: String| x@) == main_modules(mv.take(i as int), is_dep@.take(i as int)),
        decreases modules@.len() - i,
    {
        proof {
            let t = mv.take(i + 1);
            assert(t.drop_last() =~= mv.take(i as int));
            assert(is_dep@.take(i + 1).take(i as int) =~= is_dep@.take(i as int));
            assert(t.last() == modules@[i as int]@);
        }
        if !is_dep[i] && !vec_contains(&r, &modules[i]) {
            let ghost before = r@;
            r.push(modules[i].clone());
            proof {
                assert(r@.map_values(|x: String| x@) =~= before.map_values(|x: String| x@).push(
                    modules@[i as int]@,
                ));
            }
        }
        i = i + 1;
    }
    proof {
        assert(mv.take(modules@.len() as int) =~= mv);
        assert(is_dep@.take(modules@.len() as int) =~= is_dep@);
    }
    r
}

#[verifier::external_type_specification]
#[verifier::external_body]
pub struct ExKernelInfo(kmoddep::kerman::KernelInfo);

/// The dependency index of a kernel's modules: the names of the modules that
/// some module depends on.
pub uninterp spec fn kernel_dependency_names(k: kmoddep::kerman::KernelInfo) -> Set<Seq<char>>;

/// `kmoddep::kerman::KernelInfo::is_dep`: whether `name` is in the kernel's
/// dependency index (a lookup in the set it holds, which never changes after
/// the kernel information was loaded).
#[verifier::external_body]
fn is_dependency(k: &kmoddep::kerman::KernelInfo, name: &str) -> (r: bool)
    ensures
        r == kernel_dependency_names(*k).contains(name@),
{
    k.is_dep(name)
}

/// Whether each module of `ms` is in the dependency index `deps`.
pub open spec fn dependency_flags(ms: Seq<Seq<char>>, deps: Set<Seq<char>>) -> Seq<bool> {
    ms.map_values(|m: Seq<char>| deps.contains(m))
}

/// The configured modules to look up in the kernel `k`: those that no module
/// of the kernel depends on, without repeats (see `main_modules`).
pub fn kernel_main_modules(k: &kmoddep::kerman::KernelInfo, modules: &[String]) -> (r: Vec<String>)
    ensures
        r@.map_values(|x: String| x@) == main_modules(
            config::str_views(modules@),
            dependency_flags(config::str_views(modules@), kernel_dependency_names(*k)),
        ),
{
    let ghost mv = config::str_views(modules@);
    let mut flags: Vec<bool> = Vec::new();
    let mut i: usize = 0;
    while i < modules.len()
        invariant
            i <= modules@.len(),
            mv == config::str_views(modules@),
            flags@ == dependency_flags(mv.take(i as int), kernel_dependency_names(*k)),
        decreases modules@.len() - i,
    {
        let d = is_dependency(k, modules[i].as_str());
        flags.push(d);
        proof {
            assert(flags@ =~= dependency_flags(mv.take(i + 1), kernel_dependency_names(*k)));
        }
        i = i + 1;
    }
    proof {
        assert(mv.take(modules@.len() as int) =~= mv);
    }
    select_main_modules(modules, flags.as_slice())
}

/// The modules brought into the initramfs: the main ones and their dependencies.
pub struct ModuleLists {
    pub main: Vec<String>,
    pub deps: Vec<String>,
}

/// The dependencies among `kd` that are not main modules, in order.
pub open spec fn new_deps(main: Seq<Seq<char>>, kd: Seq<Seq<char>>) -> Seq<Seq<char>>
    decreases kd.len(),
{
    if kd.len() == 0 {
        seq![]
    } else {
        new_deps(main, kd.drop_last()) + if main.contains(kd.last()) {
            seq![]
        } else {
            seq![kd.last()]
        }
    }
}

impl ModuleLists {
    pub fn new() -> (r: Self)
        ensures
            r.main@.len() == 0,
            r.deps@.len() == 0,
    {
        ModuleLists { main: Vec::new(), deps: Vec::new() }
    }

    /// The modules in the order they are to be loaded: the dependencies first,
    /// then the main modules.
    pub fn in_load_order(&self) -> (r: Vec<String>)
        ensures
            r@.map_values(|x: String| x@) == self.deps@.map_values(|x: String| x@)
                + self.main@.map_values(|x: String| x@),
    {
        let mut r: Vec<String> = Vec::new();
        let mut i: usize = 0;
        while i < self.deps.len()
            invariant
                i <= self.deps@.len(),
                r@.map_values(|x: String| x@) == self.deps@.take(i as int).map_values(|x: String| x@),
            decreases self.deps@.len() - i,
        {
            let ghost before = r@;
            r.push(clone_string(&self.deps[i]));
            proof {
                let f = |x: String| x@;
                assert(r@ == before.push(self.deps@[i as int]));
                assert(self.deps@.take(i + 1) =~= self.deps@.take(i as int).push(self.deps@[i as int]));
                assert(r@.map_values(f) =~= before.map_values(f).push(self.deps@[i as int]@));
                assert(self.deps@.take(i + 1).map_values(f) =~= self.deps@.take(i as int).map_values(
                    f,
                ).push(self.deps@[i as int]@));
            }
            i = i + 1;
        }
        proof {
            assert(self.deps@.take(self.deps@.len() as int) =~= self.deps@);
        }
        let ghost d = r@.map_values(|x: String| x@);
        let mut j: usize = 0;
        while j < self.main.len()
            invariant
                j <= self.main@.len(),
                r@.map_values(|x: String| x@) == d + self.main@.take(j as int).map_values(|x: String| x@),
            decreases self.main@.len() - j,
        {
            let ghost before = r@;
            r.push(clone_string(&self.main[j]));
            proof {
                let f = |x: String| x@;
                assert(r@ == before.push(self.main@[j as int]));
                assert(self.main@.take(j + 1) =~= self.main@.take(j as int).push(self.main@[j as int]));
                assert(r@.map_values(f) =~= before.map_values(f).push(self.main@[j as int]@));
                assert(self.main@.take(j + 1).map_values(f) =~= self.main@.take(j as int).map_values(
                    f,
                ).push(self.main@[j as int]@));
                assert(r@.map_values(f) =~= d + self.main@.take(j + 1).map_values(f));
            }
            j = j + 1;
        }
        proof {
            assert(self.main@.take(self.main@.len() as int) =~= self.main@);
        }
        r
    }

    /// Records a main module and its dependencies: the module joins the main
    /// list, each dependency that is not a main module joins the dependencies.
    pub fn record(&mut self, kmod: String, kmod_deps: &[String])
        ensures
            final(self).main@.map_values(|x: String| x@) == old(self).main@.map_values(
                |x: String| x@,
            ).push(kmod@),
            final(self).deps@.map_values(|x: String| x@) == old(self).deps@.map_values(
                |x: String| x@,
            ) + new_deps(
                old(self).main@.map_values(|x: String| x@).push(kmod@),
                config::str_views(kmod_deps@),
            ),
    {
        let ghost m0 = self.main@.map_values(|x: String| x@);
        let ghost d0 = self.deps@.map_values(|x: String| x@);
        let ghost kv = kmod@;
        self.main.push(kmod);
        let ghost m1 = self.main@.map_values(|x: String| x@);
        proof {
            assert(m1 =~= m0.push(kv));
        }
        let ghost kdv = config::str_views(kmod_deps@);
        let mut i: usize = 0;
        proof {
            assert(d0 + new_deps(m1, kdv.take(0)) =~= d0);
        }
        while i < kmod_deps.len()
            invariant
                i <= kmod_deps@.len(),
                kdv == config::str_views(kmod_deps@),
                m1 == self.main@.map_values(|x: String| x@),
                self.deps@.map_values(|x: String| x@) == d0 + new_deps(m1, kdv.take(i as int)),
            decreases kmod_deps@.len() - i,
        {
            proof {
                assert(kdv.take(i + 1).drop_last() =~= kdv.take(i as int));
                assert(kdv.take(i + 1).last() == kmod_deps@[i as int]@);
            }
            let ghost before = self.deps@.map_values(|x: String| x@);
            if !vec_contains(&self.main, &kmod_deps[i]) {
                self.deps.push(kmod_deps[i].clone());
                proof {
                    assert(self.deps@.map_values(|x: String| x@) =~= before.push(
                        kmod_deps@[i as int]@,
                    ));
                    assert(d0 + new_deps(m1, kdv.take(i + 1)) =~= before + seq![kmod_deps@[i as int]@]);
                }
            } else {
                proof {
                    assert(d0 + new_deps(m1, kdv.take(i + 1)) =~= before);
                }
            }
            i = i + 1;
        }
        proof {
            assert(kdv.take(kmod_deps@.len() as int) =~= kdv);
        }
    }
}


// ---------------------------------------------------------------------------
// The boot configuration of the initramfs
// ---------------------------------------------------------------------------

/// The banner at the head of a generated boot configuration.
pub open spec fn banner() -> Seq<char> {
    "# Achtung Alles Lookenskepers!\n#\n# Das konfiguration ist nicht fuer gefingerpoken und\n# mittengrabben. Ist easy das machine schnappen der springenwerk,\n# blowenfusen und poppencorken mit spitzensparken. Das rubbernecken\n# sichtseeren keepen das cotten-pickenen hands in das pockets\n# muss.\n#\n# Relaxen und watchen das blinkenlichten."@
}

/// `  - NAME` for each module, joined by newlines.
pub open spec fn module_lines(names: Seq<Seq<char>>) -> Seq<char>
    decreases names.len(),
{
    if names.len() == 0 {
        seq![]
    } else if names.len() == 1 {
        "  - "@ + names[0]
    } else {
        module_lines(names.drop_last()) + "\n"@ + "  - "@ + names.last()
    }
}

/// `  DEVICE: FSTYPE,MOUNTPOINT,MODE` and a newline for each disk.
pub open spec fn disk_lines(d: Seq<config::DiskConfig>) -> Seq<char>
    decreases d.len(),
{
    if d.len() == 0 {
        seq![]
    } else {
        let x = d.last();
        disk_lines(d.drop_last()) + "  "@ + x.device@ + ": "@ + x.fstype@ + ","@ + x.mountpoint@
            + ","@ + x.mode@ + "\n"@
    }
}

/// `  - PARAM` and a newline for each masked parameter.
pub open spec fn mask_lines(m: Seq<Seq<char>>) -> Seq<char>
    decreases m.len(),
{
    if m.len() == 0 {
        seq![]
    } else {
        mask_lines(m.drop_last()) + "  - "@ + m.last() + "\n"@
    }
}

pub open spec fn log_part(cfg: MhConfig) -> Seq<char> {
    match cfg.log {
        Some(l) => "log: "@ + l@ + "\n"@,
        None => seq![],
    }
}

pub open spec fn mask_part(cfg: MhConfig) -> Seq<char> {
    if cfg.mask_cmdline@.len() > 0 {
        "\nmask_cmdline:\n"@ + mask_lines(config::str_views(cfg.mask_cmdline@))
    } else {
        seq![]
    }
}

pub open spec fn overlay_part(cfg: MhConfig) -> Seq<char> {
    match cfg.overlayfs {
        Some(o) => "\noverlayfs:\n"@ + "  device: "@ + o.device@ + "\n"@ + "  upper: "@ + o.upper@
            + "\n"@ + "  workdir: "@ + o.workdir@ + "\n"@,
        None => seq![],
    }
}

pub open spec fn firmware_part(cfg: MhConfig) -> Seq<char> {
    match cfg.firmware {
        Some(b) => "\nfirmware:\n"@ + "  base: "@ + b@ + "\n"@,
        None => seq![],
    }
}

/// The boot configuration written into the initramfs: the banner, the modules
/// (`names`, dependencies first), the disks, the init program and sysroot, and
/// the log level, masked parameters, overlayfs and firmware sections where the
/// configuration has them; or the error of the `disks:` section.
pub open spec fn boot_config(names: Seq<Seq<char>>, cfg: MhConfig) -> Result<Seq<char>, String> {
    match cfg.disks {
        Err(e) => Err(e),
        Ok(d) => Ok(
            banner() + "\n\n"@ + "modules:\n"@ + module_lines(names) + "\n\n"@ + "disks:\n"@
                + disk_lines(d@) + "\n"@ + "init: "@ + cfg.init@ + "\n"@ + "sysroot: "@
                + cfg.sysroot@ + "\n"@ + log_part(cfg) + mask_part(cfg) + overlay_part(cfg)
                + firmware_part(cfg),
        ),
    }
}

fn module_lines_text(names: &[String]) -> (r: String)
    ensures
        r@ == module_lines(config::str_views(names@)),
{
    let ghost nv = config::str_views(names@);
    let mut r = String::new();
    let mut i: usize = 0;
    while i < names.len()
        invariant
            i <= names@.len(),
            nv == config::str_views(names@),
            r@ == module_lines(nv.take(i as int)),
        decreases names@.len() - i,
    {
        proof {
            assert(nv.take(i + 1).drop_last() =~= nv.take(i as int));
            assert(nv.take(i + 1).last() == names@[i as int]@);
        }
        if i > 0 {
            r.append("\n");
        } else {
            proof {
                assert(nv.take(1)[0] == names@[0]@);
                assert(r@ =~= Seq::<char>::empty());
                assert(r@ + "  - "@ =~= "  - "@);
            }
        }
        r.append("  - ");
        r.append(names[i].as_str());
        i = i + 1;
    }
    proof {
        assert(nv.take(names@.len() as int) =~= nv);
    }
    r
}

fn disk_lines_text(d: &Vec<config::DiskConfig>) -> (r: String)
    ensures
        r@ == disk_lines(d@),
{
    let mut r = String::new();
    let mut i: usize = 0;
    proof {
        assert(d@.take(0) =~= Seq::<config::DiskConfig>::empty());
    }
    while i < d.len()
        invariant
            i <= d@.len(),
            r@ == disk_lines(d@.take(i as int)),
        decreases d@.len() - i,
    {
        proof {
            assert(d@.take(i + 1).drop_last() =~= d@.take(i as int));
            assert(d@.take(i + 1).last() == d@[i as int]);
        }
        r.append("  ");
        r.append(d[i].device.as_str());
        r.append(": ");
        r.append(d[i].fstype.as_str());
        r.append(",");
        r.append(d[i].mountpoint.as_str());
        r.append(",");
        r.append(d[i].mode.as_str());
        r.append("\n");
        i = i + 1;
    }
    proof {
        assert(d@.take(d@.len() as int) =~= d@);
    }
    r
}

fn mask_part_text(cfg: &MhConfig) -> (r: String)
    ensures
        r@ == mask_part(*cfg),
{
    let m = &cfg.mask_cmdline;
    if m.len() == 0 {
        return String::new();
    }
    let ghost mv = config::str_views(m@);
    let mut lines = String::new();
    let mut i: usize = 0;
    while i < m.len()
        invariant
            i <= m@.len(),
            mv == config::str_views(m@),
            lines@ == mask_lines(mv.take(i as int)),
        decreases m@.len() - i,
    {
        proof {
            assert(mv.take(i + 1).drop_last() =~= mv.take(i as int));
            assert(mv.take(i + 1).last() == m@[i as int]@);
        }
        lines.append("  - ");
        lines.append(m[i].as_str());
        lines.append("\n");
        i = i + 1;
    }
    proof {
        assert(mv.take(m@.len() as int) =~= mv);
    }
    let mut r = String::from_str("\nmask_cmdline:\n");
    r.append(lines.as_str());
    r
}

fn overlay_part_text(cfg: &MhConfig) -> (r: String)
    ensures
        r@ == overlay_part(*cfg),
{
    match &cfg.overlayfs {
        Some(o) => {
            let mut r = String::from_str("\noverlayfs:\n");
            r.append("  device: ");
            r.append(o.device.as_str());
            r.append("\n");
            r.append("  upper: ");
            r.append(o.upper.as_str());
            r.append("\n");
            r.append("  workdir: ");
            r.append(o.workdir.as_str());
            r.append("\n");
            r
        },
        None => String::new(),
    }
}

fn firmware_part_text(cfg: &MhConfig) -> (r: String)
    ensures
        r@ == firmware_part(*cfg),
{
    match &cfg.firmware {
        Some(b) => {
            let mut r = String::from_str("\nfirmware:\n");
            r.append("  base: ");
            r.append(b.as_str());
            r.append("\n");
            r
        },
        None => String::new(),
    }
}

fn log_part_text(cfg: &MhConfig) -> (r: String)
    ensures
        r@ == log_part(*cfg),
{
    match &cfg.log {
        Some(l) => text::concat3("log: ", l.as_str(), "\n"),
        None => String::new(),
    }
}

fn clone_string(s: &String) -> (r: String)
    ensures
        r == *s,
{
    s.clone()
}

/// The boot configuration to write into the initramfs (see `boot_config`);
/// `module_names` are the names of the dependencies, then of the main modules.
pub fn boot_config_text(module_names: &[String], cfg: &MhConfig) -> (r: Result<String, String>)
    ensures
        match r {
            Ok(t) => boot_config(config::str_views(module_names@), *cfg) == Ok::<
                Seq<char>,
                String,
            >(t@),
            Err(e) => boot_config(config::str_views(module_names@), *cfg) == Err::<
                Seq<char>,
                String,
            >(e),
        },
{
    let disks = match &cfg.disks {
        Ok(d) => d,
        Err(e) => {
            return Err(clone_string(e));
        },
    };
    let mut r = String::from_str("# Achtung Alles Lookenskepers!\n#\n# Das konfiguration ist nicht fuer gefingerpoken und\n# mittengrabben. Ist easy das machine schnappen der springenwerk,\n# blowenfusen und poppencorken mit spitzensparken. Das rubbernecken\n# sichtseeren keepen das cotten-pickenen hands in das pockets\n# muss.\n#\n# Relaxen und watchen das blinkenlichten.");
    r.append("\n\n");
    r.append("modules:\n");
    let ml = module_lines_text(module_names);
    r.append(ml.as_str());
    r.append("\n\n");
    r.append("disks:\n");
    let dl = disk_lines_text(disks);
    r.append(dl.as_str());
    r.append("\n");
    r.append("init: ");
    r.append(cfg.init.as_str());
    r.append("\n");
    r.append("sysroot: ");
    r.append(cfg.sysroot.as_str());
    r.append("\n");
    let lp = log_part_text(cfg);
    r.append(lp.as_str());
    let mp = mask_part_text(cfg);
    r.append(mp.as_str());
    let op = overlay_part_text(cfg);
    r.append(op.as_str());
    let fp = firmware_part_text(cfg);
    r.append(fp.as_str());
    Ok(r)
}

/// A dependency joins the list only when it is not a main module.
pub proof fn lemma_new_deps_not_main(main: Seq<Seq<char>>, kd: Seq<Seq<char>>)
    ensures
        forall|i: int| 0 <= i < new_deps(main, kd).len() ==> !main.contains(#[trigger] new_deps(main, kd)[i]),
        forall|x: Seq<char>| kd.contains(x) && !main.contains(x) ==> new_deps(main, kd).contains(x),
    decreases kd.len(),
{
    if kd.len() > 0 {
        lemma_new_deps_not_main(main, kd.drop_last());
        let prev = new_deps(main, kd.drop_last());
        let last = if main.contains(kd.last()) {
            Seq::<Seq<char>>::empty()
        } else {
            seq![kd.last()]
        };
        assert(new_deps(main, kd) == prev + last);
        assert forall|i: int| 0 <= i < new_deps(main, kd).len() implies !main.contains(
            #[trigger] new_deps(main, kd)[i],
        ) by {
            if i < prev.len() {
                assert(new_deps(main, kd)[i] == prev[i]);
            } else {
                assert(new_deps(main, kd)[i] == last[i - prev.len()]);
            }
        }
        assert forall|x: Seq<char>| kd.contains(x) && !main.contains(x) implies new_deps(
            main,
            kd,
        ).contains(x) by {
            let j = choose|j: int| 0 <= j < kd.len() && kd[j] == x;
            if j < kd.len() - 1 {
                assert(kd.drop_last()[j] == x);
                assert(kd.drop_last().contains(x));
                let k = choose|k: int| 0 <= k < prev.len() && prev[k] == x;
                assert(new_deps(main, kd)[k] == x);
            } else {
                assert(new_deps(main, kd)[prev.len() as int] == x);
            }
        }
    }
}

/// The part of a boot configuration that follows the module list: the disks,
/// init program, sysroot, log level, masked parameters, overlayfs and firmware
/// settings of the configuration.
pub open spec fn passed_through(cfg: MhConfig, d: Seq<config::DiskConfig>) -> Seq<char> {
    "disks:\n"@ + disk_lines(d) + "\n"@ + "init: "@ + cfg.init@ + "\n"@ + "sysroot: "@
        + cfg.sysroot@ + "\n"@ + log_part(cfg) + mask_part(cfg) + overlay_part(cfg)
        + firmware_part(cfg)
}

/// A generated boot configuration holds more modules, and the rest of the
/// configuration passed through: after the module list come the configuration's
/// own settings, whatever modules were written.
pub proof fn lemma_boot_config_passes_through(names: Seq<Seq<char>>, cfg: MhConfig)
    requires
        cfg.disks is Ok,
    ensures
        boot_config(names, cfg) == Ok::<Seq<char>, String>(
            banner() + "\n\n"@ + "modules:\n"@ + module_lines(names) + "\n\n"@ + passed_through(
                cfg,
                cfg.disks->Ok_0@,
            ),
        ),
{
    let d = cfg.disks->Ok_0@;
    let h = banner() + "\n\n"@ + "modules:\n"@ + module_lines(names) + "\n\n"@;
    assert(h + passed_through(cfg, d) =~= banner() + "\n\n"@ + "modules:\n"@ + module_lines(names)
        + "\n\n"@ + "disks:\n"@ + disk_lines(d) + "\n"@ + "init: "@ + cfg.init@ + "\n"@
        + "sysroot: "@ + cfg.sysroot@ + "\n"@ + log_part(cfg) + mask_part(cfg) + overlay_part(cfg)
        + firmware_part(cfg));
}

} // verus!
