use microhop::config::{DiskConfig, MhConfig, OverlayfsConfig};
use microhop::rdgen::{
    boot_config_text, kernel_main_modules, module_name_from_stem, parse_firmware_line, ramfs_dirs, select_main_modules,
    FirmwareLine, ModuleLists,
};

const BANNER: &str = "# Achtung Alles Lookenskepers!
#
# Das konfiguration ist nicht fuer gefingerpoken und
# mittengrabben. Ist easy das machine schnappen der springenwerk,
# blowenfusen und poppencorken mit spitzensparken. Das rubbernecken
# sichtseeren keepen das cotten-pickenen hands in das pockets
# muss.
#
# Relaxen und watchen das blinkenlichten.";

fn s(x: &str) -> String {
    x.to_string()
}

fn strings(v: &[&str]) -> Vec<String> {
    v.iter().map(|x| x.to_string()).collect()
}

fn config() -> MhConfig {
    MhConfig {
        modules: strings(&["virtio_blk", "ext4"]),
        disks: Ok(vec![
            DiskConfig { device: s("uuid=1234"), fstype: s("ext4"), mountpoint: s("/"), mode: s("rw") },
            DiskConfig { device: s("label=boot"), fstype: s("vfat"), mountpoint: s("/boot"), mode: s("ro") },
        ]),
        overlayfs: None,
        init: s("/sbin/init"),
        sysroot: s("/sysroot"),
        log: None,
        mask_cmdline: Vec::new(),
        firmware: None,
        firmware_base: s("/lib/firmware"),
    }
}

#[test]
fn ramfs_layout_with_kernel() {
    let (dirs, kroot) = ramfs_dirs("/sysroot", Some("6.1.0-13-arm64"));
    assert_eq!(dirs, strings(&["bin", "etc", "proc", "dev", "sys", "sysroot", "lib/modules/6.1.0-13-arm64"]));
    assert_eq!(kroot, "lib/modules/6.1.0-13-arm64");
}

#[test]
fn ramfs_layout_without_kernel() {
    let (dirs, kroot) = ramfs_dirs("///mnt/root", None);
    assert_eq!(dirs, strings(&["bin", "etc", "proc", "dev", "sys", "mnt/root"]));
    assert_eq!(kroot, "");
}

#[test]
fn firmware_lines() {
    assert_eq!(parse_firmware_line(""), FirmwareLine::Skip);
    assert_eq!(parse_firmware_line("   \t"), FirmwareLine::Skip);
    assert_eq!(parse_firmware_line("  # brcm firmware"), FirmwareLine::Skip);
    assert_eq!(
        parse_firmware_line(" brcm/a.bin : brcm/b.bin "),
        FirmwareLine::Entry(s("brcm/a.bin"), s("brcm/b.bin"))
    );
    assert_eq!(parse_firmware_line("a:b:c"), FirmwareLine::Entry(s("a"), s("b:c")));
    assert_eq!(parse_firmware_line(":"), FirmwareLine::Entry(s(""), s("")));
    assert_eq!(parse_firmware_line("no-colon-here"), FirmwareLine::Invalid);
}

#[test]
fn module_names() {
    assert_eq!(module_name_from_stem("ext4.ko"), "ext4");
    assert_eq!(module_name_from_stem("virtio_blk"), "virtio_blk");
    assert_eq!(module_name_from_stem("a.b.c"), "a");
    assert_eq!(module_name_from_stem(".hidden"), "");
}

#[test]
fn main_modules_skip_dependencies_and_repeats() {
    let ms = strings(&["a", "b", "a", "c", "b"]);
    let deps = [false, true, false, false, true];
    assert_eq!(select_main_modules(&ms, &deps), strings(&["a", "c"]));
    assert_eq!(select_main_modules(&[], &[]), Vec::<String>::new());
    assert_eq!(select_main_modules(&strings(&["x"]), &[true]), Vec::<String>::new());
}

#[test]
fn module_lists_record() {
    let mut l = ModuleLists::new();
    assert!(l.main.is_empty() && l.deps.is_empty());
    l.record(s("a"), &strings(&["x", "a", "y"]));
    assert_eq!(l.main, strings(&["a"]));
    assert_eq!(l.deps, strings(&["x", "y"]));
    l.record(s("b"), &strings(&["x", "b", "a"]));
    assert_eq!(l.main, strings(&["a", "b"]));
    assert_eq!(l.deps, strings(&["x", "y", "x"]));
    l.record(s("c"), &[]);
    assert_eq!(l.main, strings(&["a", "b", "c"]));
    assert_eq!(l.deps.len(), 3);
    assert_eq!(l.in_load_order(), strings(&["x", "y", "x", "a", "b", "c"]));
    assert_eq!(ModuleLists::new().in_load_order(), Vec::<String>::new());
}

#[test]
fn boot_config_minimal() {
    let t = boot_config_text(&strings(&["virtio_blk", "ext4"]), &config()).unwrap();
    let expect = format!(
        "{}\n\nmodules:\n  - virtio_blk\n  - ext4\n\ndisks:\n  uuid=1234: ext4,/,rw\n  label=boot: vfat,/boot,ro\n\ninit: /sbin/init\nsysroot: /sysroot\n",
        BANNER
    );
    assert_eq!(t, expect);
}

#[test]
fn boot_config_no_modules() {
    let mut c = config();
    c.disks = Ok(Vec::new());
    let t = boot_config_text(&[], &c).unwrap();
    let expect = format!("{}\n\nmodules:\n\n\ndisks:\n\ninit: /sbin/init\nsysroot: /sysroot\n", BANNER);
    assert_eq!(t, expect);
}

#[test]
fn boot_config_all_sections() {
    let mut c = config();
    c.log = Some(s("debug"));
    c.mask_cmdline = strings(&["root", "rootfstype"]);
    c.overlayfs = Some(OverlayfsConfig { device: s("/dev/vda3"), upper: s("upper"), workdir: s("work") });
    c.firmware = Some(s("/lib/firmware"));
    c.init = s("/usr/lib/systemd/systemd");
    let t = boot_config_text(&strings(&["dep", "main"]), &c).unwrap();
    let expect = format!(
        "{}\n\nmodules:\n  - dep\n  - main\n\ndisks:\n  uuid=1234: ext4,/,rw\n  label=boot: vfat,/boot,ro\n\n\
init: /usr/lib/systemd/systemd\nsysroot: /sysroot\nlog: debug\n\
\nmask_cmdline:\n  - root\n  - rootfstype\n\
\noverlayfs:\n  device: /dev/vda3\n  upper: upper\n  workdir: work\n\
\nfirmware:\n  base: /lib/firmware\n",
        BANNER
    );
    assert_eq!(t, expect);
}

#[test]
fn boot_config_disks_error() {
    let mut c = config();
    c.disks = Err(s("disks: expected a mapping"));
    assert_eq!(boot_config_text(&strings(&["a"]), &c), Err(s("disks: expected a mapping")));
}

#[test]
fn kernel_main_modules_without_dependency_index() {
    // A kernel directory without modules has an empty dependency index.
    let k = kmoddep::kerman::KernelInfo::new("/nonexistent-root", "0.0-none").unwrap();
    assert!(!k.is_valid());
    assert_eq!(kernel_main_modules(&k, &strings(&["a", "b", "a"])), strings(&["a", "b"]));
    assert_eq!(kernel_main_modules(&k, &[]), Vec::<String>::new());
}

#[test]
fn boot_config_rest_passes_through() {
    let mut c = config();
    c.log = Some(s("quiet"));
    c.mask_cmdline = strings(&["root"]);
    let a = boot_config_text(&strings(&["x"]), &c).unwrap();
    let b = boot_config_text(&strings(&["dep_a", "dep_b", "x"]), &c).unwrap();
    let tail = "disks:\n  uuid=1234: ext4,/,rw\n  label=boot: vfat,/boot,ro\n\ninit: /sbin/init\nsysroot: /sysroot\nlog: quiet\n\nmask_cmdline:\n  - root\n";
    assert!(a.ends_with(tail));
    assert!(b.ends_with(tail));
    assert_eq!(a.len() + "\n  - dep_a\n  - dep_b".len(), b.len());
}
