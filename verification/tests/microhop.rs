use microhop::blk::{BlkDevice, BlkInfo};
use microhop::cmdline::CmdLine;
use microhop::config::{DiskConfig, MhConfig};
use microhop::microhop::{
    all_mounted, check_init, get_blk_devices, init_path_usable, is_executable, InitCheck, InitFile, mount_step, mounts_read_only, resolve_device_path, sys_mpt,
    target_in_sysroot, DeviceError, MountAction, MountEvent, SystemDir,
};

const ROOT_UUID: &str = "0a1b2c3d-4e5f-6789-abcd-ef0123456789";

fn s(x: &str) -> String {
    x.to_string()
}

fn dev(path: Option<&str>, uuid: &str, label: &str, fstype: &str) -> BlkDevice {
    BlkDevice { path: path.map(s), uuid: s(uuid), label: s(label), fstype: s(fstype) }
}

fn probed() -> BlkInfo {
    BlkInfo {
        devices: vec![
            dev(Some("/dev/vda1"), ROOT_UUID, "rootfs", "ext4"),
            dev(Some("/dev/vda2"), "1111", "data", "xfs"),
            dev(None, "2222", "weird", ""),
            dev(Some("/dev/vdb1"), "3333", "{0a1b2c3d-4e5f-6789-abcd-ef0123456789}", "ext2"),
            dev(Some("/dev/vdc1"), "1111", "data", "ext4"),
        ],
    }
}

fn disk(device: &str, fstype: &str, mountpoint: &str, mode: &str) -> DiskConfig {
    DiskConfig { device: s(device), fstype: s(fstype), mountpoint: s(mountpoint), mode: s(mode) }
}

fn config(disks: Result<Vec<DiskConfig>, String>) -> MhConfig {
    MhConfig {
        modules: Vec::new(),
        disks,
        overlayfs: None,
        init: s("/sbin/init"),
        sysroot: s("/sysroot"),
        log: None,
        mask_cmdline: Vec::new(),
        firmware: None,
        firmware_base: s("/lib/firmware"),
    }
}

fn check_mount(d: &SystemDir<String>, fstype: &str, device: &str, dst: &str, mode: Option<&str>) {
    assert_eq!(d.fstype, fstype);
    assert_eq!(d.dev, device);
    assert_eq!(d.dst, dst);
    assert_eq!(d.mode.as_deref(), mode);
}

#[test]
fn system_mount_points() {
    let m = sys_mpt();
    assert_eq!(m.len(), 4);
    let expect = [("proc", "none", "/proc"), ("sysfs", "none", "/sys"), ("devtmpfs", "devtmpfs", "/dev"), ("tmpfs", "tmpfs", "/run")];
    for (d, (f, v, t)) in m.iter().zip(expect.iter()) {
        assert_eq!(d.fstype, *f);
        assert_eq!(d.dev, *v);
        assert_eq!(d.dst, *t);
        assert_eq!(d.mode, None);
    }
}

#[test]
fn system_dir_with_mode() {
    let d = SystemDir::new_with_mode("ext4", "/dev/sda1", "/sysroot", "ro");
    assert_eq!(d.fstype, "ext4");
    assert_eq!(d.dev, "/dev/sda1");
    assert_eq!(d.dst, "/sysroot");
    assert_eq!(d.mode, Some("ro"));
}

#[test]
fn resolve_prefixed_specifications() {
    let b = probed();
    assert_eq!(resolve_device_path(&format!("uuid={}", ROOT_UUID), &b), Some("/dev/vda1"));
    assert_eq!(resolve_device_path("UUID=1111", &b), Some("/dev/vda2"));
    assert_eq!(resolve_device_path("label=data", &b), Some("/dev/vda2"));
    assert_eq!(resolve_device_path("LABEL=rootfs", &b), Some("/dev/vda1"));
    assert_eq!(resolve_device_path("Label=rootfs", &b), Some("/dev/vda1"));
}

#[test]
fn resolve_not_found() {
    let b = probed();
    assert_eq!(resolve_device_path("uuid=9999", &b), None);
    assert_eq!(resolve_device_path("label=missing", &b), None);
    assert_eq!(resolve_device_path("label=weird", &b), None);
    assert_eq!(resolve_device_path("uuid=", &b), None);
}

#[test]
fn resolve_dev_path_as_is() {
    let b = probed();
    assert_eq!(resolve_device_path("/dev/sdz9", &b), Some("/dev/sdz9"));
    assert_eq!(resolve_device_path("/dev/", &b), Some("/dev/"));
}

#[test]
fn resolve_plain_uuid_and_label() {
    let b = probed();
    assert_eq!(resolve_device_path(ROOT_UUID, &b), Some("/dev/vda1"));
    assert_eq!(resolve_device_path("rootfs", &b), Some("/dev/vda1"));
    assert_eq!(resolve_device_path("data", &b), Some("/dev/vda2"));
    assert_eq!(resolve_device_path("1111", &b), None);
}

#[test]
fn resolve_braced_uuid_is_looked_up_as_uuid() {
    // A braced UUID parses as a UUID, so it is never taken for a label.
    let b = probed();
    assert_eq!(resolve_device_path("{0a1b2c3d-4e5f-6789-abcd-ef0123456789}", &b), None);
    // An almost-UUID is a label.
    let mut c = probed();
    c.devices.push(dev(Some("/dev/vdd1"), "4444", "0a1b2c3d-4e5f-6789-abcd-ef012345678", "ext4"));
    assert_eq!(resolve_device_path("0a1b2c3d-4e5f-6789-abcd-ef012345678", &c), Some("/dev/vdd1"));
}

#[test]
fn blk_info_lookups_take_the_first_match() {
    let b = probed();
    assert_eq!(b.by_uuid("1111").unwrap().label, "data");
    assert_eq!(b.by_uuid("1111").unwrap().path.as_deref(), Some("/dev/vda2"));
    assert_eq!(b.by_label("data").unwrap().path.as_deref(), Some("/dev/vda2"));
    assert!(b.by_uuid("nope").is_none());
    assert!(b.by_label("").is_none());
    assert_eq!(b.get_devices().len(), 5);
}

#[test]
fn plan_from_cmdline_root() {
    let cfg = config(Ok(vec![disk("label=data", "xfs", "/data", "rw")]));
    let cmd = CmdLine::new("root=/dev/sda2 rootfstype=xfs");
    let (fs, mounts) = get_blk_devices(&cfg, &probed(), &cmd).unwrap();
    assert_eq!(fs, "xfs");
    assert_eq!(mounts.len(), 1);
    check_mount(&mounts[0], "xfs", "/dev/sda2", "/sysroot", None);
}

#[test]
fn plan_from_cmdline_root_defaults_to_ext4() {
    let cfg = config(Err(s("unused")));
    let cmd = CmdLine::new(&format!("root=UUID={}", ROOT_UUID));
    let (fs, mounts) = get_blk_devices(&cfg, &probed(), &cmd).unwrap();
    assert_eq!(fs, "ext4");
    check_mount(&mounts[0], "ext4", "/dev/vda1", "/sysroot", None);
}

#[test]
fn plan_root_not_found() {
    let cfg = config(Ok(Vec::new()));
    let cmd = CmdLine::new("root=LABEL=nothing");
    assert_eq!(get_blk_devices(&cfg, &probed(), &cmd).err(), Some(DeviceError::RootNotFound));
}

#[test]
fn plan_from_disks_sorted_by_device() {
    let cfg = config(Ok(vec![
        disk("label=data", "xfs", "/data/", "rw"),
        disk(&format!("uuid={}", ROOT_UUID), "ext4", "/", "rw"),
        disk("/dev/sdc1", "vfat", "/boot", "ro"),
    ]));
    let cmd = CmdLine::new("quiet");
    let (fs, mounts) = get_blk_devices(&cfg, &probed(), &cmd).unwrap();
    assert_eq!(fs, "ext4");
    assert_eq!(mounts.len(), 3);
    // The root filesystem first, then the others by device.
    check_mount(&mounts[0], "ext4", "/dev/vda1", "/sysroot", Some("rw"));
    check_mount(&mounts[1], "vfat", "/dev/sdc1", "/sysroot/boot", Some("ro"));
    check_mount(&mounts[2], "xfs", "/dev/vda2", "/sysroot/data", Some("rw"));
    assert!(mounts[1].dev <= mounts[2].dev);
}

#[test]
fn plan_root_goes_first_whatever_its_device() {
    let cfg = config(Ok(vec![disk("/dev/vda1", "vfat", "/boot", "rw"), disk("/dev/vda2", "ext4", "/", "rw")]));
    let (fs, mounts) = get_blk_devices(&cfg, &probed(), &CmdLine::new("")).unwrap();
    assert_eq!(fs, "ext4");
    check_mount(&mounts[0], "ext4", "/dev/vda2", "/sysroot", Some("rw"));
    check_mount(&mounts[1], "vfat", "/dev/vda1", "/sysroot/boot", Some("rw"));
}

#[test]
fn plan_root_fstype_from_first_root_disk() {
    let cfg = config(Ok(vec![
        disk("/dev/sda1", "btrfs", "//", "rw"),
        disk("/dev/sda2", "ext4", "", "rw"),
    ]));
    let (fs, mounts) = get_blk_devices(&cfg, &probed(), &CmdLine::new("")).unwrap();
    assert_eq!(fs, "btrfs");
    check_mount(&mounts[0], "btrfs", "/dev/sda1", "/sysroot", Some("rw"));
    check_mount(&mounts[1], "ext4", "/dev/sda2", "/sysroot", Some("rw"));
}

#[test]
fn plan_equal_devices_keep_their_order() {
    let cfg = config(Ok(vec![
        disk("/dev/sda1", "ext4", "/a", "rw"),
        disk("/dev/sda1", "ext4", "/b", "ro"),
        disk("/dev/sda0", "ext4", "/c", "rw"),
    ]));
    let (fs, mounts) = get_blk_devices(&cfg, &probed(), &CmdLine::new("")).unwrap();
    assert_eq!(fs, "");
    check_mount(&mounts[0], "ext4", "/dev/sda0", "/sysroot/c", Some("rw"));
    check_mount(&mounts[1], "ext4", "/dev/sda1", "/sysroot/a", Some("rw"));
    check_mount(&mounts[2], "ext4", "/dev/sda1", "/sysroot/b", Some("ro"));
}

#[test]
fn plan_device_not_found() {
    let cfg = config(Ok(vec![
        disk("/dev/sda1", "ext4", "/", "rw"),
        disk("label=missing", "ext4", "/data", "rw"),
        disk("label=also-missing", "ext4", "/x", "rw"),
    ]));
    let r = get_blk_devices(&cfg, &probed(), &CmdLine::new(""));
    assert_eq!(r.err(), Some(DeviceError::DeviceNotFound(s("label=missing"))));
}

#[test]
fn plan_config_error() {
    let cfg = config(Err(s("disks section is missing")));
    let r = get_blk_devices(&cfg, &probed(), &CmdLine::new("ro quiet"));
    assert_eq!(r.err(), Some(DeviceError::Config(s("disks section is missing"))));
}

#[test]
fn plan_masked_root_uses_disks() {
    let cfg = config(Ok(vec![disk("label=rootfs", "ext4", "/", "rw")]));
    let mask = vec![s("root")];
    let cmd = CmdLine::new_with_mask("root=/dev/sda9 rootfstype=xfs", &mask);
    let (fs, mounts) = get_blk_devices(&cfg, &probed(), &cmd).unwrap();
    assert_eq!(fs, "ext4");
    check_mount(&mounts[0], "ext4", "/dev/vda1", "/sysroot", Some("rw"));
}

#[test]
fn plan_cmdline_root_ignores_disks() {
    let cmd = CmdLine::new("root=/dev/sda2");
    let a = get_blk_devices(&config(Ok(Vec::new())), &probed(), &cmd).unwrap();
    let b = get_blk_devices(&config(Err(s("x"))), &probed(), &cmd).unwrap();
    assert_eq!(a.0, b.0);
    assert_eq!(a.1.len(), b.1.len());
    check_mount(&b.1[0], "ext4", "/dev/sda2", "/sysroot", None);
}

#[test]
fn read_only_mode() {
    assert!(mounts_read_only(Some("ro")));
    assert!(!mounts_read_only(Some("rw")));
    assert!(!mounts_read_only(Some("RO")));
    assert!(!mounts_read_only(None));
}

#[test]
fn mount_steps() {
    assert_eq!(mount_step("ext4", MountEvent::DirFailed), MountAction::Done(false));
    assert_eq!(mount_step("ext4", MountEvent::Mounted), MountAction::Done(true));
    assert_eq!(mount_step("ext4", MountEvent::MountFailed), MountAction::RunFsck);
    assert_eq!(mount_step("ext2", MountEvent::MountFailed), MountAction::RunFsck);
    assert_eq!(mount_step("xfs", MountEvent::MountFailed), MountAction::Done(false));
    assert_eq!(mount_step("ext4", MountEvent::FsckExited(0)), MountAction::RetryMount);
    assert_eq!(mount_step("ext4", MountEvent::FsckExited(1)), MountAction::RetryMount);
    assert_eq!(mount_step("ext4", MountEvent::FsckExited(2)), MountAction::Done(false));
    assert_eq!(mount_step("ext4", MountEvent::FsckExited(-1)), MountAction::Done(false));
    assert_eq!(mount_step("ext4", MountEvent::FsckFailed), MountAction::Done(false));
    assert_eq!(mount_step("ext4", MountEvent::RetryMounted), MountAction::Done(true));
    assert_eq!(mount_step("ext4", MountEvent::RetryFailed), MountAction::Done(false));
}

#[test]
fn executable_modes() {
    assert!(is_executable(0o755));
    assert!(is_executable(0o100));
    assert!(is_executable(0o001));
    assert!(is_executable(0o100644 | 0o010));
    assert!(!is_executable(0o644));
    assert!(!is_executable(0));
}

#[test]
fn symlink_target_in_sysroot() {
    assert_eq!(target_in_sysroot("/sysroot", "/lib/systemd/systemd"), "/sysroot/lib/systemd/systemd");
    assert_eq!(target_in_sysroot("", "/sbin/init"), "/sbin/init");
}

#[test]
fn init_paths_for_exec() {
    assert!(init_path_usable("/sbin/init"));
    assert!(init_path_usable(""));
    assert!(!init_path_usable("/sbin/in\0it"));
}

#[test]
fn plan_mounts_under_sysroot() {
    let mut cfg = config(Ok(vec![
        disk("/dev/sdb1", "ext4", "/var/", "rw"),
        disk("/dev/sda1", "ext4", "/", "rw"),
        disk("/dev/sda2", "vfat", "boot", "ro"),
    ]));
    cfg.sysroot = s("/new_root");
    let (_, mounts) = get_blk_devices(&cfg, &probed(), &CmdLine::new("")).unwrap();
    assert_eq!(mounts.len(), 3);
    for m in &mounts {
        assert!(m.dst.starts_with("/new_root"));
    }
    check_mount(&mounts[0], "ext4", "/dev/sda1", "/new_root", Some("rw"));
    check_mount(&mounts[1], "vfat", "/dev/sda2", "/new_rootboot", Some("ro"));
    check_mount(&mounts[2], "ext4", "/dev/sdb1", "/new_root/var", Some("rw"));
}

#[test]
fn init_program_checks() {
    assert_eq!(check_init(InitFile::Missing), InitCheck::NotFound);
    assert_eq!(check_init(InitFile::File(Some(0o100755))), InitCheck::Usable);
    assert_eq!(check_init(InitFile::File(Some(0o100644))), InitCheck::NotExecutable);
    assert_eq!(check_init(InitFile::File(None)), InitCheck::Usable);
    assert_eq!(check_init(InitFile::UnreadableLink), InitCheck::Usable);
    assert_eq!(check_init(InitFile::AbsoluteLink(false, None)), InitCheck::TargetNotFound);
    assert_eq!(check_init(InitFile::AbsoluteLink(true, Some(0o755))), InitCheck::Usable);
    assert_eq!(check_init(InitFile::AbsoluteLink(true, Some(0o644))), InitCheck::TargetNotExecutable);
    assert_eq!(check_init(InitFile::RelativeLink(false, None)), InitCheck::Usable);
    assert_eq!(check_init(InitFile::RelativeLink(true, Some(0o600))), InitCheck::NotExecutable);
    assert_eq!(check_init(InitFile::RelativeLink(true, Some(0o700))), InitCheck::Usable);
}

#[test]
fn every_filesystem_must_mount() {
    assert!(all_mounted(&[]));
    assert!(all_mounted(&[true, true]));
    assert!(!all_mounted(&[true, false, true]));
    assert!(!all_mounted(&[false]));
}
