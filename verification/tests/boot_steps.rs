use microhop::blk::{BlkDevice, BlkInfo};
use microhop::overlayfs::{
    mounts_mention, overlay_device, overlay_layer_path, overlay_start, overlay_step,
    reports_bad_magic, OverlayAction, OverlayEvent, OverlayOutcome, OverlayPhase,
};
use microhop::recovery::{decode_input_event, decode_key, UserAction};
use microhop::rootfs::{
    is_sys, overlay_listed, overlay_mount_options, pivot_fstype, removable_from_ramfs,
    root_mount_fstype,
};

fn event(ev_type: u16, code: u16, value: i32) -> Vec<u8> {
    let mut v = vec![0u8; 16];
    v.extend_from_slice(&ev_type.to_le_bytes());
    v.extend_from_slice(&code.to_le_bytes());
    v.extend_from_slice(&value.to_le_bytes());
    v
}

#[test]
fn input_events() {
    assert_eq!(decode_input_event(&event(1, 115, 1)), UserAction::Reboot);
    assert_eq!(decode_input_event(&event(1, 116, 1)), UserAction::Reboot);
    assert_eq!(decode_input_event(&event(1, 114, 1)), UserAction::PowerOff);
    assert_eq!(decode_input_event(&event(1, 114, 0)), UserAction::Ignore);
    assert_eq!(decode_input_event(&event(1, 114, 2)), UserAction::Ignore);
    assert_eq!(decode_input_event(&event(0, 114, 1)), UserAction::Ignore);
    assert_eq!(decode_input_event(&event(1, 30, 1)), UserAction::Ignore);
    assert_eq!(decode_input_event(&event(1, 115, -1)), UserAction::Ignore);
    assert_eq!(decode_input_event(&event(1, 115 + 256, 1)), UserAction::Ignore);
}

#[test]
fn terminal_keys() {
    assert_eq!(decode_key(b'p'), UserAction::PowerOff);
    assert_eq!(decode_key(b'P'), UserAction::PowerOff);
    assert_eq!(decode_key(b'r'), UserAction::Reboot);
    assert_eq!(decode_key(b'R'), UserAction::Reboot);
    assert_eq!(decode_key(b'\n'), UserAction::ShowMenu);
    assert_eq!(decode_key(b'\r'), UserAction::ShowMenu);
    assert_eq!(decode_key(b'x'), UserAction::Ignore);
    assert_eq!(decode_key(0), UserAction::Ignore);
}

#[test]
fn terminal_keys_ignore_case() {
    for b in b'A'..=b'Z' {
        assert_eq!(decode_key(b), decode_key(b + 32));
    }
}

#[test]
fn system_paths_are_spared() {
    assert!(is_sys("/", "/sysroot"));
    assert!(is_sys("/proc", "/sysroot"));
    assert!(is_sys("/proc/1", "/sysroot"));
    assert!(is_sys("/sys/class", "/sysroot"));
    assert!(is_sys("/dev/sda", "/sysroot"));
    assert!(is_sys("/sysroot/usr", "/sysroot"));
    assert!(is_sys("/sysroot/proc", "/sysroot"));
    assert!(!is_sys("/bin", "/sysroot"));
    assert!(!is_sys("/etc/microhop.conf", "/sysroot"));
    assert!(!is_sys("/lib/modules", "/sysroot"));
}

#[test]
fn ramfs_cleanup_candidates() {
    assert!(removable_from_ramfs("/bin", 0, true, "/sysroot"));
    assert!(!removable_from_ramfs("/bin", 0, false, "/sysroot"));
    assert!(!removable_from_ramfs("/bin", 7, true, "/sysroot"));
    assert!(!removable_from_ramfs("/proc", 0, true, "/sysroot"));
    assert!(!removable_from_ramfs("/", 0, true, "/sysroot"));
    assert!(!removable_from_ramfs("/sysroot", 0, true, "/sysroot"));
}

#[test]
fn overlay_options() {
    assert_eq!(
        overlay_mount_options("/sysroot", "/mnt/overlay/upper", "/mnt/overlay/work"),
        "lowerdir=/sysroot,upperdir=/mnt/overlay/upper,workdir=/mnt/overlay/work"
    );
}

#[test]
fn overlay_in_filesystems_list() {
    assert!(overlay_listed("nodev\tsysfs\nnodev\ttmpfs\nnodev\toverlay\n\text4\n"));
    assert!(!overlay_listed("nodev\tsysfs\n\text4\n"));
    assert!(!overlay_listed(""));
}

#[test]
fn root_filesystem_type() {
    let mounts = "rootfs / rootfs rw 0 0\nproc /proc proc rw 0 0\n";
    assert_eq!(root_mount_fstype(mounts), Some("rootfs".to_string()));
    let mounts = "proc /proc proc rw 0 0\n/dev/vda1 / ext4 rw,relatime 0 0\n";
    assert_eq!(root_mount_fstype(mounts), Some("ext4".to_string()));
    assert_eq!(root_mount_fstype("proc /proc proc rw 0 0\n"), None);
    assert_eq!(root_mount_fstype("none /\n/dev/sda / ext4\n"), None);
    assert_eq!(root_mount_fstype(""), None);
}

/// Runs the overlay setup from its start through `events`, returning each
/// action asked for.
fn run_overlay(events: Vec<OverlayEvent>) -> Vec<OverlayAction> {
    let (mut phase, first) = overlay_start();
    let mut actions = vec![first];
    for e in events {
        let (p, a) = overlay_step(phase, e);
        phase = p;
        actions.push(a);
    }
    actions
}

#[test]
fn overlay_backing_mounts_at_once() {
    assert_eq!(
        run_overlay(vec![OverlayEvent::Mounted(true), OverlayEvent::OverlayMounted(true)]),
        vec![
            OverlayAction::MountBacking,
            OverlayAction::MountOverlay,
            OverlayAction::Finish(OverlayOutcome::Merged),
        ]
    );
    assert_eq!(
        run_overlay(vec![OverlayEvent::Mounted(true), OverlayEvent::OverlayMounted(false)]),
        vec![
            OverlayAction::MountBacking,
            OverlayAction::MountOverlay,
            OverlayAction::Finish(OverlayOutcome::Skipped),
        ]
    );
}

#[test]
fn overlay_check_passes() {
    // After a clean or fixed check the overlay is used whatever the remount gives.
    for code in [0, 1] {
        assert_eq!(
            run_overlay(vec![
                OverlayEvent::Mounted(false),
                OverlayEvent::Checked(Some(code), false),
                OverlayEvent::Mounted(false),
                OverlayEvent::OverlayMounted(true),
            ]),
            vec![
                OverlayAction::MountBacking,
                OverlayAction::RunCheck,
                OverlayAction::RemountBacking,
                OverlayAction::MountOverlay,
                OverlayAction::Finish(OverlayOutcome::Merged),
            ]
        );
    }
}

#[test]
fn overlay_check_calls_for_backups() {
    assert_eq!(
        run_overlay(vec![
            OverlayEvent::Mounted(false),
            OverlayEvent::Checked(Some(4), false),
            OverlayEvent::Restored(Ok(true)),
            OverlayEvent::Mounted(true),
            OverlayEvent::OverlayMounted(true),
        ]),
        vec![
            OverlayAction::MountBacking,
            OverlayAction::RunCheck,
            OverlayAction::RestoreSuperblock,
            OverlayAction::RemountBacking,
            OverlayAction::MountOverlay,
            OverlayAction::Finish(OverlayOutcome::Merged),
        ]
    );
    assert_eq!(
        run_overlay(vec![
            OverlayEvent::Mounted(false),
            OverlayEvent::Checked(Some(-1), false),
            OverlayEvent::Restored(Err("no e2fsck".to_string())),
            OverlayEvent::MountsRead(Some(false)),
        ]),
        vec![
            OverlayAction::MountBacking,
            OverlayAction::RunCheck,
            OverlayAction::RestoreSuperblock,
            OverlayAction::ReadMounts,
            OverlayAction::Finish(OverlayOutcome::Skipped),
        ]
    );
}

#[test]
fn overlay_restore_then_mount_fails() {
    assert_eq!(
        run_overlay(vec![
            OverlayEvent::Mounted(false),
            OverlayEvent::Checked(Some(12), false),
            OverlayEvent::Restored(Ok(true)),
            OverlayEvent::Mounted(false),
            OverlayEvent::MountsRead(Some(true)),
            OverlayEvent::OverlayMounted(true),
        ]),
        vec![
            OverlayAction::MountBacking,
            OverlayAction::RunCheck,
            OverlayAction::RestoreSuperblock,
            OverlayAction::RemountBacking,
            OverlayAction::ReadMounts,
            OverlayAction::MountOverlay,
            OverlayAction::Finish(OverlayOutcome::Merged),
        ]
    );
}

#[test]
fn overlay_checker_failure_is_fatal() {
    assert_eq!(
        run_overlay(vec![OverlayEvent::Mounted(false), OverlayEvent::Checked(Some(16), false)]),
        vec![
            OverlayAction::MountBacking,
            OverlayAction::RunCheck,
            OverlayAction::Finish(OverlayOutcome::CheckerFailed(16)),
        ]
    );
    // Also when the bad magic number was reported and no backup helped.
    assert_eq!(
        run_overlay(vec![
            OverlayEvent::Mounted(false),
            OverlayEvent::Checked(Some(32), true),
            OverlayEvent::Restored(Ok(false)),
        ]),
        vec![
            OverlayAction::MountBacking,
            OverlayAction::RunCheck,
            OverlayAction::RestoreSuperblock,
            OverlayAction::Finish(OverlayOutcome::CheckerFailed(32)),
        ]
    );
}

#[test]
fn overlay_bad_magic_rechecks() {
    assert_eq!(
        run_overlay(vec![
            OverlayEvent::Mounted(false),
            OverlayEvent::Checked(Some(8), true),
            OverlayEvent::Restored(Ok(true)),
            OverlayEvent::Checked(Some(1), false),
            OverlayEvent::Mounted(true),
            OverlayEvent::OverlayMounted(true),
        ]),
        vec![
            OverlayAction::MountBacking,
            OverlayAction::RunCheck,
            OverlayAction::RestoreSuperblock,
            OverlayAction::RunCheck,
            OverlayAction::RemountBacking,
            OverlayAction::MountOverlay,
            OverlayAction::Finish(OverlayOutcome::Merged),
        ]
    );
    // The second check could not run: the first check's code decides.
    let (p, a) = overlay_step(OverlayPhase::Rechecking(Some(8)), OverlayEvent::CheckFailed);
    assert_eq!((p, a), (OverlayPhase::Restoring, OverlayAction::RestoreSuperblock));
    // The second check was ended by a signal: nothing is known.
    let (p, a) = overlay_step(OverlayPhase::Rechecking(Some(0)), OverlayEvent::Checked(None, false));
    assert_eq!((p, a), (OverlayPhase::Inspecting, OverlayAction::ReadMounts));
}

#[test]
fn overlay_check_cannot_run() {
    assert_eq!(
        run_overlay(vec![
            OverlayEvent::Mounted(false),
            OverlayEvent::CheckFailed,
            OverlayEvent::MountsRead(None),
        ]),
        vec![
            OverlayAction::MountBacking,
            OverlayAction::RunCheck,
            OverlayAction::ReadMounts,
            OverlayAction::Finish(OverlayOutcome::Skipped),
        ]
    );
    assert_eq!(
        run_overlay(vec![OverlayEvent::Mounted(false), OverlayEvent::Checked(None, false)]),
        vec![OverlayAction::MountBacking, OverlayAction::RunCheck, OverlayAction::ReadMounts]
    );
}

#[test]
fn overlay_directories_fail() {
    assert_eq!(
        run_overlay(vec![OverlayEvent::DirFailed]),
        vec![OverlayAction::MountBacking, OverlayAction::Finish(OverlayOutcome::DirFailed)]
    );
    assert_eq!(
        run_overlay(vec![OverlayEvent::Mounted(true), OverlayEvent::DirFailed]),
        vec![
            OverlayAction::MountBacking,
            OverlayAction::MountOverlay,
            OverlayAction::Finish(OverlayOutcome::DirFailed),
        ]
    );
}

#[test]
fn overlay_unexpected_event_changes_nothing() {
    let (p, a) = overlay_step(OverlayPhase::Inspecting, OverlayEvent::Mounted(true));
    assert_eq!((p, a), (OverlayPhase::Inspecting, OverlayAction::ReadMounts));
    let done = OverlayPhase::Finished(OverlayOutcome::Merged);
    let (p, a) = overlay_step(done, OverlayEvent::OverlayMounted(false));
    assert_eq!((p, a), (done, OverlayAction::Finish(OverlayOutcome::Merged)));
}

#[test]
fn overlay_always_finishes() {
    // Whatever the events, the setup finishes within nine steps when each
    // event answers the action asked for.
    let answers = |a: &OverlayAction, pick: usize| -> OverlayEvent {
        match a {
            OverlayAction::MountBacking | OverlayAction::RemountBacking => OverlayEvent::Mounted(pick % 2 == 0),
            OverlayAction::RunCheck => OverlayEvent::Checked(Some([0, 4, 16][pick % 3]), pick % 2 == 1),
            OverlayAction::RestoreSuperblock => OverlayEvent::Restored(Ok(pick % 2 == 0)),
            OverlayAction::ReadMounts => OverlayEvent::MountsRead(Some(pick % 2 == 0)),
            OverlayAction::MountOverlay => OverlayEvent::OverlayMounted(pick % 2 == 0),
            OverlayAction::Finish(_) => unreachable!(),
        }
    };
    for seed in 0..64usize {
        let (mut phase, mut action) = overlay_start();
        let mut steps = 0;
        while !matches!(action, OverlayAction::Finish(_)) {
            let e = answers(&action, seed >> (steps % 6));
            let (p, a) = overlay_step(phase, e);
            phase = p;
            action = a;
            steps += 1;
            assert!(steps <= 9);
        }
    }
}

#[test]
fn overlay_backing_device() {
    let b = BlkInfo {
        devices: vec![BlkDevice {
            path: Some("/dev/vda3".to_string()),
            uuid: "5555".to_string(),
            label: "overlay".to_string(),
            fstype: "ext4".to_string(),
        }],
    };
    assert_eq!(overlay_device("label=overlay", &b), Ok("/dev/vda3"));
    assert_eq!(
        overlay_device("label=gone", &b),
        Err("Could not resolve overlayfs device: label=gone".to_string())
    );
}

#[test]
fn bad_magic_detection() {
    assert!(reports_bad_magic("e2fsck: Bad magic number in super-block while trying to open /dev/vda3\n"));
    assert!(!reports_bad_magic("e2fsck: No such file or directory\n"));
    assert!(!reports_bad_magic("bad magic number"));
}

#[test]
fn mount_table_mentions() {
    let mounts = "/dev/vda1 / ext4 rw 0 0\n/dev/vda3 /mnt/overlay ext4 rw 0 0\n";
    assert!(mounts_mention(mounts, "/mnt/overlay", "/dev/nothing"));
    assert!(mounts_mention(mounts, "/mnt/none", "/dev/vda3"));
    assert!(!mounts_mention(mounts, "/mnt/none", "/dev/vdb"));
    assert!(!mounts_mention("", "/mnt/overlay", "/dev/vda3"));
}

#[test]
fn overlay_layer_paths() {
    assert_eq!(overlay_layer_path("/mnt/overlay", "upper"), "/mnt/overlay/upper");
    assert_eq!(overlay_layer_path("/mnt/overlay", "work"), "/mnt/overlay/work");
}

#[test]
fn pivot_filesystem_type() {
    assert_eq!(pivot_fstype(true, "ext4"), "overlay");
    assert_eq!(pivot_fstype(false, "ext4"), "ext4");
    assert_eq!(pivot_fstype(false, ""), "");
}

#[test]
fn buttons_act_as_letters() {
    assert_eq!(decode_input_event(&event(1, 115, 1)), decode_key(b'r'));
    assert_eq!(decode_input_event(&event(1, 116, 1)), decode_key(b'r'));
    assert_eq!(decode_input_event(&event(1, 114, 1)), decode_key(b'p'));
}
