use microhop::fsck::{
    advanced_recovery_start, attempt_advanced_recovery, backup_attempt_succeeded, backup_step,
    default_superblock_locations, filesystem_info_lines, minimal_repair_succeeded,
    parse_superblock_locations, BackupAction, RecoveryAction, RecoveryStep,
};

const DEFAULTS: [u64; 20] = [
    8193, 16384, 24576, 32768, 49152, 65536, 98304, 131072, 163840, 196608, 229376, 262144, 294912,
    327680, 360448, 393216, 425984, 458752, 491520, 524288,
];

#[test]
fn default_locations() {
    assert_eq!(default_superblock_locations(), DEFAULTS.to_vec());
}

#[test]
fn superblocks_from_mke2fs_output() {
    let out = "mke2fs 1.47.0 (5-Feb-2023)\n\
Creating filesystem with 262144 4k blocks and 65536 inodes\n\
Superblock backups stored on blocks: 32768, 98304, 163840, 229376\n\
\n";
    assert_eq!(parse_superblock_locations(out), vec![32768, 98304, 163840, 229376]);
}

#[test]
fn superblocks_skip_pieces_that_are_not_numbers() {
    let out = "Superblock backups stored on blocks: 32768, x, +98304, -1: 7\n";
    assert_eq!(parse_superblock_locations(out), vec![32768, 98304]);
}

#[test]
fn superblocks_only_first_marked_line() {
    let out = "Superblock backups stored on blocks: 1, 2\nSuperblock backups stored on blocks: 3\n";
    assert_eq!(parse_superblock_locations(out), vec![1, 2]);
}

#[test]
fn superblocks_default_when_none_found() {
    assert_eq!(parse_superblock_locations(""), DEFAULTS.to_vec());
    assert_eq!(parse_superblock_locations("nothing to see\n"), DEFAULTS.to_vec());
    // The blocks on the following line are not read.
    let out = "Superblock backups stored on blocks: \n\t32768, 98304\n";
    assert_eq!(parse_superblock_locations(out), DEFAULTS.to_vec());
    // A number too large for 64 bits is skipped.
    let out = "Superblock backups stored on blocks: 18446744073709551616\n";
    assert_eq!(parse_superblock_locations(out), DEFAULTS.to_vec());
}

#[test]
fn superblocks_largest_number() {
    let out = "Superblock backups stored on blocks: 18446744073709551615\r\n";
    assert_eq!(parse_superblock_locations(out), vec![u64::MAX]);
}

#[test]
fn backup_attempt_codes() {
    assert!(backup_attempt_succeeded(Some(0)));
    assert!(backup_attempt_succeeded(Some(1)));
    assert!(backup_attempt_succeeded(Some(2)));
    assert!(!backup_attempt_succeeded(Some(4)));
    assert!(!backup_attempt_succeeded(Some(-1)));
    assert!(!backup_attempt_succeeded(None));
}

#[test]
fn minimal_repair_codes() {
    assert!(minimal_repair_succeeded(Some(0)));
    assert!(minimal_repair_succeeded(Some(2)));
    assert!(minimal_repair_succeeded(Some(-3)));
    assert!(!minimal_repair_succeeded(Some(3)));
    assert!(!minimal_repair_succeeded(None));
}

#[test]
fn advanced_recovery_sequence() {
    assert_eq!(advanced_recovery_start(), RecoveryStep::ZeroSuperblock);
    assert_eq!(
        attempt_advanced_recovery(RecoveryStep::ZeroSuperblock, Ok(true)),
        RecoveryAction::Finish(Ok(true))
    );
    assert_eq!(
        attempt_advanced_recovery(RecoveryStep::ZeroSuperblock, Ok(false)),
        RecoveryAction::Run(RecoveryStep::MinimalRepair)
    );
    assert_eq!(
        attempt_advanced_recovery(RecoveryStep::ZeroSuperblock, Err("debugfs failed".to_string())),
        RecoveryAction::Run(RecoveryStep::MinimalRepair)
    );
    assert_eq!(
        attempt_advanced_recovery(RecoveryStep::MinimalRepair, Ok(true)),
        RecoveryAction::Finish(Ok(true))
    );
    assert_eq!(
        attempt_advanced_recovery(RecoveryStep::MinimalRepair, Err("e".to_string())),
        RecoveryAction::Run(RecoveryStep::ReadOnlyInfo)
    );
    assert_eq!(
        attempt_advanced_recovery(RecoveryStep::ReadOnlyInfo, Ok(false)),
        RecoveryAction::Finish(Ok(false))
    );
    assert_eq!(
        attempt_advanced_recovery(RecoveryStep::ReadOnlyInfo, Err("x".to_string())),
        RecoveryAction::Finish(Ok(false))
    );
}

#[test]
fn dumpe2fs_info_lines() {
    let out = "dumpe2fs 1.47.0 (5-Feb-2023)\n\
Filesystem volume name:   <none>\n\
Filesystem state:         clean\n\
Errors behavior:          Continue\n\
Block count:              262144\n\
Reserved block count:     13107\n\
Block size:               4096\n\
Filesystem created:       Mon Jan  1 00:00:00 2024\n\
Last mount time:          n/a\n\
Last write time:          Mon Jan  1 00:00:00 2024\n\
\x20Block count: indented\n";
    assert_eq!(
        filesystem_info_lines(out),
        vec![
            "Filesystem state:         clean",
            "Errors behavior:          Continue",
            "Block count:              262144",
            "Block size:               4096",
            "Filesystem created:       Mon Jan  1 00:00:00 2024",
            "Last mount time:          n/a",
            "Last write time:          Mon Jan  1 00:00:00 2024",
        ]
    );
    assert!(filesystem_info_lines("").is_empty());
}

#[test]
fn backup_steps_in_order() {
    let b = [32768u64, 98304];
    assert_eq!(backup_step(&b, 0, None), BackupAction::Try(32768));
    assert_eq!(backup_step(&b, 1, Some(Some(4))), BackupAction::Try(98304));
    assert_eq!(backup_step(&b, 1, Some(None)), BackupAction::Try(98304));
    assert_eq!(backup_step(&b, 2, Some(Some(8))), BackupAction::Finish(false));
    assert_eq!(backup_step(&b, 1, Some(Some(2))), BackupAction::Finish(true));
    assert_eq!(backup_step(&b, 2, Some(Some(0))), BackupAction::Finish(true));
    assert_eq!(backup_step(&[], 0, None), BackupAction::Finish(false));
}
