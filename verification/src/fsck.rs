//! The decisions of filesystem recovery: where the backup superblocks are,
//! which exit codes count as repaired, what to try next, and which lines of a
//! filesystem dump are worth reporting.
use vstd::prelude::*;
use crate::text;

verus! {

/// The backup superblock locations assumed when `mke2fs` cannot tell.
pub open spec fn default_superblocks() -> Seq<nat> {
    seq![
        8193, 16384, 24576, 32768, 49152, 65536, 98304, 131072, 163840, 196608, 229376, 262144,
        294912, 327680, 360448, 393216, 425984, 458752, 491520, 524288,
    ]
}

/// The backup superblock locations assumed when `mke2fs` cannot tell.
pub fn default_superblock_locations() -> (r: Vec<u64>)
    ensures
        r@.map_values(|x: u64| x as nat) == default_superblocks(),
        r@.len() == 20,
{
    let r: Vec<u64> = vec![
        8193, 16384, 24576, 32768, 49152, 65536, 98304, 131072, 163840, 196608, 229376, 262144,
        294912, 327680, 360448, 393216, 425984, 458752, 491520, 524288,
    ];
    proof {
        assert(r@.map_values(|x: u64| x as nat) =~= default_superblocks());
    }
    r
}

/// The line of `mke2fs -n` output that lists the backups.
pub open spec fn superblock_marker() -> Seq<char> {
    "Superblock backups stored on blocks:"@
}

/// The first line that holds the marker.
pub open spec fn first_marked_line(ls: Seq<Seq<char>>) -> Option<Seq<char>>
    decreases ls.len(),
{
    if ls.len() == 0 {
        None
    } else if text::contains_seq(ls[0], superblock_marker()) {
        Some(ls[0])
    } else {
        first_marked_line(ls.skip(1))
    }
}

/// The numbers among comma separated pieces, each trimmed; pieces that are not
/// numbers are skipped.
pub open spec fn numbers_in(pieces: Seq<Seq<char>>) -> Seq<nat>
    decreases pieces.len(),
{
    if pieces.len() == 0 {
        seq![]
    } else {
        numbers_in(pieces.drop_last()) + match text::parse_u64(text::trim(pieces.last())) {
            Some(n) => seq![n],
            None => seq![],
        }
    }
}

/// The block numbers that a marked line lists: what stands between its first
/// and second `:`, split at commas.
pub open spec fn blocks_in_line(line: Seq<char>) -> Seq<nat> {
    let parts = text::split_char(line, ':');
    if parts.len() >= 2 {
        numbers_in(text::split_char(parts[1], ','))
    } else {
        seq![]
    }
}

/// The backup superblock locations that `mke2fs -n` reports, or the default
/// list when it reports none.
pub open spec fn superblock_locations(output: Seq<char>) -> Seq<nat> {
    let found = match first_marked_line(text::lines(output)) {
        Some(l) => blocks_in_line(l),
        None => seq![],
    };
    if found.len() == 0 {
        default_superblocks()
    } else {
        found
    }
}

fn numbers_in_range(v: &Vec<char>, pa: usize, pb: usize) -> (r: Vec<u64>)
    requires
        pa <= pb <= v@.len(),
    ensures
        r@.map_values(|x: u64| x as nat) == numbers_in(
            text::split_char(v@.subrange(pa as int, pb as int), ','),
        ),
{
    let pieces = text::split_char_in(v, pa, pb, ',');
    let ghost qv = text::range_views(v@, pieces@);
    let mut found: Vec<u64> = Vec::new();
    let mut j: usize = 0;
    while j < pieces.len()
        invariant
            pa <= pb <= v@.len(),
            text::ranges_within(pieces@, pa as int, pb as int),
            qv == text::range_views(v@, pieces@),
            qv == text::split_char(v@.subrange(pa as int, pb as int), ','),
            j <= pieces@.len(),
            found@.map_values(|x: u64| x as nat) == numbers_in(qv.take(j as int)),
        decreases pieces@.len() - j,
    {
        let (a, b) = pieces[j];
        let (ta, tb) = text::trim_bounds(v, a, b);
        proof {
            assert(qv.take(j + 1).drop_last() =~= qv.take(j as int));
            assert(qv.take(j + 1).last() == v@.subrange(a as int, b as int));
        }
        let ghost before = found@;
        match text::parse_u64_in(v, ta, tb) {
            Some(n) => {
                found.push(n);
                proof {
                    assert(found@.map_values(|x: u64| x as nat) =~= before.map_values(
                        |x: u64| x as nat,
                    ) + seq![n as nat]);
                }
            },
            None => {
                proof {
                    assert(before.map_values(|x: u64| x as nat) + Seq::<nat>::empty()
                        =~= before.map_values(|x: u64| x as nat));
                }
            },
        }
        j = j + 1;
    }
    proof {
        assert(qv.take(pieces@.len() as int) =~= qv);
    }
    found
}

fn blocks_of_line(v: &Vec<char>, lo: usize, hi: usize) -> (r: Vec<u64>)
    requires
        lo <= hi <= v@.len(),
    ensures
        r@.map_values(|x: u64| x as nat) == blocks_in_line(v@.subrange(lo as int, hi as int)),
{
    let parts = text::split_char_in(v, lo, hi, ':');
    let ghost pv = text::range_views(v@, parts@);
    if parts.len() >= 2 {
        let (pa, pb) = parts[1];
        proof {
            assert(pv[1] == v@.subrange(pa as int, pb as int));
        }
        numbers_in_range(v, pa, pb)
    } else {
        let r: Vec<u64> = Vec::new();
        proof {
            assert(r@.map_values(|x: u64| x as nat) =~= Seq::<nat>::empty());
        }
        r
    }
}

/// The backup superblock locations that the output of `mke2fs -n` (its
/// standard error) reports, or the default list when it reports none.
pub fn parse_superblock_locations(output: &str) -> (r: Vec<u64>)
    ensures
        r@.map_values(|x: u64| x as nat) == superblock_locations(output@),
        r@.len() > 0,
{
    let v = text::chars_of(output);
    let ls = text::lines_of(&v);
    let ghost lv = text::range_views(v@, ls@);
    let marker = text::chars_of("Superblock backups stored on blocks:");
    let mut i: usize = 0;
    proof {
        assert(lv.skip(0) =~= lv);
    }
    while i < ls.len()
        invariant
            v@ == output@,
            lv == text::range_views(v@, ls@),
            lv == text::lines(output@),
            text::ranges_within(ls@, 0, v@.len() as int),
            marker@ == superblock_marker(),
            i <= ls@.len(),
            first_marked_line(lv) == first_marked_line(lv.skip(i as int)),
        decreases ls@.len() - i,
    {
        let (lo, hi) = ls[i];
        proof {
            assert(lv.skip(i as int)[0] == lv[i as int]);
            assert(lv.skip(i as int).skip(1) =~= lv.skip(i + 1));
        }
        if text::contains_at(&v, lo, hi, &marker) {
            let found = blocks_of_line(&v, lo, hi);
            if found.len() == 0 {
                let d = default_superblock_locations();
                proof {
                    assert(found@.map_values(|x: u64| x as nat).len() == 0);
                }
                return d;
            }
            return found;
        }
        i = i + 1;
    }
    proof {
        assert(lv.skip(ls@.len() as int).len() == 0);
    }
    default_superblock_locations()
}

/// `e2fsck -b` exit codes 0 (clean), 1 (corrected) and 2 (corrected, reboot)
/// leave a usable filesystem; no code (killed by a signal) does not.
pub open spec fn backup_repair_succeeded(code: Option<i32>) -> bool {
    match code {
        Some(c) => c == 0 || c == 1 || c == 2,
        None => false,
    }
}

/// The course of a repair from the backup superblocks: an attempt whose
/// `e2fsck -b` exits with 0, 1 or 2 ends the repair as succeeded, wherever it
/// stands; any other code, or none, moves on to the next backup in order, and
/// the repair fails once none is left.
pub proof fn lemma_backup_course(backups: Seq<u64>, next: int, code: Option<i32>)
    ensures
        backup_next(backups, next, Some(code)) == BackupAction::Finish(true) <==> (code matches Some(c) && 0 <= c
            <= 2),
        !(code matches Some(c) && 0 <= c <= 2) && 0 <= next < backups.len() ==> backup_next(
            backups,
            next,
            Some(code),
        ) == BackupAction::Try(backups[next]),
        !(code matches Some(c) && 0 <= c <= 2) && !(0 <= next < backups.len()) ==> backup_next(
            backups,
            next,
            Some(code),
        ) == BackupAction::Finish(false),
        0 <= next < backups.len() ==> backup_next(backups, next, None) == BackupAction::Try(backups[next]),
{
}

/// Whether a run of `e2fsck -b` with a backup superblock ended the recovery.
pub fn backup_attempt_succeeded(code: Option<i32>) -> (r: bool)
    ensures
        r == backup_repair_succeeded(code),
        r <==> (code matches Some(c) && 0 <= c <= 2),
{
    match code {
        Some(c) => c == 0 || c == 1 || c == 2,
        None => false,
    }
}

/// What to do next while repairing from the backup superblocks.
#[derive(Debug, PartialEq, Eq)]
pub enum BackupAction {
    /// Run `e2fsck -b` with this backup superblock.
    Try(u64),
    /// Stop: a backup worked (`true`), or none is left.
    Finish(bool),
}

/// The next step of a repair from the backup superblocks `backups`, tried in
/// order: `last` is the exit code of the attempt just made (`None` before the
/// first, `Some(None)` when it gave no code), `next` the index of the next
/// backup. A usable result stops the repair; otherwise the next backup is
/// tried, and when none is left the repair has failed.
pub open spec fn backup_next(backups: Seq<u64>, next: int, last: Option<Option<i32>>) -> BackupAction {
    if last matches Some(code) && backup_repair_succeeded(code) {
        BackupAction::Finish(true)
    } else if 0 <= next < backups.len() {
        BackupAction::Try(backups[next])
    } else {
        BackupAction::Finish(false)
    }
}

/// The next step of a repair from the backup superblocks (see `backup_next`).
pub fn backup_step(backups: &[u64], next: usize, last: Option<Option<i32>>) -> (r: BackupAction)
    ensures
        r == backup_next(backups@, next as int, last),
{
    let done = match last {
        Some(code) => backup_attempt_succeeded(code),
        None => false,
    };
    if done {
        BackupAction::Finish(true)
    } else if next < backups.len() {
        BackupAction::Try(backups[next])
    } else {
        BackupAction::Finish(false)
    }
}

/// A forced minimal `e2fsck -p -f` repair succeeded when it exited with a code
/// of at most 2.
pub fn minimal_repair_succeeded(code: Option<i32>) -> (r: bool)
    ensures
        r == (code matches Some(c) && c <= 2),
{
    match code {
        Some(c) => c <= 2,
        None => false,
    }
}

/// The methods of advanced recovery, in the order they are tried.
#[derive(Debug, PartialEq, Eq)]
pub enum RecoveryStep {
    /// Reading the filesystem with `debugfs -R stats`.
    ZeroSuperblock,
    /// A forced minimal `e2fsck -p -f`.
    MinimalRepair,
    /// Reporting the manual steps that are left (always `Ok(false)`).
    ReadOnlyInfo,
}

/// What to do after a step of advanced recovery.
#[derive(Debug, PartialEq, Eq)]
pub enum RecoveryAction {
    Run(RecoveryStep),
    Finish(Result<bool, String>),
}

/// The first step of advanced recovery.
pub fn advanced_recovery_start() -> (r: RecoveryStep)
    ensures
        r == RecoveryStep::ZeroSuperblock,
{
    RecoveryStep::ZeroSuperblock
}

/// What follows a step of advanced recovery that ended with `outcome`: a step
/// that reports `Ok(true)` ends the recovery with it, any other outcome moves
/// on to the next method, and after the last step, which only reports the
/// manual steps that are left, the recovery ends with `Ok(false)`.
pub fn attempt_advanced_recovery(step: RecoveryStep, outcome: Result<bool, String>) -> (r:
    RecoveryAction)
    ensures
        match step {
            RecoveryStep::ZeroSuperblock => r == if outcome == Ok::<bool, String>(true) {
                RecoveryAction::Finish(Ok(true))
            } else {
                RecoveryAction::Run(RecoveryStep::MinimalRepair)
            },
            RecoveryStep::MinimalRepair => r == if outcome == Ok::<bool, String>(true) {
                RecoveryAction::Finish(Ok(true))
            } else {
                RecoveryAction::Run(RecoveryStep::ReadOnlyInfo)
            },
            RecoveryStep::ReadOnlyInfo => r == RecoveryAction::Finish(Ok(false)),
        },
{
    match step {
        RecoveryStep::ZeroSuperblock => match outcome {
            Ok(true) => RecoveryAction::Finish(Ok(true)),
            _ => RecoveryAction::Run(RecoveryStep::MinimalRepair),
        },
        RecoveryStep::MinimalRepair => match outcome {
            Ok(true) => RecoveryAction::Finish(Ok(true)),
            _ => RecoveryAction::Run(RecoveryStep::ReadOnlyInfo),
        },
        RecoveryStep::ReadOnlyInfo => RecoveryAction::Finish(Ok(false)),
    }
}

/// The header fields of `dumpe2fs -h` output that are reported.
pub open spec fn info_prefixes() -> Seq<Seq<char>> {
    seq![
        "Filesystem state:"@,
        "Errors behavior:"@,
        "Block count:"@,
        "Block size:"@,
        "Filesystem created:"@,
        "Last mount time:"@,
        "Last write time:"@,
    ]
}

pub open spec fn is_info_line(line: Seq<char>) -> bool {
    exists|k: int| 0 <= k < info_prefixes().len() && text::starts_with(line, #[trigger] info_prefixes()[k])
}

/// The lines of `ls` that start with one of the reported fields, in order.
pub open spec fn info_lines(ls: Seq<Seq<char>>) -> Seq<Seq<char>>
    decreases ls.len(),
{
    if ls.len() == 0 {
        seq![]
    } else {
        info_lines(ls.drop_last()) + if is_info_line(ls.last()) {
            seq![ls.last()]
        } else {
            seq![]
        }
    }
}

/// The lines of `dumpe2fs -h` output worth reporting: filesystem state, error
/// behaviour, block count and size, creation, last mount and last write time.
pub fn filesystem_info_lines(output: &str) -> (r: Vec<String>)
    ensures
        r@.map_values(|s: String| s@) == info_lines(text::lines(output@)),
{
    let v = text::chars_of(output);
    let ls = text::lines_of(&v);
    let ghost lv = text::range_views(v@, ls@);
    let prefixes: Vec<&str> = vec![
        "Filesystem state:",
        "Errors behavior:",
        "Block count:",
        "Block size:",
        "Filesystem created:",
        "Last mount time:",
        "Last write time:",
    ];
    proof {
        assert(prefixes@.map_values(|p: &str| p@) =~= info_prefixes());
    }
    let mut r: Vec<String> = Vec::new();
    let mut i: usize = 0;
    while i < ls.len()
        invariant
            v@ == output@,
            lv == text::range_views(v@, ls@),
            lv == text::lines(output@),
            text::ranges_within(ls@, 0, v@.len() as int),
            prefixes@.map_values(|p: &str| p@) == info_prefixes(),
            i <= ls@.len(),
            r@.map_values(|s: String| s@) == info_lines(lv.take(i as int)),
        decreases ls@.len() - i,
    {
        let (lo, hi) = ls[i];
        let ghost line = v@.subrange(lo as int, hi as int);
        proof {
            assert(lv.take(i + 1).drop_last() =~= lv.take(i as int));
            assert(lv.take(i + 1).last() == line);
        }
        let mut matched = false;
        let mut k: usize = 0;
        while k < prefixes.len()
            invariant
                lo <= hi <= v@.len(),
                line == v@.subrange(lo as int, hi as int),
                prefixes@.map_values(|p: &str| p@) == info_prefixes(),
                k <= prefixes@.len(),
                matched == exists|m: int| 0 <= m < k && text::starts_with(line, #[trigger] info_prefixes()[m]),
            decreases prefixes@.len() - k,
        {
            let pv = text::chars_of(prefixes[k]);
            proof {
                assert(info_prefixes()[k as int] == prefixes@[k as int]@);
            }
            if text::starts_with_at(&v, lo, hi, &pv) {
                matched = true;
            }
            k = k + 1;
        }
        let ghost before = r@;
        if matched {
            r.push(text::string_from_range(&v, lo, hi));
            proof {
                assert(r@.map_values(|s: String| s@) =~= before.map_values(|s: String| s@) + seq![line]);
            }
        } else {
            proof {
                assert(before.map_values(|s: String| s@) + Seq::<Seq<char>>::empty() =~= before.map_values(
                    |s: String| s@,
                ));
            }
        }
        i = i + 1;
    }
    proof {
        assert(lv.take(ls@.len() as int) =~= lv);
    }
    r
}

} // verus!
