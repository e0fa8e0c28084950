//! The decisions of preparing the overlay root: its backing device, what to
//! do after each mount, `e2fsck` run and restore, and where the layers go.
use vstd::prelude::*;
use crate::blk::BlkInfo;
use crate::microhop::{resolve_device, resolve_device_path};
use crate::text;

verus! {

/// How the setup of the overlay root ended.
#[derive(Clone, Copy, Debug, PartialEq, Eq)]
pub enum OverlayOutcome {
    /// The overlay is mounted at the merged directory, which becomes the root.
    Merged,
    /// No overlay: the plain sysroot becomes the root.
    Skipped,
    /// `e2fsck` on the backing device exited with this code (16 or more): fatal.
    CheckerFailed(i32),
    /// A directory that the setup needs could not be created: fatal.
    DirFailed,
}

/// What the setup of the overlay root waits for.
#[derive(Clone, Copy, Debug, PartialEq, Eq)]
pub enum OverlayPhase {
    /// `/overlay` to be created and the backing device mounted there.
    Mounting,
    /// `e2fsck -p` on the backing device.
    Checking,
    /// The backup superblocks, after `e2fsck` reported a bad magic number; holds
    /// what that check returned (its exit code, none when a signal ended it).
    RestoringForCheck(Option<i32>),
    /// `e2fsck -p` again, after the backup superblocks were restored; holds
    /// what the first check returned.
    Rechecking(Option<i32>),
    /// The backup superblocks, which the check's exit code called for.
    Restoring,
    /// The backing device mounted again after a check that passed.
    RemountingAfterCheck,
    /// The backing device mounted again after the backups were restored.
    RemountingAfterRestore,
    /// `/proc/mounts`, to see whether the backing device is mounted after all.
    Inspecting,
    /// The merged directory to be created and the overlay mounted there.
    MountingOverlay,
    /// Nothing: the setup ended.
    Finished(OverlayOutcome),
}

/// What happened while setting up the overlay root.
#[derive(Debug, PartialEq, Eq)]
pub enum OverlayEvent {
    /// A directory could not be created.
    DirFailed,
    /// The backing device was mounted (`true`) or not.
    Mounted(bool),
    /// `e2fsck` ran: its exit code (none when a signal ended it), and whether its
    /// standard error reports a bad magic number.
    Checked(Option<i32>, bool),
    /// `e2fsck` could not be run.
    CheckFailed,
    /// Restoring from the backup superblocks ended: `Ok(true)` when one worked.
    Restored(Result<bool, String>),
    /// `/proc/mounts` was read: whether a line mentions the overlay mount point
    /// or the backing device; none when it could not be read.
    MountsRead(Option<bool>),
    /// The overlay was mounted at the merged directory (`true`) or not.
    OverlayMounted(bool),
}

/// What to do next while setting up the overlay root.
#[derive(Debug, PartialEq, Eq)]
pub enum OverlayAction {
    /// Create `/overlay` and mount the backing device there as ext4.
    MountBacking,
    /// Run `e2fsck -p` on the backing device.
    RunCheck,
    /// Restore the backing device's superblock from its backups.
    RestoreSuperblock,
    /// Mount the backing device at `/overlay` again.
    RemountBacking,
    /// Read `/proc/mounts`.
    ReadMounts,
    /// Create the merged directory and mount the overlay there.
    MountOverlay,
    /// Stop.
    Finish(OverlayOutcome),
}

/// The first phase of the setup and its action.
pub open spec fn overlay_begin() -> (OverlayPhase, OverlayAction) {
    (OverlayPhase::Mounting, OverlayAction::MountBacking)
}

/// The action that a phase waits on.
pub open spec fn pending_action(p: OverlayPhase) -> OverlayAction {
    match p {
        OverlayPhase::Mounting => OverlayAction::MountBacking,
        OverlayPhase::Checking => OverlayAction::RunCheck,
        OverlayPhase::RestoringForCheck(_) => OverlayAction::RestoreSuperblock,
        OverlayPhase::Rechecking(_) => OverlayAction::RunCheck,
        OverlayPhase::Restoring => OverlayAction::RestoreSuperblock,
        OverlayPhase::RemountingAfterCheck => OverlayAction::RemountBacking,
        OverlayPhase::RemountingAfterRestore => OverlayAction::RemountBacking,
        OverlayPhase::Inspecting => OverlayAction::ReadMounts,
        OverlayPhase::MountingOverlay => OverlayAction::MountOverlay,
        OverlayPhase::Finished(o) => OverlayAction::Finish(o),
    }
}

/// Moving to `p` and doing what it waits on.
pub open spec fn go(p: OverlayPhase) -> (OverlayPhase, OverlayAction) {
    (p, pending_action(p))
}

/// What the result of `e2fsck` calls for: after a clean or fixed check (0 or 1)
/// the device is mounted again and taken as usable; codes below 16 call for the
/// backup superblocks; 16 and above are fatal; without a code nothing is known
/// and `/proc/mounts` decides.
pub open spec fn after_check(code: Option<i32>) -> (OverlayPhase, OverlayAction) {
    match code {
        Some(c) => if c == 0 || c == 1 {
            go(OverlayPhase::RemountingAfterCheck)
        } else if c < 16 {
            go(OverlayPhase::Restoring)
        } else {
            go(OverlayPhase::Finished(OverlayOutcome::CheckerFailed(c)))
        },
        None => go(OverlayPhase::Inspecting),
    }
}

/// The next phase and action after `e` in phase `p`. A backing device that
/// mounts, passes `e2fsck`, mounts after its backups are restored, or shows up in
/// `/proc/mounts` carries the overlay; otherwise the overlay is skipped. An
/// event that the phase does not wait for changes nothing.
pub open spec fn overlay_next(p: OverlayPhase, e: OverlayEvent) -> (OverlayPhase, OverlayAction) {
    match p {
        OverlayPhase::Mounting => match e {
            OverlayEvent::DirFailed => go(OverlayPhase::Finished(OverlayOutcome::DirFailed)),
            OverlayEvent::Mounted(true) => go(OverlayPhase::MountingOverlay),
            OverlayEvent::Mounted(false) => go(OverlayPhase::Checking),
            _ => go(p),
        },
        OverlayPhase::Checking => match e {
            OverlayEvent::Checked(c, true) => go(OverlayPhase::RestoringForCheck(c)),
            OverlayEvent::Checked(c, false) => after_check(c),
            OverlayEvent::CheckFailed => go(OverlayPhase::Inspecting),
            _ => go(p),
        },
        OverlayPhase::RestoringForCheck(c) => match e {
            OverlayEvent::Restored(Ok(true)) => go(OverlayPhase::Rechecking(c)),
            OverlayEvent::Restored(_) => after_check(c),
            _ => go(p),
        },
        OverlayPhase::Rechecking(c) => match e {
            OverlayEvent::Checked(Some(rc), _) => after_check(Some(rc)),
            OverlayEvent::Checked(None, _) => go(OverlayPhase::Inspecting),
            OverlayEvent::CheckFailed => after_check(c),
            _ => go(p),
        },
        OverlayPhase::Restoring => match e {
            OverlayEvent::Restored(Ok(true)) => go(OverlayPhase::RemountingAfterRestore),
            OverlayEvent::Restored(_) => go(OverlayPhase::Inspecting),
            _ => go(p),
        },
        OverlayPhase::RemountingAfterCheck => match e {
            OverlayEvent::Mounted(_) => go(OverlayPhase::MountingOverlay),
            _ => go(p),
        },
        OverlayPhase::RemountingAfterRestore => match e {
            OverlayEvent::Mounted(true) => go(OverlayPhase::MountingOverlay),
            OverlayEvent::Mounted(false) => go(OverlayPhase::Inspecting),
            _ => go(p),
        },
        OverlayPhase::Inspecting => match e {
            OverlayEvent::MountsRead(Some(true)) => go(OverlayPhase::MountingOverlay),
            OverlayEvent::MountsRead(_) => go(OverlayPhase::Finished(OverlayOutcome::Skipped)),
            _ => go(p),
        },
        OverlayPhase::MountingOverlay => match e {
            OverlayEvent::DirFailed => go(OverlayPhase::Finished(OverlayOutcome::DirFailed)),
            OverlayEvent::OverlayMounted(true) => go(OverlayPhase::Finished(OverlayOutcome::Merged)),
            OverlayEvent::OverlayMounted(false) => go(
                OverlayPhase::Finished(OverlayOutcome::Skipped),
            ),
            _ => go(p),
        },
        OverlayPhase::Finished(_) => go(p),
    }
}

fn pending(p: OverlayPhase) -> (r: OverlayAction)
    ensures
        r == pending_action(p),
{
    match p {
        OverlayPhase::Mounting => OverlayAction::MountBacking,
        OverlayPhase::Checking => OverlayAction::RunCheck,
        OverlayPhase::RestoringForCheck(_) => OverlayAction::RestoreSuperblock,
        OverlayPhase::Rechecking(_) => OverlayAction::RunCheck,
        OverlayPhase::Restoring => OverlayAction::RestoreSuperblock,
        OverlayPhase::RemountingAfterCheck => OverlayAction::RemountBacking,
        OverlayPhase::RemountingAfterRestore => OverlayAction::RemountBacking,
        OverlayPhase::Inspecting => OverlayAction::ReadMounts,
        OverlayPhase::MountingOverlay => OverlayAction::MountOverlay,
        OverlayPhase::Finished(o) => OverlayAction::Finish(o),
    }
}

fn go_to(p: OverlayPhase) -> (r: (OverlayPhase, OverlayAction))
    ensures
        r == go(p),
{
    (p, pending(p))
}

fn after_check_step(code: Option<i32>) -> (r: (OverlayPhase, OverlayAction))
    ensures
        r == after_check(code),
{
    match code {
        Some(c) => if c == 0 || c == 1 {
            go_to(OverlayPhase::RemountingAfterCheck)
        } else if c < 16 {
            go_to(OverlayPhase::Restoring)
        } else {
            go_to(OverlayPhase::Finished(OverlayOutcome::CheckerFailed(c)))
        },
        None => go_to(OverlayPhase::Inspecting),
    }
}

/// The first phase of the overlay setup and its action: mount the backing device.
pub fn overlay_start() -> (r: (OverlayPhase, OverlayAction))
    ensures
        r == overlay_begin(),
{
    (OverlayPhase::Mounting, OverlayAction::MountBacking)
}

/// The next phase and action of the overlay setup (see `overlay_next`).
pub fn overlay_step(p: OverlayPhase, e: OverlayEvent) -> (r: (OverlayPhase, OverlayAction))
    ensures
        r == overlay_next(p, e),
{
    match p {
        OverlayPhase::Mounting => match e {
            OverlayEvent::DirFailed => go_to(OverlayPhase::Finished(OverlayOutcome::DirFailed)),
            OverlayEvent::Mounted(true) => go_to(OverlayPhase::MountingOverlay),
            OverlayEvent::Mounted(false) => go_to(OverlayPhase::Checking),
            _ => go_to(p),
        },
        OverlayPhase::Checking => match e {
            OverlayEvent::Checked(c, true) => go_to(OverlayPhase::RestoringForCheck(c)),
            OverlayEvent::Checked(c, false) => after_check_step(c),
            OverlayEvent::CheckFailed => go_to(OverlayPhase::Inspecting),
            _ => go_to(p),
        },
        OverlayPhase::RestoringForCheck(c) => match e {
            OverlayEvent::Restored(Ok(true)) => go_to(OverlayPhase::Rechecking(c)),
            OverlayEvent::Restored(_) => after_check_step(c),
            _ => go_to(p),
        },
        OverlayPhase::Rechecking(c) => match e {
            OverlayEvent::Checked(Some(rc), _) => after_check_step(Some(rc)),
            OverlayEvent::Checked(None, _) => go_to(OverlayPhase::Inspecting),
            OverlayEvent::CheckFailed => after_check_step(c),
            _ => go_to(p),
        },
        OverlayPhase::Restoring => match e {
            OverlayEvent::Restored(Ok(true)) => go_to(OverlayPhase::RemountingAfterRestore),
            OverlayEvent::Restored(_) => go_to(OverlayPhase::Inspecting),
            _ => go_to(p),
        },
        OverlayPhase::RemountingAfterCheck => match e {
            OverlayEvent::Mounted(_) => go_to(OverlayPhase::MountingOverlay),
            _ => go_to(p),
        },
        OverlayPhase::RemountingAfterRestore => match e {
            OverlayEvent::Mounted(true) => go_to(OverlayPhase::MountingOverlay),
            OverlayEvent::Mounted(false) => go_to(OverlayPhase::Inspecting),
            _ => go_to(p),
        },
        OverlayPhase::Inspecting => match e {
            OverlayEvent::MountsRead(Some(true)) => go_to(OverlayPhase::MountingOverlay),
            OverlayEvent::MountsRead(_) => go_to(OverlayPhase::Finished(OverlayOutcome::Skipped)),
            _ => go_to(p),
        },
        OverlayPhase::MountingOverlay => match e {
            OverlayEvent::DirFailed => go_to(OverlayPhase::Finished(OverlayOutcome::DirFailed)),
            OverlayEvent::OverlayMounted(true) => go_to(
                OverlayPhase::Finished(OverlayOutcome::Merged),
            ),
            OverlayEvent::OverlayMounted(false) => go_to(
                OverlayPhase::Finished(OverlayOutcome::Skipped),
            ),
            _ => go_to(p),
        },
        OverlayPhase::Finished(_) => go_to(p),
    }
}

/// How far a phase is from the end of the setup.
pub open spec fn overlay_rank(p: OverlayPhase) -> nat {
    match p {
        OverlayPhase::Mounting => 9,
        OverlayPhase::Checking => 8,
        OverlayPhase::RestoringForCheck(_) => 7,
        OverlayPhase::Rechecking(_) => 6,
        OverlayPhase::Restoring => 5,
        OverlayPhase::RemountingAfterCheck => 4,
        OverlayPhase::RemountingAfterRestore => 3,
        OverlayPhase::Inspecting => 2,
        OverlayPhase::MountingOverlay => 1,
        OverlayPhase::Finished(_) => 0,
    }
}

/// The setup always ends: every event moves it to a phase nearer the end, or
/// leaves the phase and its pending action as they were; so from the start it
/// finishes after at most nine steps.
pub proof fn lemma_overlay_progress(p: OverlayPhase, e: OverlayEvent)
    ensures
        overlay_next(p, e).1 == pending_action(overlay_next(p, e).0),
        overlay_next(p, e).0 == p || overlay_rank(overlay_next(p, e).0) < overlay_rank(p),
{
}

/// The overlay becomes the root only when it was just mounted at the merged
/// directory; an `e2fsck` exit code of 16 or more, from the check or from the
/// check after a restore, always ends the setup with that code.
pub proof fn lemma_overlay_outcomes(p: OverlayPhase, e: OverlayEvent)
    ensures
        p !is Finished && overlay_next(p, e).1 == OverlayAction::Finish(OverlayOutcome::Merged)
            ==> p == OverlayPhase::MountingOverlay && e == OverlayEvent::OverlayMounted(true),
        forall|c: i32|
            c >= 16 && (p == OverlayPhase::Checking || p is Rechecking)
                && e == OverlayEvent::Checked(Some(c), false) ==> overlay_next(p, e).1
                == OverlayAction::Finish(OverlayOutcome::CheckerFailed(c)),
{
}

/// What an `e2fsck` exit code leads to, after the check of a backing device
/// that did not mount, or after the check that follows a restore: 0 and 1 mount
/// the device again; every other code below 16 restores the superblock from the
/// backups first; 16 and above end the setup with that code.
pub proof fn lemma_overlay_check_codes(p: OverlayPhase, c: i32)
    requires
        p == OverlayPhase::Checking || p is Rechecking,
    ensures
        overlay_next(p, OverlayEvent::Checked(Some(c), false)).0 == OverlayPhase::RemountingAfterCheck <==> 0 <= c
            <= 1,
        overlay_next(p, OverlayEvent::Checked(Some(c), false)).1 == OverlayAction::RemountBacking <==> 0 <= c <= 1,
        c != 0 && c != 1 && c < 16 ==> overlay_next(p, OverlayEvent::Checked(Some(c), false)) == (
            OverlayPhase::Restoring,
            OverlayAction::RestoreSuperblock,
        ),
        c >= 16 ==> overlay_next(p, OverlayEvent::Checked(Some(c), false)).0 == OverlayPhase::Finished(
            OverlayOutcome::CheckerFailed(c),
        ),
{
}

/// The backing device of the overlay, or why there is none.
pub fn overlay_device<'a>(device_spec: &'a str, blkid: &'a BlkInfo) -> (r: Result<&'a str, String>)
    ensures
        match r {
            Ok(p) => resolve_device(device_spec@, blkid.devices@) == Some(p@),
            Err(m) => resolve_device(device_spec@, blkid.devices@) is None && m@
                == "Could not resolve overlayfs device: "@ + device_spec@,
        },
{
    match resolve_device_path(device_spec, blkid) {
        Some(p) => Ok(p),
        None => Err(text::concat_str("Could not resolve overlayfs device: ", device_spec)),
    }
}

/// Whether `e2fsck` complained about the superblock's magic number, which calls
/// for the backup superblocks.
pub fn reports_bad_magic(stderr: &str) -> (r: bool)
    ensures
        r == text::contains_seq(stderr@, "Bad magic number"@),
{
    let v = text::chars_of(stderr);
    let p = text::chars_of("Bad magic number");
    proof {
        assert(v@.subrange(0, v@.len() as int) =~= v@);
    }
    text::contains_at(&v, 0, v.len(), &p)
}

/// Some line of a mount table holds `a` or `b`.
pub open spec fn mounts_mention_spec(ls: Seq<Seq<char>>, a: Seq<char>, b: Seq<char>) -> bool {
    exists|i: int|
        0 <= i < ls.len() && (text::contains_seq(#[trigger] ls[i], a) || text::contains_seq(ls[i], b))
}

/// Whether some line of a mount table (`/proc/mounts`) mentions the overlay
/// mount point or its backing device.
pub fn mounts_mention(mounts: &str, a: &str, b: &str) -> (r: bool)
    ensures
        r == mounts_mention_spec(text::lines(mounts@), a@, b@),
{
    let v = text::chars_of(mounts);
    let ls = text::lines_of(&v);
    let ghost lv = text::range_views(v@, ls@);
    let av = text::chars_of(a);
    let bv = text::chars_of(b);
    let mut i: usize = 0;
    while i < ls.len()
        invariant
            v@ == mounts@,
            av@ == a@,
            bv@ == b@,
            lv == text::range_views(v@, ls@),
            lv == text::lines(mounts@),
            text::ranges_within(ls@, 0, v@.len() as int),
            i <= ls@.len(),
            forall|j: int|
                0 <= j < i ==> !(text::contains_seq(#[trigger] lv[j], a@) || text::contains_seq(
                    lv[j],
                    b@,
                )),
        decreases ls@.len() - i,
    {
        let (lo, hi) = ls[i];
        proof {
            assert(lv[i as int] == v@.subrange(lo as int, hi as int));
        }
        if text::contains_at(&v, lo, hi, &av) || text::contains_at(&v, lo, hi, &bv) {
            return true;
        }
        i = i + 1;
    }
    false
}

/// A layer directory (upper or work) on the mounted backing device.
pub fn overlay_layer_path(mount: &str, sub: &str) -> (r: String)
    ensures
        r@ == mount@ + "/"@ + sub@,
{
    text::concat3(mount, "/", sub)
}

} // verus!
