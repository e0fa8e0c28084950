//! Decisions of the root filesystem operations: what the ramfs cleanup spares,
//! the overlayfs mount options, and what `/proc` tells about mounts.
use vstd::prelude::*;
use crate::text;

verus! {

/// `e` is the root, or lies under `/proc`, `/sys`, `/dev` or the sysroot `sr`
/// (also as seen from within the sysroot).
pub open spec fn is_sys_path(e: Seq<char>, sr: Seq<char>) -> bool {
    let dirs = seq!["/proc"@, "/sys"@, "/dev"@, sr];
    exists|k: int|
        0 <= k < 4 && {
            let d = #[trigger] dirs[k];
            ||| e == "/"@
            ||| text::starts_with(e, d)
            ||| text::starts_with(e, sr + d)
            ||| text::starts_with(e, sr + d + "/"@)
        }
}

fn str_starts_with(s: &str, p: &str) -> (r: bool)
    ensures
        r == text::starts_with(s@, p@),
{
    let v = text::chars_of(s);
    let pv = text::chars_of(p);
    proof {
        assert(v@.subrange(0, v@.len() as int) =~= v@);
    }
    text::starts_with_at(&v, 0, v.len(), &pv)
}

fn str_eq(a: &str, b: &str) -> (r: bool)
    ensures
        r == (a@ == b@),
{
    let x = String::from_str(a);
    let y = String::from_str(b);
    x == y
}

/// Whether the ramfs cleanup must spare `e` (see `is_sys_path`).
pub fn is_sys(e: &str, sr: &str) -> (r: bool)
    ensures
        r == is_sys_path(e@, sr@),
{
    let dirs: Vec<&str> = vec!["/proc", "/sys", "/dev", sr];
    let ghost dv = seq!["/proc"@, "/sys"@, "/dev"@, sr@];
    proof {
        assert(dirs@.map_values(|d: &str| d@) =~= dv);
    }
    let mut k: usize = 0;
    while k < 4
        invariant
            k <= 4,
            dirs@.len() == 4,
            dirs@.map_values(|d: &str| d@) == dv,
            dv == seq!["/proc"@, "/sys"@, "/dev"@, sr@],
            forall|m: int|
                0 <= m < k ==> !{
                    let d = #[trigger] dv[m];
                    ||| e@ == "/"@
                    ||| text::starts_with(e@, d)
                    ||| text::starts_with(e@, sr@ + d)
                    ||| text::starts_with(e@, sr@ + d + "/"@)
                },
        decreases 4 - k,
    {
        let d = dirs[k];
        proof {
            assert(dv[k as int] == d@);
        }
        let sd = text::concat_str(sr, d);
        let sds = text::concat3(sr, d, "/");
        if str_eq(e, "/") || str_starts_with(e, d) || str_starts_with(e, sd.as_str())
            || str_starts_with(e, sds.as_str()) {
            return true;
        }
        k = k + 1;
    }
    false
}

/// Whether the ramfs cleanup removes `p`: a directory (not `/`) on the ramfs
/// itself (filesystem id 0) that is not spared.
pub fn removable_from_ramfs(p: &str, fs_id: u64, is_dir: bool, sr: &str) -> (r: bool)
    ensures
        r == (fs_id == 0 && !is_sys_path(p@, sr@) && is_dir && p@ != "/"@),
{
    fs_id == 0 && !is_sys(p, sr) && is_dir && !str_eq(p, "/")
}

/// The options of an overlayfs mount.
pub fn overlay_mount_options(lowerdir: &str, upperdir: &str, workdir: &str) -> (r: String)
    ensures
        r@ == "lowerdir="@ + lowerdir@ + ",upperdir="@ + upperdir@ + ",workdir="@ + workdir@,
{
    let mut r = String::from_str("lowerdir=");
    r.append(lowerdir);
    r.append(",upperdir=");
    r.append(upperdir);
    r.append(",workdir=");
    r.append(workdir);
    r
}

/// The filesystem type that the new root is switched to: `overlay` when the
/// overlay became the root, else the root filesystem's own type.
pub fn pivot_fstype<'a>(use_overlay: bool, root_fstype: &'a str) -> (r: &'a str)
    ensures
        r@ == if use_overlay {
            "overlay"@
        } else {
            root_fstype@
        },
{
    if use_overlay {
        "overlay"
    } else {
        root_fstype
    }
}

/// Whether the kernel's list of filesystems (`/proc/filesystems`) mentions overlay.
pub fn overlay_listed(filesystems: &str) -> (r: bool)
    ensures
        r == text::contains_seq(filesystems@, "overlay"@),
{
    let v = text::chars_of(filesystems);
    let p = text::chars_of("overlay");
    proof {
        assert(v@.subrange(0, v@.len() as int) =~= v@);
    }
    text::contains_at(&v, 0, v.len(), &p)
}

/// The type of the filesystem mounted at `/`, as the first line of a mount
/// table whose second field is `/` gives it in its third field (none when
/// there is no such line, or it has no third field).
pub open spec fn root_fstype_in(ls: Seq<Seq<char>>) -> Option<Seq<char>>
    decreases ls.len(),
{
    if ls.len() == 0 {
        None
    } else {
        let w = text::words(ls[0]);
        if w.len() >= 2 && w[1] == "/"@ {
            if w.len() >= 3 {
                Some(w[2])
            } else {
                None
            }
        } else {
            root_fstype_in(ls.skip(1))
        }
    }
}

/// The type of the filesystem mounted at `/` according to a mount table
/// (`/proc/mounts`).
pub fn root_mount_fstype(mounts: &str) -> (r: Option<String>)
    ensures
        match r {
            Some(t) => root_fstype_in(text::lines(mounts@)) == Some(t@),
            None => root_fstype_in(text::lines(mounts@)) is None,
        },
{
    let v = text::chars_of(mounts);
    let ls = text::lines_of(&v);
    let ghost lv = text::range_views(v@, ls@);
    let slash = String::from_str("/");
    let mut i: usize = 0;
    proof {
        assert(lv.skip(0) =~= lv);
    }
    while i < ls.len()
        invariant
            v@ == mounts@,
            lv == text::range_views(v@, ls@),
            lv == text::lines(mounts@),
            text::ranges_within(ls@, 0, v@.len() as int),
            slash@ == "/"@,
            i <= ls@.len(),
            root_fstype_in(lv) == root_fstype_in(lv.skip(i as int)),
        decreases ls@.len() - i,
    {
        let (lo, hi) = ls[i];
        proof {
            assert(lv.skip(i as int)[0] == lv[i as int]);
            assert(lv.skip(i as int).skip(1) =~= lv.skip(i + 1));
        }
        let w = text::split_whitespace_in(&v, lo, hi);
        let ghost wv = text::range_views(v@, w@);
        if w.len() >= 2 {
            let (a, b) = w[1];
            let second = text::string_from_range(&v, a, b);
            proof {
                assert(wv[1] == v@.subrange(a as int, b as int));
            }
            if second == slash {
                if w.len() >= 3 {
                    let (c, d) = w[2];
                    proof {
                        assert(wv[2] == v@.subrange(c as int, d as int));
                    }
                    return Some(text::string_from_range(&v, c, d));
                }
                return None;
            }
        }
        i = i + 1;
    }
    None
}

} // verus!
