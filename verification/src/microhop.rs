//! What the init program decides: the system directories to mount, which
//! device a specification names, and the mount plan for the root filesystem.
use vstd::prelude::*;
use crate::blk;
use crate::blk::BlkInfo;
use crate::cmdline::CmdLine;
use crate::config;
use crate::config::MhConfig;
use crate::text;

verus! {

/// A filesystem to mount: type, device, mount point and optional mode (`ro`/`rw`).
pub struct SystemDir<T> {
    pub fstype: T,
    pub dev: T,
    pub dst: T,
    pub mode: Option<T>,
}

impl<T> SystemDir<T> {
    pub(crate) fn new(fstype: T, dev: T, dst: T) -> (r: Self)
        ensures
            r.fstype == fstype,
            r.dev == dev,
            r.dst == dst,
            r.mode is None,
    {
        Self { fstype, dev, dst, mode: None }
    }

    pub fn new_with_mode(fstype: T, dev: T, dst: T, mode: T) -> (r: Self)
        ensures
            r.fstype == fstype,
            r.dev == dev,
            r.dst == dst,
            r.mode == Some(mode),
    {
        Self { fstype, dev, dst, mode: Some(mode) }
    }
}

/// A mount, by the characters of its parts.
pub struct MountSpec {
    pub fstype: Seq<char>,
    pub dev: Seq<char>,
    pub dst: Seq<char>,
    pub mode: Option<Seq<char>>,
}

pub open spec fn mount_view(d: SystemDir<String>) -> MountSpec {
    MountSpec {
        fstype: d.fstype@,
        dev: d.dev@,
        dst: d.dst@,
        mode: match d.mode {
            Some(m) => Some(m@),
            None => None,
        },
    }
}

pub open spec fn mounts_view(s: Seq<SystemDir<String>>) -> Seq<MountSpec> {
    s.map_values(|d: SystemDir<String>| mount_view(d))
}

pub open spec fn static_mount_view(d: SystemDir<&'static str>) -> MountSpec {
    MountSpec {
        fstype: d.fstype@,
        dev: d.dev@,
        dst: d.dst@,
        mode: match d.mode {
            Some(m) => Some(m@),
            None => None,
        },
    }
}

/// The system directories, `/proc` first.
pub open spec fn system_mounts() -> Seq<MountSpec> {
    seq![
        MountSpec { fstype: "proc"@, dev: "none"@, dst: "/proc"@, mode: None },
        MountSpec { fstype: "sysfs"@, dev: "none"@, dst: "/sys"@, mode: None },
        MountSpec { fstype: "devtmpfs"@, dev: "devtmpfs"@, dst: "/dev"@, mode: None },
        MountSpec { fstype: "tmpfs"@, dev: "tmpfs"@, dst: "/run"@, mode: None },
    ]
}

/// The system directories to mount before anything else, `/proc` first.
pub fn sys_mpt() -> (r: Vec<SystemDir<&'static str>>)
    ensures
        r@.map_values(|d: SystemDir<&'static str>| static_mount_view(d)) == system_mounts(),
{
    let r = vec![
        SystemDir::new("proc", "none", "/proc"),
        SystemDir::new("sysfs", "none", "/sys"),
        SystemDir::new("devtmpfs", "devtmpfs", "/dev"),
        SystemDir::new("tmpfs", "tmpfs", "/run"),
    ];
    proof {
        assert(r@.map_values(|d: SystemDir<&'static str>| static_mount_view(d)) =~= system_mounts());
    }
    r
}

// ---------------------------------------------------------------------------
// UUID text
// ---------------------------------------------------------------------------

pub open spec fn is_hex(c: char) -> bool {
    ('0' <= c && c <= '9') || ('a' <= c && c <= 'f') || ('A' <= c && c <= 'F')
}

/// 36 characters: hex digits in groups of 8-4-4-4-12, joined by `-`.
pub open spec fn uuid_hyphenated(s: Seq<char>) -> bool {
    s.len() == 36 && forall|i: int|
        0 <= i < 36 ==> if i == 8 || i == 13 || i == 18 || i == 23 {
            #[trigger] s[i] == '-'
        } else {
            is_hex(s[i])
        }
}

/// The texts that `uuid::Uuid::parse_str` accepts: 32 hex digits; the
/// hyphenated form; the hyphenated form in braces; or `urn:uuid:` (any ASCII
/// case) and the hyphenated form.
pub open spec fn uuid_text(s: Seq<char>) -> bool {
    ||| (s.len() == 32 && forall|i: int| 0 <= i < 32 ==> is_hex(#[trigger] s[i]))
    ||| uuid_hyphenated(s)
    ||| (s.len() == 38 && s[0] == '{' && s[37] == '}' && uuid_hyphenated(s.subrange(1, 37)))
    ||| (s.len() == 45 && text::eq_ignore_ascii_case(s.take(9), "urn:uuid:"@) && uuid_hyphenated(
        s.skip(9),
    ))
}

/// `uuid::Uuid::parse_str(s).is_ok()`. Trusted: the parser accepts exactly the
/// shapes that `uuid_text` lists (its length test, hyphen positions and hex
/// digit test, read on the bytes of an ASCII text).
#[verifier::external_body]
fn uuid_parses(s: &str) -> (r: bool)
    ensures
        r == uuid_text(s@),
{
    uuid::Uuid::parse_str(s).is_ok()
}

// ---------------------------------------------------------------------------
// Device specifications
// ---------------------------------------------------------------------------

/// `s` without its first `n` characters (empty when it is shorter).
pub open spec fn drop_prefix(s: Seq<char>, n: int) -> Seq<char> {
    if s.len() >= n {
        s.skip(n)
    } else {
        seq![]
    }
}

/// The node of a device that was found.
pub open spec fn device_path(d: Option<blk::BlkDevice>) -> Option<Seq<char>> {
    match d {
        Some(x) => match x.path {
            Some(p) => Some(p@),
            None => None,
        },
        None => None,
    }
}

/// The device node that a specification names: `uuid=UUID` and `label=LABEL`
/// (prefix in any case), a `/dev/` path as it is, a plain UUID, or else a plain label.
pub open spec fn resolve_device(spec: Seq<char>, devs: Seq<blk::BlkDevice>) -> Option<Seq<char>> {
    if text::starts_with(spec, "uuid="@) || text::starts_with(text::unicode_lowercase(spec), "uuid="@) {
        device_path(blk::first_by_uuid(devs, drop_prefix(spec, 5)))
    } else if text::starts_with(spec, "label="@) || text::starts_with(
        text::unicode_lowercase(spec),
        "label="@,
    ) {
        device_path(blk::first_by_label(devs, drop_prefix(spec, 6)))
    } else if text::starts_with(spec, "/dev/"@) {
        Some(spec)
    } else if uuid_text(spec) {
        device_path(blk::first_by_uuid(devs, spec))
    } else {
        device_path(blk::first_by_label(devs, spec))
    }
}

fn has_prefix(s: &str, p: &str) -> (r: bool)
    ensures
        r == text::starts_with(s@, p@),
{
    let v = text::chars_of(s);
    let pv = text::chars_of(p);
    proof {
        assert(v@.subrange(0, v@.len() as int) =~= v@);
    }
    text::starts_with_at(&v, 0, v.len(), &pv)
}

fn rest_after<'a>(s: &'a str, n: usize) -> (r: &'a str)
    ensures
        r@ == drop_prefix(s@, n as int),
{
    let len = s.unicode_len();
    if len >= n {
        s.substring_char(n, len)
    } else {
        proof {
            assert(""@ =~= Seq::<char>::empty()) by {
                reveal_strlit("");
            }
        }
        ""
    }
}

fn path_of<'a>(d: Option<&'a blk::BlkDevice>) -> (r: Option<&'a str>)
    ensures
        match r {
            Some(p) => device_path(match d {
                Some(x) => Some(*x),
                None => None,
            }) == Some(p@),
            None => device_path(match d {
                Some(x) => Some(*x),
                None => None,
            }) is None,
        },
{
    match d {
        Some(x) => match &x.path {
            Some(p) => Some(p.as_str()),
            None => None,
        },
        None => None,
    }
}

/// The device node that a specification names (see `resolve_device`).
pub fn resolve_device_path<'a>(device_spec: &'a str, blkid: &'a BlkInfo) -> (r: Option<&'a str>)
    ensures
        match r {
            Some(p) => resolve_device(device_spec@, blkid.devices@) == Some(p@),
            None => resolve_device(device_spec@, blkid.devices@) is None,
        },
{
    if has_prefix(device_spec, "uuid=") || has_prefix(text::to_lowercase(device_spec).as_str(), "uuid=") {
        let uuid = rest_after(device_spec, 5);
        path_of(blkid.by_uuid(uuid))
    } else if has_prefix(device_spec, "label=") || has_prefix(
        text::to_lowercase(device_spec).as_str(),
        "label=",
    ) {
        let label = rest_after(device_spec, 6);
        path_of(blkid.by_label(label))
    } else if has_prefix(device_spec, "/dev/") {
        Some(device_spec)
    } else if uuid_parses(device_spec) {
        path_of(blkid.by_uuid(device_spec))
    } else {
        path_of(blkid.by_label(device_spec))
    }
}


// ---------------------------------------------------------------------------
// Ordering mounts by device
// ---------------------------------------------------------------------------

/// `s` with `x` put after every mount whose device does not come after `x`'s.
pub open spec fn insert_by_dev(s: Seq<MountSpec>, x: MountSpec) -> Seq<MountSpec>
    decreases s.len(),
{
    if s.len() == 0 {
        seq![x]
    } else if text::seq_lt(x.dev, s[0].dev) {
        seq![x] + s
    } else {
        seq![s[0]] + insert_by_dev(s.skip(1), x)
    }
}

/// `s` sorted by device, mounts with equal devices keeping their order (a
/// stable sort, as `slice::sort_by`).
pub open spec fn sort_by_dev(s: Seq<MountSpec>) -> Seq<MountSpec>
    decreases s.len(),
{
    if s.len() == 0 {
        s
    } else {
        insert_by_dev(sort_by_dev(s.drop_last()), s.last())
    }
}

/// Devices in `s` never decrease.
pub open spec fn sorted_by_dev(s: Seq<MountSpec>) -> bool {
    forall|i: int, j: int| 0 <= i < j < s.len() ==> !text::seq_lt(s[j].dev, s[i].dev)
}

proof fn lemma_insert_at(s: Seq<MountSpec>, x: MountSpec, k: int)
    requires
        0 <= k <= s.len(),
        forall|j: int| 0 <= j < k ==> !text::seq_lt(x.dev, (#[trigger] s[j]).dev),
        k < s.len() ==> text::seq_lt(x.dev, s[k].dev),
    ensures
        insert_by_dev(s, x) == s.take(k) + seq![x] + s.skip(k),
    decreases k,
{
    if k == 0 {
        if s.len() == 0 {
            assert(s.take(0) + seq![x] + s.skip(0) =~= seq![x]);
        } else {
            assert(s.take(0) + seq![x] + s.skip(0) =~= seq![x] + s);
        }
    } else {
        let t = s.skip(1);
        assert forall|j: int| 0 <= j < k - 1 implies !text::seq_lt(x.dev, (#[trigger] t[j]).dev) by {
            assert(t[j] == s[j + 1]);
        }
        if k - 1 < t.len() {
            assert(t[k - 1] == s[k]);
        }
        lemma_insert_at(t, x, k - 1);
        assert(!text::seq_lt(x.dev, s[0].dev));
        assert(seq![s[0]] + (t.take(k - 1) + seq![x] + t.skip(k - 1)) =~= s.take(k) + seq![x]
            + s.skip(k));
    }
}

proof fn lemma_insert_by_dev(s: Seq<MountSpec>, x: MountSpec)
    requires
        sorted_by_dev(s),
    ensures
        sorted_by_dev(insert_by_dev(s, x)),
        insert_by_dev(s, x).to_multiset() == s.to_multiset().insert(x),
    decreases s.len(),
{
    broadcast use vstd::seq_lib::group_to_multiset_ensures;
    broadcast use vstd::seq_lib::lemma_multiset_commutative;

    let r = insert_by_dev(s, x);
    if s.len() == 0 {
        assert(seq![x] =~= Seq::<MountSpec>::empty().push(x));
    } else if text::seq_lt(x.dev, s[0].dev) {
        assert(seq![x] =~= Seq::<MountSpec>::empty().push(x));
        assert forall|i: int, j: int| 0 <= i < j < r.len() implies !text::seq_lt(
            r[j].dev,
            r[i].dev,
        ) by {
            if i == 0 {
                assert(r[j] == s[j - 1]);
                if text::seq_lt(s[j - 1].dev, x.dev) {
                    text::lemma_seq_lt_transitive(s[j - 1].dev, x.dev, s[0].dev);
                    if j - 1 == 0 {
                        text::lemma_seq_lt_irreflexive(s[0].dev);
                    }
                }
            } else {
                assert(r[i] == s[i - 1]);
                assert(r[j] == s[j - 1]);
            }
        }
    } else {
        let t = s.skip(1);
        assert(sorted_by_dev(t)) by {
            assert forall|i: int, j: int| 0 <= i < j < t.len() implies !text::seq_lt(
                t[j].dev,
                t[i].dev,
            ) by {
                assert(t[i] == s[i + 1]);
                assert(t[j] == s[j + 1]);
            }
        }
        lemma_insert_by_dev(t, x);
        let u = insert_by_dev(t, x);
        assert(r == seq![s[0]] + u);
        assert(s =~= seq![s[0]] + t);
        assert(seq![s[0]] =~= Seq::<MountSpec>::empty().push(s[0]));
        assert forall|i: int, j: int| 0 <= i < j < r.len() implies !text::seq_lt(
            r[j].dev,
            r[i].dev,
        ) by {
            if i == 0 {
                let y = u[j - 1];
                assert(r[j] == y);
                assert(u.contains(y));
                assert(u.to_multiset().count(y) > 0);
                if y != x {
                    assert(t.to_multiset().count(y) > 0);
                    assert(t.contains(y));
                    let m = choose|m: int| 0 <= m < t.len() && t[m] == y;
                    assert(t[m] == s[m + 1]);
                }
            } else {
                assert(r[i] == u[i - 1]);
                assert(r[j] == u[j - 1]);
            }
        }
    }
}

/// Sorting by device yields the same mounts, with devices in order.
pub proof fn lemma_sort_by_dev(s: Seq<MountSpec>)
    ensures
        sorted_by_dev(sort_by_dev(s)),
        sort_by_dev(s).to_multiset() == s.to_multiset(),
    decreases s.len(),
{
    broadcast use vstd::seq_lib::group_to_multiset_ensures;

    if s.len() > 0 {
        lemma_sort_by_dev(s.drop_last());
        lemma_insert_by_dev(sort_by_dev(s.drop_last()), s.last());
        assert(s =~= s.drop_last().push(s.last()));
    }
}

/// `v` sorted by device, stably.
fn sort_mounts(v: Vec<SystemDir<String>>) -> (r: Vec<SystemDir<String>>)
    ensures
        mounts_view(r@) == sort_by_dev(mounts_view(v@)),
{
    let ghost orig = mounts_view(v@);
    let mut src = v;
    let mut out: Vec<SystemDir<String>> = Vec::new();
    let ghost mut i: int = 0;
    proof {
        assert(orig.skip(0) =~= orig);
        assert(orig.take(0) =~= Seq::<MountSpec>::empty());
    }
    while src.len() > 0
        invariant
            0 <= i <= orig.len(),
            mounts_view(src@) == orig.skip(i),
            mounts_view(out@) == sort_by_dev(orig.take(i)),
        decreases src@.len(),
    {
        let ghost before = mounts_view(src@);
        let x = src.remove(0);
        proof {
            assert(before[0] == mount_view(x));
            assert(mounts_view(src@) =~= before.skip(1));
            assert(before.skip(1) =~= orig.skip(i + 1));
            assert(orig.take(i + 1).drop_last() =~= orig.take(i));
            assert(orig.take(i + 1).last() == mount_view(x));
        }
        let ghost sv = mounts_view(out@);
        let mut k: usize = 0;
        while k < out.len() && !text::str_lt(x.dev.as_str(), out[k].dev.as_str())
            invariant
                k <= out@.len(),
                sv == mounts_view(out@),
                forall|j: int| 0 <= j < k ==> !text::seq_lt(x.dev@, (#[trigger] sv[j]).dev),
            decreases out@.len() - k,
        {
            k = k + 1;
        }
        proof {
            lemma_insert_at(sv, mount_view(x), k as int);
        }
        out.insert(k, x);
        proof {
            i = i + 1;
            assert(mounts_view(out@) =~= sv.take(k as int) + seq![before[0]] + sv.skip(k as int));
        }
    }
    proof {
        assert(orig.skip(i).len() == 0);
        assert(orig.take(i) =~= orig);
    }
    out
}

// ---------------------------------------------------------------------------
// The mount plan
// ---------------------------------------------------------------------------

/// Why no mount plan could be made.
#[derive(Debug, PartialEq, Eq)]
pub enum DeviceError {
    /// The `root=` device of the kernel command line was not found.
    RootNotFound,
    /// A configured disk's device was not found.
    DeviceNotFound(String),
    /// The `disks:` section could not be read.
    Config(String),
}

/// `s` without trailing `c` characters (`str::trim_end_matches` with a character).
pub open spec fn trim_end_char(s: Seq<char>, c: char) -> Seq<char>
    decreases s.len(),
{
    if s.len() > 0 && s.last() == c {
        trim_end_char(s.drop_last(), c)
    } else {
        s
    }
}

/// The root filesystem type and the mounts of the configured disks, in order.
pub open spec fn disks_plan(
    sysroot: Seq<char>,
    devs: Seq<blk::BlkDevice>,
    disks: Seq<config::DiskConfig>,
) -> Result<(Seq<char>, Seq<MountSpec>), DeviceError>
    decreases disks.len(),
{
    if disks.len() == 0 {
        Ok((seq![], seq![]))
    } else {
        match disks_plan(sysroot, devs, disks.drop_last()) {
            Err(e) => Err(e),
            Ok(acc) => {
                let d = disks.last();
                let mpt = trim_end_char(d.mountpoint@, '/');
                let rf = if mpt.len() == 0 && acc.0.len() == 0 {
                    d.fstype@
                } else {
                    acc.0
                };
                match resolve_device(d.device@, devs) {
                    Some(p) => Ok(
                        (
                            rf,
                            acc.1.push(
                                MountSpec {
                                    fstype: d.fstype@,
                                    dev: p,
                                    dst: sysroot + mpt,
                                    mode: Some(d.mode@),
                                },
                            ),
                        ),
                    ),
                    None => Err(DeviceError::DeviceNotFound(d.device)),
                }
            },
        }
    }
}

/// The mounts of `s` made at the sysroot `sr` itself (`at`), or the others
/// (`!at`), in order.
pub open spec fn mounts_where(s: Seq<MountSpec>, sr: Seq<char>, at: bool) -> Seq<MountSpec>
    decreases s.len(),
{
    if s.len() == 0 {
        seq![]
    } else if (s.last().dst == sr) == at {
        mounts_where(s.drop_last(), sr, at).push(s.last())
    } else {
        mounts_where(s.drop_last(), sr, at)
    }
}

/// `s` with the mounts at the sysroot `sr` (the root filesystem) first, each
/// group keeping its order.
pub open spec fn root_first(s: Seq<MountSpec>, sr: Seq<char>) -> Seq<MountSpec> {
    mounts_where(s, sr, true) + mounts_where(s, sr, false)
}

proof fn lemma_mounts_where(s: Seq<MountSpec>, sr: Seq<char>, at: bool)
    ensures
        forall|k: int|
            0 <= k < mounts_where(s, sr, at).len() ==> ((#[trigger] mounts_where(s, sr, at)[k]).dst
                == sr) == at,
        forall|k: int|
            0 <= k < mounts_where(s, sr, at).len() ==> exists|i: int|
                0 <= i < s.len() && s[i] == #[trigger] mounts_where(s, sr, at)[k],
        sorted_by_dev(s) ==> sorted_by_dev(mounts_where(s, sr, at)),
    decreases s.len(),
{
    if s.len() > 0 {
        let init = s.drop_last();
        lemma_mounts_where(init, sr, at);
        let w0 = mounts_where(init, sr, at);
        let w = mounts_where(s, sr, at);
        assert forall|k: int| 0 <= k < w.len() implies exists|i: int|
            0 <= i < s.len() && s[i] == #[trigger] w[k] by {
            if k < w0.len() {
                assert(w[k] == w0[k]);
                let i = choose|i: int| 0 <= i < init.len() && init[i] == w0[k];
                assert(s[i] == init[i]);
            } else {
                assert(w[k] == s[s.len() - 1]);
            }
        }
        assert forall|k: int| 0 <= k < w.len() implies ((#[trigger] w[k]).dst == sr) == at by {
            if k < w0.len() {
                assert(w[k] == w0[k]);
            }
        }
        if sorted_by_dev(s) {
            assert(sorted_by_dev(init)) by {
                assert forall|i: int, j: int| 0 <= i < j < init.len() implies !text::seq_lt(
                    init[j].dev,
                    init[i].dev,
                ) by {
                    assert(init[i] == s[i]);
                    assert(init[j] == s[j]);
                }
            }
            assert forall|i: int, j: int| 0 <= i < j < w.len() implies !text::seq_lt(
                w[j].dev,
                w[i].dev,
            ) by {
                assert(w[i] == w0[i]);
                if j < w0.len() {
                    assert(w[j] == w0[j]);
                } else {
                    let m = choose|m: int| 0 <= m < init.len() && init[m] == w0[i];
                    assert(s[m] == init[m]);
                    assert(w[j] == s[s.len() - 1]);
                }
            }
        }
    }
}

/// `v` with the mounts at the sysroot `sr` first (see `root_first`).
fn root_first_mounts(v: Vec<SystemDir<String>>, sr: &String) -> (r: Vec<SystemDir<String>>)
    ensures
        mounts_view(r@) == root_first(mounts_view(v@), sr@),
{
    let ghost orig = mounts_view(v@);
    let mut src = v;
    let mut roots: Vec<SystemDir<String>> = Vec::new();
    let mut others: Vec<SystemDir<String>> = Vec::new();
    let ghost mut i: int = 0;
    proof {
        assert(orig.skip(0) =~= orig);
        assert(orig.take(0) =~= Seq::<MountSpec>::empty());
        assert(mounts_view(roots@) =~= Seq::<MountSpec>::empty());
        assert(mounts_view(others@) =~= Seq::<MountSpec>::empty());
    }
    while src.len() > 0
        invariant
            0 <= i <= orig.len(),
            mounts_view(src@) == orig.skip(i),
            mounts_view(roots@) == mounts_where(orig.take(i), sr@, true),
            mounts_view(others@) == mounts_where(orig.take(i), sr@, false),
        decreases src@.len(),
    {
        let ghost before = mounts_view(src@);
        let x = src.remove(0);
        proof {
            assert(before[0] == mount_view(x));
            assert(mounts_view(src@) =~= before.skip(1));
            assert(before.skip(1) =~= orig.skip(i + 1));
            assert(orig.take(i + 1).drop_last() =~= orig.take(i));
            assert(orig.take(i + 1).last() == mount_view(x));
        }
        let ghost rv = mounts_view(roots@);
        let ghost ov = mounts_view(others@);
        if x.dst == *sr {
            roots.push(x);
            proof {
                assert(mounts_view(roots@) =~= rv.push(mount_view(x)));
            }
        } else {
            others.push(x);
            proof {
                assert(mounts_view(others@) =~= ov.push(mount_view(x)));
            }
        }
        proof {
            i = i + 1;
        }
    }
    proof {
        assert(orig.skip(i).len() == 0);
        assert(orig.take(i) =~= orig);
    }
    let ghost rv = mounts_view(roots@);
    let ghost ov = mounts_view(others@);
    roots.append(&mut others);
    proof {
        assert(mounts_view(roots@) =~= rv + ov);
    }
    roots
}

/// The root filesystem type and the mounts to make: the `root=` device of the
/// kernel command line (type `rootfstype=`, default `ext4`) at the sysroot when
/// there is one, otherwise every configured disk under the sysroot; sorted by
/// device, with the root filesystem (the mount at the sysroot itself) first.
pub open spec fn blk_plan(
    cfg: MhConfig,
    devs: Seq<blk::BlkDevice>,
    params: Map<Seq<char>, Seq<char>>,
) -> Result<(Seq<char>, Seq<MountSpec>), DeviceError> {
    let unsorted = if params.contains_key("root"@) {
        let fs = if params.contains_key("rootfstype"@) {
            params["rootfstype"@]
        } else {
            "ext4"@
        };
        match resolve_device(params["root"@], devs) {
            Some(p) => Ok(
                (fs, seq![MountSpec { fstype: fs, dev: p, dst: cfg.sysroot@, mode: None }]),
            ),
            None => Err(DeviceError::RootNotFound),
        }
    } else {
        match cfg.disks {
            Ok(d) => disks_plan(cfg.sysroot@, devs, d@),
            Err(e) => Err(DeviceError::Config(e)),
        }
    };
    match unsorted {
        Ok(x) => Ok((x.0, root_first(sort_by_dev(x.1), cfg.sysroot@))),
        Err(e) => Err(e),
    }
}

proof fn lemma_disks_plan_error_stays(
    sysroot: Seq<char>,
    devs: Seq<blk::BlkDevice>,
    disks: Seq<config::DiskConfig>,
    i: int,
    j: int,
)
    requires
        0 <= i <= j <= disks.len(),
        disks_plan(sysroot, devs, disks.take(i)) is Err,
    ensures
        disks_plan(sysroot, devs, disks.take(j)) == disks_plan(sysroot, devs, disks.take(i)),
    decreases j - i,
{
    if i < j {
        lemma_disks_plan_error_stays(sysroot, devs, disks, i, j - 1);
        assert(disks.take(j).drop_last() =~= disks.take(j - 1));
    }
}

fn trim_end_slashes(s: &str) -> (r: String)
    ensures
        r@ == trim_end_char(s@, '/'),
{
    let v = text::chars_of(s);
    let mut j = v.len();
    proof {
        assert(v@.subrange(0, j as int) =~= v@);
    }
    while j > 0 && v[j - 1] == '/'
        invariant
            j <= v@.len(),
            v@ == s@,
            trim_end_char(s@, '/') == trim_end_char(v@.subrange(0, j as int), '/'),
        decreases j,
    {
        proof {
            assert(v@.subrange(0, j as int).drop_last() =~= v@.subrange(0, j - 1));
        }
        j = j - 1;
    }
    text::string_from_range(&v, 0, j)
}

fn clone_string(s: &String) -> (r: String)
    ensures
        r == *s,
{
    s.clone()
}

/// The root filesystem type and the mounts to make (see `blk_plan`), from the
/// boot configuration, the probed devices and the kernel command line.
pub fn get_blk_devices(cfg: &MhConfig, blkid: &BlkInfo, cmdline: &CmdLine) -> (r: Result<
    (String, Vec<SystemDir<String>>),
    DeviceError,
>)
    ensures
        match r {
            Ok(x) => blk_plan(*cfg, blkid.devices@, cmdline@) == Ok::<
                (Seq<char>, Seq<MountSpec>),
                DeviceError,
            >((x.0@, mounts_view(x.1@))),
            Err(e) => blk_plan(*cfg, blkid.devices@, cmdline@) == Err::<
                (Seq<char>, Seq<MountSpec>),
                DeviceError,
            >(e),
        },
{
    let mut blk_mpt: Vec<SystemDir<String>> = Vec::new();
    let root_fstype: String;
    match cmdline.get_root_device() {
        Some(root_device) => {
            let root_fs = match cmdline.get_root_fstype() {
                Some(f) => f,
                None => "ext4",
            };
            root_fstype = String::from_str(root_fs);
            match resolve_device_path(root_device, blkid) {
                Some(devpath) => {
                    let dir = SystemDir::new(
                        String::from_str(root_fs),
                        String::from_str(devpath),
                        clone_string(&cfg.sysroot),
                    );
                    blk_mpt.push(dir);
                    proof {
                        assert(mounts_view(blk_mpt@) =~= seq![
                            MountSpec { fstype: root_fs@, dev: devpath@, dst: cfg.sysroot@, mode: None },
                        ]);
                    }
                },
                None => {
                    return Err(DeviceError::RootNotFound);
                },
            }
        },
        None => {
            let disks = match &cfg.disks {
                Ok(d) => d,
                Err(e) => {
                    return Err(DeviceError::Config(clone_string(e)));
                },
            };
            let mut rf = String::new();
            let mut i: usize = 0;
            proof {
                assert(disks@.take(0) =~= Seq::<config::DiskConfig>::empty());
                assert(mounts_view(blk_mpt@) =~= Seq::<MountSpec>::empty());
            }
            while i < disks.len()
                invariant
                    i <= disks@.len(),
                    cfg.disks == Ok::<Vec<config::DiskConfig>, String>(*disks),
                    !cmdline@.contains_key("root"@),
                    disks_plan(cfg.sysroot@, blkid.devices@, disks@.take(i as int)) == Ok::<
                        (Seq<char>, Seq<MountSpec>),
                        DeviceError,
                    >((rf@, mounts_view(blk_mpt@))),
                decreases disks@.len() - i,
            {
                let dev = &disks[i];
                proof {
                    assert(disks@.take(i + 1).drop_last() =~= disks@.take(i as int));
                    assert(disks@.take(i + 1).last() == *dev);
                }
                let mpt = trim_end_slashes(dev.mountpoint.as_str());
                if mpt.unicode_len() == 0 && rf.unicode_len() == 0 {
                    rf = clone_string(&dev.fstype);
                }
                match resolve_device_path(dev.device.as_str(), blkid) {
                    Some(devpath) => {
                        let mut dst = clone_string(&cfg.sysroot);
                        dst.append(mpt.as_str());
                        let dir = SystemDir::new_with_mode(
                            clone_string(&dev.fstype),
                            String::from_str(devpath),
                            dst,
                            clone_string(&dev.mode),
                        );
                        let ghost before = mounts_view(blk_mpt@);
                        blk_mpt.push(dir);
                        proof {
                            assert(mounts_view(blk_mpt@) =~= before.push(mount_view(dir)));
                        }
                    },
                    None => {
                        proof {
                            let t = disks@.take(i + 1);
                            assert(t.drop_last() =~= disks@.take(i as int));
                            assert(disks_plan(cfg.sysroot@, blkid.devices@, t.drop_last()) is Ok);
                            assert(resolve_device(t.last().device@, blkid.devices@) is None);
                            assert(disks_plan(cfg.sysroot@, blkid.devices@, t) == Err::<
                                (Seq<char>, Seq<MountSpec>),
                                DeviceError,
                            >(DeviceError::DeviceNotFound(dev.device)));
                            lemma_disks_plan_error_stays(
                                cfg.sysroot@,
                                blkid.devices@,
                                disks@,
                                i + 1,
                                disks@.len() as int,
                            );
                            assert(disks@.take(disks@.len() as int) =~= disks@);
                        }
                        return Err(DeviceError::DeviceNotFound(clone_string(&dev.device)));
                    },
                }
                i = i + 1;
            }
            proof {
                assert(disks@.take(disks@.len() as int) =~= disks@);
            }
            root_fstype = rf;
        },
    }
    let sorted = sort_mounts(blk_mpt);
    let ordered = root_first_mounts(sorted, &cfg.sysroot);
    Ok((root_fstype, ordered))
}


/// The root filesystem comes first: whatever mount plan is made lists the
/// mounts at the sysroot itself before all others, and within each of the two
/// groups the devices are in order.
pub proof fn lemma_blk_plan_root_first(
    cfg: MhConfig,
    devs: Seq<blk::BlkDevice>,
    params: Map<Seq<char>, Seq<char>>,
)
    ensures
        blk_plan(cfg, devs, params) matches Ok(x) ==> {
            &&& forall|i: int, j: int|
                0 <= i < j < x.1.len() && x.1[j].dst == cfg.sysroot@ ==> x.1[i].dst == cfg.sysroot@
            &&& forall|i: int, j: int|
                0 <= i < j < x.1.len() && (x.1[i].dst == cfg.sysroot@) == (x.1[j].dst
                    == cfg.sysroot@) ==> !text::seq_lt(x.1[j].dev, x.1[i].dev)
        },
{
    let sr = cfg.sysroot@;
    let unsorted = if params.contains_key("root"@) {
        let fs = if params.contains_key("rootfstype"@) {
            params["rootfstype"@]
        } else {
            "ext4"@
        };
        match resolve_device(params["root"@], devs) {
            Some(p) => Ok::<(Seq<char>, Seq<MountSpec>), DeviceError>(
                (fs, seq![MountSpec { fstype: fs, dev: p, dst: sr, mode: None }]),
            ),
            None => Err(DeviceError::RootNotFound),
        }
    } else {
        match cfg.disks {
            Ok(d) => disks_plan(sr, devs, d@),
            Err(e) => Err(DeviceError::Config(e)),
        }
    };
    if unsorted is Ok {
        let t = sort_by_dev(unsorted->Ok_0.1);
        lemma_sort_by_dev(unsorted->Ok_0.1);
        lemma_mounts_where(t, sr, true);
        lemma_mounts_where(t, sr, false);
        let a = mounts_where(t, sr, true);
        let b = mounts_where(t, sr, false);
        let r = root_first(t, sr);
        assert forall|i: int, j: int| 0 <= i < j < r.len() && r[j].dst == sr implies r[i].dst
            == sr by {
            if j >= a.len() {
                assert(r[j] == b[j - a.len()]);
            }
            assert(r[i] == a[i]);
        }
        assert forall|i: int, j: int|
            0 <= i < j < r.len() && (r[i].dst == sr) == (r[j].dst == sr) implies !text::seq_lt(
            r[j].dev,
            r[i].dev,
        ) by {
            if j < a.len() {
                assert(r[i] == a[i]);
                assert(r[j] == a[j]);
            } else if i >= a.len() {
                assert(r[i] == b[i - a.len()]);
                assert(r[j] == b[j - a.len()]);
            } else {
                assert(r[i] == a[i]);
                assert(r[j] == b[j - a.len()]);
            }
        }
    }
}


/// The mounts of `s` on the device `d`, in order.
pub open spec fn mounts_on(s: Seq<MountSpec>, d: Seq<char>) -> Seq<MountSpec>
    decreases s.len(),
{
    if s.len() == 0 {
        seq![]
    } else if s[0].dev == d {
        seq![s[0]] + mounts_on(s.skip(1), d)
    } else {
        mounts_on(s.skip(1), d)
    }
}

/// `x` alone when it is on the device `d`.
pub open spec fn mount_if_on(x: MountSpec, d: Seq<char>) -> Seq<MountSpec> {
    if x.dev == d {
        seq![x]
    } else {
        seq![]
    }
}

proof fn lemma_mounts_on_concat(a: Seq<MountSpec>, b: Seq<MountSpec>, d: Seq<char>)
    ensures
        mounts_on(a + b, d) == mounts_on(a, d) + mounts_on(b, d),
    decreases a.len(),
{
    if a.len() == 0 {
        assert(a + b =~= b);
        assert(mounts_on(a, d) + mounts_on(b, d) =~= mounts_on(b, d));
    } else {
        assert((a + b).skip(1) =~= a.skip(1) + b);
        lemma_mounts_on_concat(a.skip(1), b, d);
        assert((a + b)[0] == a[0]);
        if a[0].dev == d {
            assert(seq![a[0]] + (mounts_on(a.skip(1), d) + mounts_on(b, d)) =~= seq![a[0]]
                + mounts_on(a.skip(1), d) + mounts_on(b, d));
        }
    }
}

proof fn lemma_mounts_on_single(x: MountSpec, d: Seq<char>)
    ensures
        mounts_on(seq![x], d) == mount_if_on(x, d),
{
    let e = Seq::<MountSpec>::empty();
    assert(seq![x].skip(1) =~= e);
    assert(mounts_on(e, d) == e);
    assert(seq![x][0] == x);
    assert(seq![x] + e =~= seq![x]);
}

proof fn lemma_mounts_on_none(s: Seq<MountSpec>, d: Seq<char>)
    requires
        forall|j: int| 0 <= j < s.len() ==> (#[trigger] s[j]).dev != d,
    ensures
        mounts_on(s, d) == Seq::<MountSpec>::empty(),
    decreases s.len(),
{
    if s.len() > 0 {
        assert forall|j: int| 0 <= j < s.skip(1).len() implies (#[trigger] s.skip(1)[j]).dev != d by {
            assert(s.skip(1)[j] == s[j + 1]);
        }
        lemma_mounts_on_none(s.skip(1), d);
    }
}

proof fn lemma_mounts_on_insert(t: Seq<MountSpec>, x: MountSpec, d: Seq<char>)
    requires
        sorted_by_dev(t),
    ensures
        mounts_on(insert_by_dev(t, x), d) == mounts_on(t, d) + mount_if_on(x, d),
    decreases t.len(),
{
    if t.len() == 0 {
        lemma_mounts_on_single(x, d);
        assert(mounts_on(t, d) + mount_if_on(x, d) =~= mount_if_on(x, d));
    } else if text::seq_lt(x.dev, t[0].dev) {
        lemma_mounts_on_concat(seq![x], t, d);
        lemma_mounts_on_single(x, d);
        if x.dev == d {
            assert forall|j: int| 0 <= j < t.len() implies (#[trigger] t[j]).dev != d by {
                if j == 0 {
                    text::lemma_seq_lt_irreflexive(x.dev);
                } else if t[j].dev == d {
                    assert(!text::seq_lt(t[j].dev, t[0].dev));
                }
            }
            lemma_mounts_on_none(t, d);
            assert(mount_if_on(x, d) + Seq::<MountSpec>::empty() =~= Seq::<MountSpec>::empty()
                + mount_if_on(x, d));
        } else {
            assert(Seq::<MountSpec>::empty() + mounts_on(t, d) =~= mounts_on(t, d)
                + Seq::<MountSpec>::empty());
        }
    } else {
        let rest = t.skip(1);
        assert(sorted_by_dev(rest)) by {
            assert forall|i: int, j: int| 0 <= i < j < rest.len() implies !text::seq_lt(
                rest[j].dev,
                rest[i].dev,
            ) by {
                assert(rest[i] == t[i + 1]);
                assert(rest[j] == t[j + 1]);
            }
        }
        lemma_mounts_on_insert(rest, x, d);
        let u = insert_by_dev(rest, x);
        assert((seq![t[0]] + u)[0] == t[0]);
        assert((seq![t[0]] + u).skip(1) =~= u);
        if t[0].dev == d {
            assert(seq![t[0]] + (mounts_on(rest, d) + mount_if_on(x, d)) =~= seq![t[0]] + mounts_on(
                rest,
                d,
            ) + mount_if_on(x, d));
        }
    }
}

/// Sorting by device is stable: the mounts on any one device keep their order.
pub proof fn lemma_sort_by_dev_stable(s: Seq<MountSpec>, d: Seq<char>)
    ensures
        mounts_on(sort_by_dev(s), d) == mounts_on(s, d),
    decreases s.len(),
{
    if s.len() > 0 {
        let init = s.drop_last();
        lemma_sort_by_dev_stable(init, d);
        lemma_sort_by_dev(init);
        lemma_mounts_on_insert(sort_by_dev(init), s.last(), d);
        assert(s =~= init + seq![s.last()]);
        lemma_mounts_on_concat(init, seq![s.last()], d);
        lemma_mounts_on_single(s.last(), d);
    }
}

/// Every mount of `s` is made under `sr`.
pub open spec fn all_under(s: Seq<MountSpec>, sr: Seq<char>) -> bool {
    forall|i: int| 0 <= i < s.len() ==> text::starts_with((#[trigger] s[i]).dst, sr)
}

proof fn lemma_disks_plan_under(
    sysroot: Seq<char>,
    devs: Seq<blk::BlkDevice>,
    disks: Seq<config::DiskConfig>,
)
    ensures
        disks_plan(sysroot, devs, disks) matches Ok(acc) ==> all_under(acc.1, sysroot),
    decreases disks.len(),
{
    if disks.len() > 0 {
        lemma_disks_plan_under(sysroot, devs, disks.drop_last());
        let mpt = trim_end_char(disks.last().mountpoint@, '/');
        assert((sysroot + mpt).take(sysroot.len() as int) =~= sysroot);
    }
}

proof fn lemma_root_first_keeps_under(s: Seq<MountSpec>, sr: Seq<char>, sr2: Seq<char>)
    requires
        all_under(s, sr),
    ensures
        all_under(root_first(s, sr2), sr),
{
    lemma_mounts_where(s, sr2, true);
    lemma_mounts_where(s, sr2, false);
    let a = mounts_where(s, sr2, true);
    let b = mounts_where(s, sr2, false);
    let r = root_first(s, sr2);
    assert forall|i: int| 0 <= i < r.len() implies text::starts_with((#[trigger] r[i]).dst, sr) by {
        if i < a.len() {
            assert(r[i] == a[i]);
            let j = choose|j: int| 0 <= j < s.len() && s[j] == a[i];
            assert(text::starts_with(s[j].dst, sr));
        } else {
            assert(r[i] == b[i - a.len()]);
            let j = choose|j: int| 0 <= j < s.len() && s[j] == b[i - a.len()];
            assert(text::starts_with(s[j].dst, sr));
        }
    }
}

proof fn lemma_sort_keeps_under(s: Seq<MountSpec>, sr: Seq<char>)
    requires
        all_under(s, sr),
    ensures
        all_under(sort_by_dev(s), sr),
        all_under(root_first(sort_by_dev(s), sr), sr),
{
    broadcast use vstd::seq_lib::group_to_multiset_ensures;

    lemma_sort_by_dev(s);
    let t = sort_by_dev(s);
    assert forall|i: int| 0 <= i < t.len() implies text::starts_with((#[trigger] t[i]).dst, sr) by {
        assert(t.contains(t[i]));
        assert(t.to_multiset().count(t[i]) > 0);
        assert(s.to_multiset().count(t[i]) > 0);
        assert(s.contains(t[i]));
        let j = choose|j: int| 0 <= j < s.len() && s[j] == t[i];
        assert(text::starts_with(s[j].dst, sr));
    }
    lemma_root_first_keeps_under(t, sr, sr);
}

/// Every mount of a plan is made under the sysroot: the root filesystem at the
/// sysroot itself, the other disks below it.
pub proof fn lemma_blk_plan_under_sysroot(
    cfg: MhConfig,
    devs: Seq<blk::BlkDevice>,
    params: Map<Seq<char>, Seq<char>>,
)
    ensures
        blk_plan(cfg, devs, params) matches Ok(x) ==> all_under(x.1, cfg.sysroot@),
{
    let sr = cfg.sysroot@;
    if params.contains_key("root"@) {
        let fs = if params.contains_key("rootfstype"@) {
            params["rootfstype"@]
        } else {
            "ext4"@
        };
        match resolve_device(params["root"@], devs) {
            Some(p) => {
                let one = seq![MountSpec { fstype: fs, dev: p, dst: sr, mode: None }];
                assert(sr.take(sr.len() as int) =~= sr);
                assert(all_under(one, sr));
                lemma_sort_keeps_under(one, sr);
            },
            None => {},
        }
    } else {
        match cfg.disks {
            Ok(d) => {
                lemma_disks_plan_under(sr, devs, d@);
                match disks_plan(sr, devs, d@) {
                    Ok(acc) => lemma_sort_keeps_under(acc.1, sr),
                    Err(_) => {},
                }
            },
            Err(_) => {},
        }
    }
}

// ---------------------------------------------------------------------------
// Mounting one filesystem
// ---------------------------------------------------------------------------

/// A filesystem with mode `ro` is mounted read-only.
pub fn mounts_read_only(mode: Option<&str>) -> (r: bool)
    ensures
        r == (mode matches Some(m) && m@ == "ro"@),
{
    match mode {
        Some(m) => {
            let a = String::from_str(m);
            let b = String::from_str("ro");
            a == b
        },
        None => false,
    }
}

/// Whether every filesystem was mounted, given the outcome of each mount in
/// turn (all are attempted, whatever came before).
pub fn all_mounted(outcomes: &[bool]) -> (r: bool)
    ensures
        r <==> forall|i: int| 0 <= i < outcomes@.len() ==> outcomes@[i],
{
    let mut i: usize = 0;
    while i < outcomes.len()
        invariant
            i <= outcomes@.len(),
            forall|j: int| 0 <= j < i ==> outcomes@[j],
        decreases outcomes@.len() - i,
    {
        if !outcomes[i] {
            return false;
        }
        i = i + 1;
    }
    true
}

/// What happened while mounting one filesystem.
#[derive(Debug, PartialEq, Eq)]
pub enum MountEvent {
    /// The mount point could not be created.
    DirFailed,
    /// The first mount succeeded.
    Mounted,
    /// The first mount failed.
    MountFailed,
    /// `e2fsck` ran and exited with this code.
    FsckExited(i32),
    /// `e2fsck` could not be run (or was killed by a signal).
    FsckFailed,
    /// The mount after `e2fsck` succeeded.
    RetryMounted,
    /// The mount after `e2fsck` failed.
    RetryFailed,
}

/// What to do next while mounting one filesystem.
#[derive(Debug, PartialEq, Eq)]
pub enum MountAction {
    /// Check the device with `e2fsck -y -f`.
    RunFsck,
    /// Mount again.
    RetryMount,
    /// Stop: mounted (`true`) or not.
    Done(bool),
}

/// The next action after `event` for a filesystem of type `fstype`: a failed
/// mount of an `ext*` filesystem is checked with `e2fsck`, and mounted again when
/// it exits with 0 (clean) or 1 (corrected); every other failure ends the
/// attempt unmounted.
pub open spec fn mount_next(fstype: Seq<char>, event: MountEvent) -> MountAction {
    match event {
        MountEvent::DirFailed => MountAction::Done(false),
        MountEvent::Mounted => MountAction::Done(true),
        MountEvent::MountFailed => if text::starts_with(fstype, "ext"@) {
            MountAction::RunFsck
        } else {
            MountAction::Done(false)
        },
        MountEvent::FsckExited(c) => if c == 0 || c == 1 {
            MountAction::RetryMount
        } else {
            MountAction::Done(false)
        },
        MountEvent::FsckFailed => MountAction::Done(false),
        MountEvent::RetryMounted => MountAction::Done(true),
        MountEvent::RetryFailed => MountAction::Done(false),
    }
}

/// The course of mounting one filesystem: a first mount that fails is followed
/// by `e2fsck` for every `ext*` type (whatever follows `ext`) and by giving up
/// for every other type; `e2fsck` exiting with 0 or 1 is followed by a second
/// mount, any other code by giving up; a filesystem counts as mounted exactly
/// after a first or second mount that succeeded.
pub proof fn lemma_mount_course(fstype: Seq<char>, code: i32, event: MountEvent)
    ensures
        fstype.len() >= 3 && fstype.take(3) == "ext"@ ==> mount_next(fstype, MountEvent::MountFailed)
            == MountAction::RunFsck,
        !(fstype.len() >= 3 && fstype.take(3) == "ext"@) ==> mount_next(fstype, MountEvent::MountFailed)
            == MountAction::Done(false),
        mount_next(fstype, MountEvent::FsckExited(code)) == MountAction::RetryMount <==> 0 <= code <= 1,
        mount_next(fstype, MountEvent::FsckExited(code)) != MountAction::RetryMount ==> mount_next(
            fstype,
            MountEvent::FsckExited(code),
        ) == MountAction::Done(false),
        mount_next(fstype, event) == MountAction::Done(true) <==> (event == MountEvent::Mounted || event
            == MountEvent::RetryMounted),
{
    reveal_strlit("ext");
}

/// The next action while mounting a filesystem of type `fstype` (see `mount_next`).
pub fn mount_step(fstype: &str, event: MountEvent) -> (r: MountAction)
    ensures
        r == mount_next(fstype@, event),
        event == MountEvent::MountFailed ==> (r == MountAction::RunFsck <==> fstype@.len() >= 3 && fstype@.take(3)
            == "ext"@),
{
    proof {
        reveal_strlit("ext");
    }
    match event {
        MountEvent::DirFailed => MountAction::Done(false),
        MountEvent::Mounted => MountAction::Done(true),
        MountEvent::MountFailed => {
            if has_prefix(fstype, "ext") {
                MountAction::RunFsck
            } else {
                MountAction::Done(false)
            }
        },
        MountEvent::FsckExited(c) => {
            if c == 0 || c == 1 {
                MountAction::RetryMount
            } else {
                MountAction::Done(false)
            }
        },
        MountEvent::FsckFailed => MountAction::Done(false),
        MountEvent::RetryMounted => MountAction::Done(true),
        MountEvent::RetryFailed => MountAction::Done(false),
    }
}

/// A filesystem counts as mounted only when its first mount, or the mount after
/// a successful `e2fsck`, succeeded; a filesystem that is not `ext*` is never
/// checked.
pub proof fn lemma_mounted_only_after_success(fstype: Seq<char>, event: MountEvent)
    ensures
        (mount_next(fstype, event) == MountAction::Done(true)) == (event == MountEvent::Mounted
            || event == MountEvent::RetryMounted),
        !text::starts_with(fstype, "ext"@) ==> mount_next(fstype, event) != MountAction::RunFsck,
{
}

// ---------------------------------------------------------------------------
// The init program
// ---------------------------------------------------------------------------

/// A file mode allows someone to execute the file.
pub open spec fn mode_executable(mode: u32) -> bool {
    mode & 0o111 != 0
}

/// Whether a file with this mode may serve as the init program.
pub fn is_executable(mode: u32) -> (r: bool)
    ensures
        r == mode_executable(mode),
{
    mode & 0o111 != 0
}

/// What was found at the init program's path in the mounted root.
#[derive(Debug, PartialEq, Eq)]
pub enum InitFile {
    /// Nothing: neither a file nor a link.
    Missing,
    /// A file that is not a link, with its mode (none when it cannot be read).
    File(Option<u32>),
    /// A link whose target cannot be read.
    UnreadableLink,
    /// A link to an absolute path: whether that path exists under the sysroot,
    /// and the mode of what it names there (none when it cannot be read).
    AbsoluteLink(bool, Option<u32>),
    /// A link to a relative path: whether it resolves, and the mode of what it
    /// resolves to (none when it cannot be read).
    RelativeLink(bool, Option<u32>),
}

/// Whether the init program can be started after the root switch.
#[derive(Debug, PartialEq, Eq)]
pub enum InitCheck {
    /// Nothing speaks against it (a relative link that does not resolve yet is
    /// checked only after the switch).
    Usable,
    /// There is no init program.
    NotFound,
    /// The init program is not executable.
    NotExecutable,
    /// An absolute link points to nothing under the sysroot.
    TargetNotFound,
    /// An absolute link points to a file that is not executable.
    TargetNotExecutable,
}

/// The verdict on what was found at the init program's path: it must exist,
/// and what it is or what it links to must be executable where its mode can
/// be read.
pub open spec fn init_check(f: InitFile) -> InitCheck {
    match f {
        InitFile::Missing => InitCheck::NotFound,
        InitFile::File(Some(m)) => if mode_executable(m) {
            InitCheck::Usable
        } else {
            InitCheck::NotExecutable
        },
        InitFile::File(None) => InitCheck::Usable,
        InitFile::UnreadableLink => InitCheck::Usable,
        InitFile::AbsoluteLink(false, _) => InitCheck::TargetNotFound,
        InitFile::AbsoluteLink(true, Some(m)) => if mode_executable(m) {
            InitCheck::Usable
        } else {
            InitCheck::TargetNotExecutable
        },
        InitFile::AbsoluteLink(true, None) => InitCheck::Usable,
        InitFile::RelativeLink(false, _) => InitCheck::Usable,
        InitFile::RelativeLink(true, Some(m)) => if mode_executable(m) {
            InitCheck::Usable
        } else {
            InitCheck::NotExecutable
        },
        InitFile::RelativeLink(true, None) => InitCheck::Usable,
    }
}

/// The verdict on the init program (see `init_check`).
pub fn check_init(f: InitFile) -> (r: InitCheck)
    ensures
        r == init_check(f),
{
    match f {
        InitFile::Missing => InitCheck::NotFound,
        InitFile::File(Some(m)) => if is_executable(m) {
            InitCheck::Usable
        } else {
            InitCheck::NotExecutable
        },
        InitFile::File(None) => InitCheck::Usable,
        InitFile::UnreadableLink => InitCheck::Usable,
        InitFile::AbsoluteLink(false, _) => InitCheck::TargetNotFound,
        InitFile::AbsoluteLink(true, Some(m)) => if is_executable(m) {
            InitCheck::Usable
        } else {
            InitCheck::TargetNotExecutable
        },
        InitFile::AbsoluteLink(true, None) => InitCheck::Usable,
        InitFile::RelativeLink(false, _) => InitCheck::Usable,
        InitFile::RelativeLink(true, Some(m)) => if is_executable(m) {
            InitCheck::Usable
        } else {
            InitCheck::NotExecutable
        },
        InitFile::RelativeLink(true, None) => InitCheck::Usable,
    }
}

/// Whether the init program's path can be handed to `execv`: it holds no NUL
/// character.
pub fn init_path_usable(init_path: &str) -> (r: bool)
    ensures
        r == !init_path@.contains('\0'),
{
    let v = text::chars_of(init_path);
    let mut i: usize = 0;
    while i < v.len()
        invariant
            v@ == init_path@,
            i <= v@.len(),
            forall|j: int| 0 <= j < i ==> v@[j] != '\0',
        decreases v@.len() - i,
    {
        if v[i] == '\0' {
            proof {
                assert(init_path@[i as int] == '\0');
            }
            return false;
        }
        i = i + 1;
    }
    true
}

/// Where an absolute symlink target of the init program lies before the root
/// switch: under the sysroot.
pub fn target_in_sysroot(root_mpt: &str, target: &str) -> (r: String)
    ensures
        r@ == root_mpt@ + target@,
{
    text::concat_str(root_mpt, target)
}


/// A `root=` on the kernel command line overrides the disk configuration: the
/// plan does not depend on the configured disks.
pub proof fn lemma_cmdline_root_overrides_disks(
    cfg1: MhConfig,
    cfg2: MhConfig,
    devs: Seq<blk::BlkDevice>,
    params: Map<Seq<char>, Seq<char>>,
)
    requires
        params.contains_key("root"@),
        cfg1.sysroot@ == cfg2.sysroot@,
    ensures
        blk_plan(cfg1, devs, params) == blk_plan(cfg2, devs, params),
{
}

/// Masking `root` makes the disk configuration decide, whatever `root=` the
/// bootloader passes.
pub proof fn lemma_masked_root_uses_disks(
    cfg: MhConfig,
    devs: Seq<blk::BlkDevice>,
    cmdline: Seq<char>,
    mask: Seq<Seq<char>>,
)
    requires
        mask.contains("root"@),
    ensures
        blk_plan(cfg, devs, crate::cmdline::parse_cmdline(cmdline, mask)) == match cfg.disks {
            Ok(d) => match disks_plan(cfg.sysroot@, devs, d@) {
                Ok(x) => Ok((x.0, root_first(sort_by_dev(x.1), cfg.sysroot@))),
                Err(e) => Err(e),
            },
            Err(e) => Err(DeviceError::Config(e)),
        },
{
    crate::cmdline::lemma_masked_keys_absent(text::words(cmdline), mask, "root"@);
}

} // verus!
