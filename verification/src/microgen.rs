//! The decisions of the initramfs generator's commands: how a configured
//! device is written, whether a boot configuration passes, which kernel to use
//! and what a kernel configuration check means for the run.
use vstd::prelude::*;
use crate::config;
use crate::config::MhConfig;
use crate::text;

verus! {

/// How a disk's device is written in a boot configuration.
#[derive(Debug, PartialEq, Eq)]
pub enum DeviceFormat {
    /// `uuid=...` or `label=...`.
    Preferred,
    /// A `/dev/...` path.
    Legacy,
    /// A bare UUID: 36 bytes holding four hyphens.
    PlainUuid,
    Unknown,
}

/// The number of `c` in `s`.
pub open spec fn count_char(s: Seq<char>, c: char) -> nat
    decreases s.len(),
{
    if s.len() == 0 {
        0
    } else {
        count_char(s.drop_last(), c) + if s.last() == c {
            1nat
        } else {
            0nat
        }
    }
}

pub open spec fn device_format(device: Seq<char>) -> DeviceFormat {
    if text::starts_with(device, "uuid="@) || text::starts_with(device, "label="@) {
        DeviceFormat::Preferred
    } else if text::starts_with(device, "/dev/"@) {
        DeviceFormat::Legacy
    } else if vstd::utf8::encode_utf8(device).len() == 36 && count_char(device, '-') == 4 {
        DeviceFormat::PlainUuid
    } else {
        DeviceFormat::Unknown
    }
}

fn has_prefix(s: &str, p: &str) -> (r: bool)
    ensures
        r == text::starts_with(s@, p@),
{
    let v = text::chars_of(s);
    let pv = text::chars_of(p);
    proof {
        assert(v@.subrange(0, v@.len() as int) =~= v@);
    }
    text::starts_with_at(&v, 0, v.len(), &pv)
}

fn count_hyphens(s: &str) -> (r: usize)
    ensures
        r == count_char(s@, '-'),
{
    let v = text::chars_of(s);
    let mut n: usize = 0;
    let mut i: usize = 0;
    while i < v.len()
        invariant
            v@ == s@,
            i <= v@.len(),
            n == count_char(v@.take(i as int), '-'),
            n <= i,
        decreases v@.len() - i,
    {
        proof {
            assert(v@.take(i + 1).drop_last() =~= v@.take(i as int));
        }
        if v[i] == '-' {
            n = n + 1;
        }
        i = i + 1;
    }
    proof {
        assert(v@.take(v@.len() as int) =~= v@);
    }
    n
}

/// How a configured device is written (see `DeviceFormat`).
pub fn classify_device(device: &str) -> (r: DeviceFormat)
    ensures
        r == device_format(device@),
{
    if has_prefix(device, "uuid=") || has_prefix(device, "label=") {
        DeviceFormat::Preferred
    } else if has_prefix(device, "/dev/") {
        DeviceFormat::Legacy
    } else if device.as_bytes().len() == 36 && count_hyphens(device) == 4 {
        DeviceFormat::PlainUuid
    } else {
        DeviceFormat::Unknown
    }
}

/// The log levels that a boot configuration may name.
pub open spec fn valid_log_level(l: Seq<char>) -> bool {
    l == "debug"@ || l == "info"@ || l == "quiet"@
}

pub fn is_valid_log_level(l: &str) -> (r: bool)
    ensures
        r == valid_log_level(l@),
{
    let s = String::from_str(l);
    s == String::from_str("debug") || s == String::from_str("info") || s == String::from_str(
        "quiet",
    )
}

/// The verdict on a boot configuration.
#[derive(Debug, PartialEq, Eq)]
pub struct ProfileCheck {
    pub has_errors: bool,
    pub has_warnings: bool,
}

/// Some disk is written otherwise than `uuid=`/`label=`.
pub open spec fn some_disk_not_preferred(d: Seq<config::DiskConfig>) -> bool {
    exists|i: int| 0 <= i < d.len() && device_format((#[trigger] d[i]).device@) != DeviceFormat::Preferred
}

/// A boot configuration has errors when its disks cannot be read; it has
/// warnings when it lists no disk, a disk written otherwise than
/// `uuid=`/`label=`, or a log level other than `debug`, `info` and `quiet`.
pub open spec fn profile_check(cfg: MhConfig) -> ProfileCheck {
    let disk_warning = match cfg.disks {
        Ok(d) => d@.len() == 0 || some_disk_not_preferred(d@),
        Err(_) => false,
    };
    let log_warning = match cfg.log {
        Some(l) => !valid_log_level(l@),
        None => false,
    };
    ProfileCheck { has_errors: cfg.disks is Err, has_warnings: disk_warning || log_warning }
}

/// The verdict on a boot configuration (see `profile_check`).
pub fn check_profile(cfg: &MhConfig) -> (r: ProfileCheck)
    ensures
        r == profile_check(*cfg),
{
    let mut has_errors = false;
    let mut has_warnings = false;
    match &cfg.disks {
        Ok(disks) => {
            if disks.len() == 0 {
                has_warnings = true;
            } else {
                let mut i: usize = 0;
                while i < disks.len()
                    invariant
                        i <= disks@.len(),
                        has_warnings == exists|j: int|
                            0 <= j < i && device_format((#[trigger] disks@[j]).device@)
                                != DeviceFormat::Preferred,
                    decreases disks@.len() - i,
                {
                    match classify_device(disks[i].device.as_str()) {
                        DeviceFormat::Preferred => {},
                        _ => {
                            has_warnings = true;
                        },
                    }
                    i = i + 1;
                }
            }
        },
        Err(_) => {
            has_errors = true;
        },
    }
    match &cfg.log {
        Some(l) => {
            if !is_valid_log_level(l.as_str()) {
                has_warnings = true;
            }
        },
        None => {},
    }
    ProfileCheck { has_errors, has_warnings }
}

/// Why no kernel could be chosen.
#[derive(Debug, PartialEq, Eq)]
pub enum KernelChoiceError {
    /// More than one kernel was found.
    Ambiguous,
}

/// The kernel to build for: none when no kernel was found (a monolithic
/// kernel), the only one when there is one, and an error when there are several.
pub fn choose_kernel<T>(kernels: Vec<T>) -> (r: Result<Option<T>, KernelChoiceError>)
    ensures
        kernels@.len() == 0 ==> r == Ok::<Option<T>, KernelChoiceError>(None),
        kernels@.len() == 1 ==> r == Ok::<Option<T>, KernelChoiceError>(Some(kernels@[0])),
        kernels@.len() > 1 ==> r == Err::<Option<T>, KernelChoiceError>(
            KernelChoiceError::Ambiguous,
        ),
{
    let mut k = kernels;
    if k.len() == 0 {
        Ok(None)
    } else if k.len() == 1 {
        Ok(Some(k.remove(0)))
    } else {
        Err(KernelChoiceError::Ambiguous)
    }
}

/// What the outcome of a kernel configuration check means for the run.
#[derive(Debug, PartialEq, Eq)]
pub enum KConfigVerdict {
    /// Fail with "Kernel configuration validation failed".
    ValidationFailed,
    /// Stop successfully: only validation was asked for.
    Stop,
    /// Fail with "Cannot generate initramfs: kernel configuration is incompatible".
    Incompatible,
    /// Generate the initramfs, warning first when `true`.
    Generate(bool),
}

pub open spec fn kconfig_verdict_spec(validate_only: bool, errors: bool, warnings: bool) -> KConfigVerdict {
    if validate_only {
        if errors {
            KConfigVerdict::ValidationFailed
        } else {
            KConfigVerdict::Stop
        }
    } else if errors {
        KConfigVerdict::Incompatible
    } else {
        KConfigVerdict::Generate(warnings)
    }
}

/// The verdicts on a kernel configuration check: any error fails the run, as
/// a failed validation when only validating and as an incompatible kernel when
/// generating, whatever the warnings; without errors a validation stops
/// successfully and a generation goes ahead, warning exactly when there are
/// warnings.
pub proof fn lemma_kconfig_verdict_laws(validate_only: bool, errors: bool, warnings: bool)
    ensures
        !validate_only && errors ==> kconfig_verdict_spec(validate_only, errors, warnings)
            == KConfigVerdict::Incompatible,
        validate_only && errors ==> kconfig_verdict_spec(validate_only, errors, warnings)
            == KConfigVerdict::ValidationFailed,
        validate_only && !errors ==> kconfig_verdict_spec(validate_only, errors, warnings) == KConfigVerdict::Stop,
        !validate_only && !errors ==> kconfig_verdict_spec(validate_only, errors, warnings)
            == KConfigVerdict::Generate(warnings),
        kconfig_verdict_spec(validate_only, errors, warnings) is Generate <==> !validate_only && !errors,
        kconfig_verdict_spec(validate_only, errors, warnings) == kconfig_verdict_spec(validate_only, errors, !warnings)
            <== errors || validate_only,
{
}

/// What a kernel configuration check with errors and warnings means for a run
/// that asked only for validation, or for a new initramfs.
pub fn kconfig_verdict(validate_only: bool, errors: bool, warnings: bool) -> (r: KConfigVerdict)
    ensures
        r == kconfig_verdict_spec(validate_only, errors, warnings),
        !validate_only && errors ==> r == KConfigVerdict::Incompatible,
        r is Generate <==> !validate_only && !errors,
{
    if validate_only {
        if errors {
            KConfigVerdict::ValidationFailed
        } else {
            KConfigVerdict::Stop
        }
    } else if errors {
        KConfigVerdict::Incompatible
    } else {
        KConfigVerdict::Generate(warnings)
    }
}

/// Kernel information is needed when modules are to be extracted, or when a
/// profile is given whose modules are not known to be none.
pub fn needs_kernel_info(extracting: bool, profile_given: bool, profile_modules: Option<usize>) -> (r: bool)
    ensures
        r == (extracting || (profile_given && match profile_modules {
            Some(n) => n > 0,
            None => true,
        })),
{
    extracting || (profile_given && match profile_modules {
        Some(n) => n > 0,
        None => true,
    })
}

} // verus!
