//! Mount orchestrator: a fail-fast state machine that resolves the backing
//! target, gates on the platform version and the companion filesystem
//! extension, validates the mountpoint, invokes the OS mount utility, and
//! optionally waits for the unmount.
//!
//! Every stage needs one outside observation (a resolution result, a version
//! string, an extension listing, a directory check, an exit status); the
//! caller performs it and hands the observation back as an event. The step
//! function decides everything else and never retries.

use vstd::prelude::*;

use crate::text::{contains_seq, text_bytes, trim_spec};

verus! {

/// Least platform major version with the required mount support.
pub const FSKIT_MIN_MAJOR: u32 = 26;

/// What a mount invocation is given, resolved once per call.
#[derive(Clone, Debug)]
pub struct MountArgs {
    /// The filesystem identifier or backing path.
    pub id_or_path: String,
    /// The mountpoint path.
    pub mountpoint: String,
    /// Automatically unmount when the process exits.
    pub auto_unmount: bool,
    /// Allow root to access the mount.
    pub allow_root: bool,
    /// Stay in the foreground and wait for the unmount.
    pub foreground: bool,
    /// User id to report for all files, defaulting to the current user.
    pub uid: Option<u32>,
    /// Group id to report for all files, defaulting to the current group.
    pub gid: Option<u32>,
}

/// The stages, in the order a mount passes through them.
#[derive(Clone, Copy, PartialEq, Eq, Structural, Debug)]
pub enum MountStage {
    Resolve,
    CheckPlatform,
    CheckExtension,
    ValidateTarget,
    Invoke,
    ForegroundWait,
}

/// What the caller observed for the pending stage.
pub enum MountEvent {
    /// The target resolved to a durable backing path, or to none for an
    /// ephemeral target.
    Resolved(Option<Vec<u8>>),
    /// Resolution itself failed.
    ResolveFailed,
    /// The version text the platform reported, or none when the query ran
    /// but reported failure.
    PlatformVersion(Option<Vec<u8>>),
    /// The version query could not be run at all.
    PlatformQueryFailed,
    /// The installed-extensions listing, or none when the query failed.
    ExtensionListing(Option<Vec<u8>>),
    /// Whether the mountpoint directory exists.
    TargetExists(bool),
    /// The mount utility exited; `stderr` is its diagnostic text.
    MountExit { success: bool, stderr: Vec<u8> },
    /// The mount utility could not be started.
    MountSpawnFailed,
    /// The foreground wait observed the unmount.
    Unmounted,
}

/// Why a mount attempt ended without mounting.
pub enum MountError {
    ResolutionFailed,
    EphemeralTarget,
    UnsupportedPlatform,
    PlatformProbeFailed,
    ExtensionMissing,
    MountpointMissing,
    SpawnFailed,
    /// The mount utility exited non-zero; its diagnostic text is kept.
    ToolFailed(Vec<u8>),
}

/// One decision of the machine.
pub enum MountStep {
    Advance(MountStage),
    Finished,
    Fail(MountError),
}

/// Which events answer which stage.
pub open spec fn stage_accepts(stage: MountStage, event: MountEvent) -> bool {
    match stage {
        MountStage::Resolve => event is Resolved || event is ResolveFailed,
        MountStage::CheckPlatform => event is PlatformVersion || event is PlatformQueryFailed,
        MountStage::CheckExtension => event is ExtensionListing,
        MountStage::ValidateTarget => event is TargetExists,
        MountStage::Invoke => event is MountExit || event is MountSpawnFailed,
        MountStage::ForegroundWait => event is Unmounted,
    }
}

/// Digits read most-significant first.
pub open spec fn digits_value(s: Seq<u8>) -> int
    decreases s.len(),
{
    if s.len() == 0 {
        0
    } else {
        digits_value(s.drop_last()) * 10 + (s.last() - 48)
    }
}

/// Every byte is an ASCII digit.
pub open spec fn all_digits(s: Seq<u8>) -> bool {
    forall|i: int| 0 <= i < s.len() ==> 48 <= #[trigger] s[i] <= 57
}

/// The bytes before the first dot.
pub open spec fn before_dot(s: Seq<u8>) -> Seq<u8>
    decreases s.len(),
{
    if s.len() == 0 {
        Seq::empty()
    } else if s[0] == 46 {
        Seq::empty()
    } else {
        seq![s[0]] + before_dot(s.drop_first())
    }
}

/// The major version a version text names: the digits before the first dot
/// after trimming, or zero when that prefix is empty, not all digits, or too
/// large.
pub open spec fn major_of(s: Seq<u8>) -> u32 {
    let p = before_dot(trim_spec(s));
    if p.len() > 0 && all_digits(p) && digits_value(p) <= u32::MAX {
        digits_value(p) as u32
    } else {
        0
    }
}

/// Whether the extension listing names the companion filesystem extension.
pub open spec fn extension_present(listing: Seq<u8>) -> bool {
    contains_seq(listing, text_bytes("io.turso.agentfs")) || contains_seq(
        listing,
        text_bytes("AgentFS"),
    )
}

/// What the machine decides at each stage for each observation.
pub open spec fn step_spec(stage: MountStage, event: MountEvent, foreground: bool) -> MountStep {
    match (stage, event) {
        (MountStage::Resolve, MountEvent::Resolved(Some(_))) => MountStep::Advance(
            MountStage::CheckPlatform,
        ),
        (MountStage::Resolve, MountEvent::Resolved(None)) => MountStep::Fail(
            MountError::EphemeralTarget,
        ),
        (MountStage::Resolve, MountEvent::ResolveFailed) => MountStep::Fail(
            MountError::ResolutionFailed,
        ),
        (MountStage::CheckPlatform, MountEvent::PlatformVersion(Some(v))) => if major_of(v@)
            >= FSKIT_MIN_MAJOR {
            MountStep::Advance(MountStage::CheckExtension)
        } else {
            MountStep::Fail(MountError::UnsupportedPlatform)
        },
        (MountStage::CheckPlatform, MountEvent::PlatformVersion(None)) => MountStep::Fail(
            MountError::UnsupportedPlatform,
        ),
        (MountStage::CheckPlatform, MountEvent::PlatformQueryFailed) => MountStep::Fail(
            MountError::PlatformProbeFailed,
        ),
        (MountStage::CheckExtension, MountEvent::ExtensionListing(Some(text))) => if
            extension_present(text@) {
            MountStep::Advance(MountStage::ValidateTarget)
        } else {
            MountStep::Fail(MountError::ExtensionMissing)
        },
        (MountStage::CheckExtension, MountEvent::ExtensionListing(None)) => MountStep::Fail(
            MountError::ExtensionMissing,
        ),
        (MountStage::ValidateTarget, MountEvent::TargetExists(true)) => MountStep::Advance(
            MountStage::Invoke,
        ),
        (MountStage::ValidateTarget, MountEvent::TargetExists(false)) => MountStep::Fail(
            MountError::MountpointMissing,
        ),
        (MountStage::Invoke, MountEvent::MountExit { success: true, .. }) => if foreground {
            MountStep::Advance(MountStage::ForegroundWait)
        } else {
            MountStep::Finished
        },
        (MountStage::Invoke, MountEvent::MountExit { success: false, stderr }) => MountStep::Fail(
            MountError::ToolFailed(stderr),
        ),
        (MountStage::Invoke, MountEvent::MountSpawnFailed) => MountStep::Fail(
            MountError::SpawnFailed,
        ),
        (MountStage::ForegroundWait, MountEvent::Unmounted) => MountStep::Finished,
        _ => MountStep::Fail(MountError::ResolutionFailed),
    }
}

/// Decide the machine's next move from the pending stage's observation.
pub fn mount_step(stage: MountStage, event: MountEvent, foreground: bool) -> (r: MountStep)
    requires
        stage_accepts(stage, event),
    ensures
        r == step_spec(stage, event, foreground),
{
    match (stage, event) {
        (MountStage::Resolve, MountEvent::Resolved(Some(_))) => MountStep::Advance(
            MountStage::CheckPlatform,
        ),
        (MountStage::Resolve, MountEvent::Resolved(None)) => MountStep::Fail(
            MountError::EphemeralTarget,
        ),
        (MountStage::Resolve, MountEvent::ResolveFailed) => MountStep::Fail(
            MountError::ResolutionFailed,
        ),
        (MountStage::CheckPlatform, MountEvent::PlatformVersion(Some(v))) => {
            if platform_supported(&v) {
                MountStep::Advance(MountStage::CheckExtension)
            } else {
                MountStep::Fail(MountError::UnsupportedPlatform)
            }
        },
        (MountStage::CheckPlatform, MountEvent::PlatformVersion(None)) => MountStep::Fail(
            MountError::UnsupportedPlatform,
        ),
        (MountStage::CheckPlatform, MountEvent::PlatformQueryFailed) => MountStep::Fail(
            MountError::PlatformProbeFailed,
        ),
        (MountStage::CheckExtension, MountEvent::ExtensionListing(Some(text))) => {
            if extension_installed(&text) {
                MountStep::Advance(MountStage::ValidateTarget)
            } else {
                MountStep::Fail(MountError::ExtensionMissing)
            }
        },
        (MountStage::CheckExtension, MountEvent::ExtensionListing(None)) => MountStep::Fail(
            MountError::ExtensionMissing,
        ),
        (MountStage::ValidateTarget, MountEvent::TargetExists(true)) => MountStep::Advance(
            MountStage::Invoke,
        ),
        (MountStage::ValidateTarget, MountEvent::TargetExists(false)) => MountStep::Fail(
            MountError::MountpointMissing,
        ),
        (MountStage::Invoke, MountEvent::MountExit { success, stderr }) => {
            if success {
                if foreground {
                    MountStep::Advance(MountStage::ForegroundWait)
                } else {
                    MountStep::Finished
                }
            } else {
                MountStep::Fail(MountError::ToolFailed(stderr))
            }
        },
        (MountStage::Invoke, MountEvent::MountSpawnFailed) => MountStep::Fail(
            MountError::SpawnFailed,
        ),
        (MountStage::ForegroundWait, MountEvent::Unmounted) => MountStep::Finished,
        _ => {
            proof {
                assert(false);
            }
            MountStep::Fail(MountError::ResolutionFailed)
        },
    }
}

/// Parse the major version out of a version text.
pub fn parse_major(s: &Vec<u8>) -> (r: u32)
    ensures
        r == major_of(s@),
{
    let t = crate::text::trim_bytes(s);
    let ghost tv = t@;
    let mut end: usize = 0;
    proof {
        assert(tv.skip(0) =~= tv);
        assert(tv.take(0) + before_dot(tv) =~= before_dot(tv));
    }
    while end < t.len() && t[end] != 46
        invariant
            end <= tv.len(),
            tv == t@,
            before_dot(tv) == tv.take(end as int) + before_dot(tv.skip(end as int)),
            forall|m: int| 0 <= m < end ==> tv[m] != 46,
        decreases t.len() - end,
    {
        proof {
            assert(tv.skip(end as int)[0] == tv[end as int]);
            assert(tv.skip(end as int).drop_first() =~= tv.skip(end + 1));
            assert(before_dot(tv.skip(end as int)) == seq![tv[end as int]] + before_dot(
                tv.skip(end + 1),
            ));
            assert(tv.take(end as int) + (seq![tv[end as int]] + before_dot(tv.skip(end + 1)))
                =~= tv.take(end + 1) + before_dot(tv.skip(end + 1)));
        }
        end = end + 1;
    }
    proof {
        if end < tv.len() {
            assert(tv.skip(end as int)[0] == 46);
            assert(before_dot(tv.skip(end as int)) == Seq::<u8>::empty());
        } else {
            assert(tv.skip(end as int) =~= Seq::<u8>::empty());
            assert(before_dot(tv.skip(end as int)) == Seq::<u8>::empty());
        }
        assert(before_dot(tv) =~= tv.take(end as int));
    }
    let ghost p = before_dot(tv);
    if end == 0 {
        proof {
            assert(p.len() == 0);
            assert(major_of(s@) == 0);
        }
        return 0;
    }
    let mut acc: u64 = 0;
    let mut j: usize = 0;
    proof {
        assert(p.take(0) =~= Seq::<u8>::empty());
        assert(digits_value(p.take(0)) == 0);
    }
    while j < end
        invariant
            j <= end <= tv.len(),
            tv == t@,
            tv == trim_spec(s@),
            p == before_dot(tv),
            p == tv.take(end as int),
            p.len() == end,
            all_digits(p.take(j as int)),
            acc == digits_value(p.take(j as int)),
            acc <= u32::MAX,
        decreases end - j,
    {
        let b = t[j];
        if b < 48 || b > 57 {
            proof {
                assert(p[j as int] == tv[j as int]);
                assert(!all_digits(p));
                assert(major_of(s@) == 0);
            }
            return 0;
        }
        let d = (b - 48) as u64;
        let next: u64 = acc * 10 + d;
        proof {
            assert(p.take(j + 1).drop_last() =~= p.take(j as int));
            assert(p.take(j + 1).last() == p[j as int]);
            assert(p[j as int] == tv[j as int]);
            assert(digits_value(p.take(j + 1)) == digits_value(p.take(j as int)) * 10 + (b - 48));
            assert(all_digits(p.take(j + 1)));
        }
        if next > 0xFFFF_FFFF {
            proof {
                if all_digits(p) {
                    lemma_digits_value_take_le(p, j + 1);
                    assert(digits_value(p) > u32::MAX);
                }
                assert(major_of(s@) == 0);
            }
            return 0;
        }
        acc = next;
        j = j + 1;
    }
    proof {
        assert(p.take(end as int) =~= p);
        assert(all_digits(p));
        assert(digits_value(p) == acc);
        assert(major_of(s@) == digits_value(p) as u32);
    }
    acc as u32
}

/// The digits of a non-empty all-digit prefix name a non-negative value.
proof fn lemma_digits_value_nonneg(p: Seq<u8>, m: int)
    requires
        0 <= m <= p.len(),
        all_digits(p),
    ensures
        digits_value(p.take(m)) >= 0,
    decreases m,
{
    if m > 0 {
        assert(p.take(m).drop_last() =~= p.take(m - 1));
        assert(p.take(m).last() == p[m - 1]);
        lemma_digits_value_nonneg(p, m - 1);
    } else {
        assert(p.take(0) =~= Seq::<u8>::empty());
    }
}

/// A prefix of an all-digit run never names more than the whole run.
proof fn lemma_digits_value_take_le(p: Seq<u8>, m: int)
    requires
        0 <= m <= p.len(),
        all_digits(p),
    ensures
        digits_value(p.take(m)) <= digits_value(p),
    decreases p.len() - m,
{
    if m < p.len() {
        lemma_digits_value_take_le(p, m + 1);
        assert(p.take(m + 1).drop_last() =~= p.take(m));
        assert(p.take(m + 1).last() == p[m]);
        lemma_digits_value_nonneg(p, m);
        assert(digits_value(p.take(m + 1)) == digits_value(p.take(m)) * 10 + (p[m] - 48));
        assert(digits_value(p.take(m)) * 10 >= digits_value(p.take(m)));
    } else {
        assert(p.take(m) =~= p);
    }
}

/// Whether the reported version meets the platform gate.
pub fn platform_supported(version: &Vec<u8>) -> (r: bool)
    ensures
        r == (major_of(version@) >= FSKIT_MIN_MAJOR),
{
    let major = parse_major(version);
    major >= FSKIT_MIN_MAJOR
}

/// Whether the installed-extensions listing names the companion extension,
/// by its bundle identifier or by its product name.
pub fn extension_installed(listing: &Vec<u8>) -> (r: bool)
    ensures
        r == extension_present(listing@),
{
    let bundle = crate::text::lit_bytes("io.turso.agentfs");
    if crate::text::contains_bytes(listing, &bundle) {
        return true;
    }
    let name = crate::text::lit_bytes("AgentFS");
    crate::text::contains_bytes(listing, &name)
}

/// The resource locator handed to the mount utility.
pub open spec fn resource_url_spec(path: Seq<u8>) -> Seq<u8> {
    text_bytes("file://") + path
}

/// Build the `file://` resource locator for the canonical backing path.
pub fn build_resource_url(path: &Vec<u8>) -> (r: Vec<u8>)
    ensures
        r@ == resource_url_spec(path@),
{
    let mut r = crate::text::lit_bytes("file://");
    crate::registry::append_bytes(&mut r, path);
    r
}

/// Run the machine over observations in order; later observations are dead
/// once a stage fails or the mount finishes. `Advance` means the run is
/// still under way, waiting for the next observation.
pub open spec fn run_spec(stage: MountStage, events: Seq<MountEvent>, foreground: bool) -> MountStep
    decreases events.len(),
{
    if events.len() == 0 {
        MountStep::Advance(stage)
    } else {
        match step_spec(stage, events[0], foreground) {
            MountStep::Advance(next) => run_spec(next, events.drop_first(), foreground),
            MountStep::Finished => MountStep::Finished,
            MountStep::Fail(e) => MountStep::Fail(e),
        }
    }
}

/// A platform below the threshold ends the mount as unsupported right after
/// the version observation: whatever observations would have followed (the
/// extension query, the mountpoint check, the utility's exit), none is
/// consulted.
pub proof fn lemma_platform_gate(
    path: Vec<u8>,
    version: Vec<u8>,
    later: Seq<MountEvent>,
    foreground: bool,
)
    requires
        major_of(version@) < FSKIT_MIN_MAJOR,
    ensures
        run_spec(
            MountStage::Resolve,
            seq![
                MountEvent::Resolved(Some(path)),
                MountEvent::PlatformVersion(Some(version)),
            ] + later,
            foreground,
        ) == MountStep::Fail(MountError::UnsupportedPlatform),
{
    let evs = seq![
        MountEvent::Resolved(Some(path)),
        MountEvent::PlatformVersion(Some(version)),
    ] + later;
    assert(evs[0] == MountEvent::Resolved(Some(path)));
    assert(step_spec(MountStage::Resolve, evs[0], foreground) == MountStep::Advance(
        MountStage::CheckPlatform,
    ));
    let rest = evs.drop_first();
    assert(run_spec(MountStage::Resolve, evs, foreground) == run_spec(
        MountStage::CheckPlatform,
        rest,
        foreground,
    ));
    assert(rest[0] == MountEvent::PlatformVersion(Some(version)));
    assert(step_spec(MountStage::CheckPlatform, rest[0], foreground) == MountStep::Fail(
        MountError::UnsupportedPlatform,
    ));
    assert(run_spec(MountStage::CheckPlatform, rest, foreground) == MountStep::Fail(
        MountError::UnsupportedPlatform,
    ));
}

/// A mount whose every observation passes finishes: a durable resolution,
/// a platform at or above the threshold, a listing naming the extension, an
/// existing mountpoint and a clean utility exit mount the target, and in
/// foreground mode the run ends once the unmount is observed.
pub proof fn lemma_mount_completes(
    path: Vec<u8>,
    version: Vec<u8>,
    listing: Vec<u8>,
    stderr: Vec<u8>,
    foreground: bool,
)
    requires
        major_of(version@) >= FSKIT_MIN_MAJOR,
        extension_present(listing@),
    ensures
        run_spec(
            MountStage::Resolve,
            seq![
                MountEvent::Resolved(Some(path)),
                MountEvent::PlatformVersion(Some(version)),
                MountEvent::ExtensionListing(Some(listing)),
                MountEvent::TargetExists(true),
                MountEvent::MountExit { success: true, stderr },
            ] + (if foreground {
                seq![MountEvent::Unmounted]
            } else {
                Seq::empty()
            }),
            foreground,
        ) == MountStep::Finished,
{
    let tail: Seq<MountEvent> = if foreground {
        seq![MountEvent::Unmounted]
    } else {
        Seq::empty()
    };
    let e0 = MountEvent::Resolved(Some(path));
    let e1 = MountEvent::PlatformVersion(Some(version));
    let e2 = MountEvent::ExtensionListing(Some(listing));
    let e3 = MountEvent::TargetExists(true);
    let e4 = MountEvent::MountExit { success: true, stderr };
    let evs = seq![e0, e1, e2, e3, e4] + tail;
    assert(evs[0] == e0);
    assert(evs.drop_first() =~= seq![e1, e2, e3, e4] + tail);
    let r1 = evs.drop_first();
    assert(r1[0] == e1);
    assert(r1.drop_first() =~= seq![e2, e3, e4] + tail);
    let r2 = r1.drop_first();
    assert(r2[0] == e2);
    assert(r2.drop_first() =~= seq![e3, e4] + tail);
    let r3 = r2.drop_first();
    assert(r3[0] == e3);
    assert(r3.drop_first() =~= seq![e4] + tail);
    let r4 = r3.drop_first();
    assert(r4[0] == e4);
    assert(r4.drop_first() =~= tail);
    assert(run_spec(MountStage::Resolve, evs, foreground) == run_spec(
        MountStage::CheckPlatform,
        r1,
        foreground,
    ));
    assert(run_spec(MountStage::CheckPlatform, r1, foreground) == run_spec(
        MountStage::CheckExtension,
        r2,
        foreground,
    ));
    assert(run_spec(MountStage::CheckExtension, r2, foreground) == run_spec(
        MountStage::ValidateTarget,
        r3,
        foreground,
    ));
    assert(run_spec(MountStage::ValidateTarget, r3, foreground) == run_spec(
        MountStage::Invoke,
        r4,
        foreground,
    ));
    if foreground {
        assert(step_spec(MountStage::Invoke, e4, foreground) == MountStep::Advance(
            MountStage::ForegroundWait,
        ));
        assert(run_spec(MountStage::Invoke, r4, foreground) == run_spec(
            MountStage::ForegroundWait,
            tail,
            foreground,
        ));
        assert(tail[0] == MountEvent::Unmounted);
        assert(run_spec(MountStage::ForegroundWait, tail, foreground) == MountStep::Finished);
    } else {
        assert(step_spec(MountStage::Invoke, e4, foreground) == MountStep::Finished);
        assert(run_spec(MountStage::Invoke, r4, foreground) == MountStep::Finished);
    }
}

/// A missing mountpoint directory ends the mount before the utility is
/// invoked: whatever observations would have followed, none is consulted.
pub proof fn lemma_target_gate(later: Seq<MountEvent>, foreground: bool)
    ensures
        run_spec(
            MountStage::ValidateTarget,
            seq![MountEvent::TargetExists(false)] + later,
            foreground,
        ) == MountStep::Fail(MountError::MountpointMissing),
{
    let evs = seq![MountEvent::TargetExists(false)] + later;
    assert(evs[0] == MountEvent::TargetExists(false));
    assert(step_spec(MountStage::ValidateTarget, evs[0], foreground) == MountStep::Fail(
        MountError::MountpointMissing,
    ));
}

/// What the operator is told for each failure.
pub open spec fn message_spec(e: MountError) -> Seq<u8> {
    match e {
        MountError::ResolutionFailed => text_bytes("Failed to resolve the filesystem target."),
        MountError::EphemeralTarget => text_bytes("Cannot mount ephemeral filesystem"),
        MountError::UnsupportedPlatform => text_bytes(
            "FSKit requires macOS 26 or later.\nYou can use the `--features force-fuse` flag to use macFUSE instead.",
        ),
        MountError::PlatformProbeFailed => text_bytes("Could not query the host OS version."),
        MountError::ExtensionMissing => text_bytes(
            "AgentFS FSKit extension is not installed.\n\nTo install:\n1. Build the extension: cd fskit-ffi && make build-extension\n2. Install the extension app bundle\n3. Enable it via: System Settings > General > Login Items & Extensions > File System Extensions > AgentFS\n\nAlternatively, use macFUSE with: cargo build --features force-fuse",
        ),
        MountError::MountpointMissing => text_bytes("Mountpoint does not exist: "),
        MountError::SpawnFailed => text_bytes("Could not run the mount utility."),
        MountError::ToolFailed(stderr) => text_bytes("Mount failed: ") + trim_spec(stderr@)
            + text_bytes("\n\nMake sure the AgentFS FSKit extension is installed and enabled."),
    }
}

/// Render the failure for the operator-facing channel.
pub fn error_message(e: &MountError) -> (r: Vec<u8>)
    ensures
        r@ == message_spec(*e),
{
    match e {
        MountError::ResolutionFailed => crate::text::lit_bytes(
            "Failed to resolve the filesystem target.",
        ),
        MountError::EphemeralTarget => crate::text::lit_bytes("Cannot mount ephemeral filesystem"),
        MountError::UnsupportedPlatform => crate::text::lit_bytes(
            "FSKit requires macOS 26 or later.\nYou can use the `--features force-fuse` flag to use macFUSE instead.",
        ),
        MountError::PlatformProbeFailed => crate::text::lit_bytes(
            "Could not query the host OS version.",
        ),
        MountError::ExtensionMissing => crate::text::lit_bytes(
            "AgentFS FSKit extension is not installed.\n\nTo install:\n1. Build the extension: cd fskit-ffi && make build-extension\n2. Install the extension app bundle\n3. Enable it via: System Settings > General > Login Items & Extensions > File System Extensions > AgentFS\n\nAlternatively, use macFUSE with: cargo build --features force-fuse",
        ),
        MountError::MountpointMissing => crate::text::lit_bytes("Mountpoint does not exist: "),
        MountError::SpawnFailed => crate::text::lit_bytes("Could not run the mount utility."),
        MountError::ToolFailed(stderr) => {
            let mut r = crate::text::lit_bytes("Mount failed: ");
            let trimmed = crate::text::trim_bytes(stderr);
            crate::registry::append_bytes(&mut r, &trimmed);
            let tail = crate::text::lit_bytes(
                "\n\nMake sure the AgentFS FSKit extension is installed and enabled.",
            );
            crate::registry::append_bytes(&mut r, &tail);
            proof {
                assert(r@ =~= message_spec(*e));
            }
            r
        },
    }
}

/// A non-zero exit of the mount utility fails the mount with the tool's
/// diagnostic text, and the operator-facing message carries that text
/// (trimmed of surrounding whitespace) unchanged.
pub proof fn lemma_tool_failure(stderr: Vec<u8>, foreground: bool)
    ensures
        step_spec(
            MountStage::Invoke,
            MountEvent::MountExit { success: false, stderr },
            foreground,
        ) == MountStep::Fail(MountError::ToolFailed(stderr)),
        contains_seq(message_spec(MountError::ToolFailed(stderr)), trim_spec(stderr@)),
{
    let prefix = text_bytes("Mount failed: ");
    let t = trim_spec(stderr@);
    let m = message_spec(MountError::ToolFailed(stderr));
    assert(m.subrange(prefix.len() as int, prefix.len() + t.len() as int) =~= t);
    assert(crate::text::occurs_at(m, t, prefix.len() as int));
}

/// Whether one poll of the mountpoint's device identity means the target
/// was unmounted: the mountpoint became unreadable, or its device changed.
pub fn unmount_detected(mounted_dev: u64, observed: Option<u64>) -> (r: bool)
    ensures
        r == match observed {
            Some(d) => d != mounted_dev,
            None => true,
        },
{
    match observed {
        Some(d) => d != mounted_dev,
        None => true,
    }
}

} // verus!
