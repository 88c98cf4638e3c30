//! Mount construction policy: the fixed table of kernel filesystems mounted
//! at startup, and the builder that turns the declared virtiofs mounts into
//! an ordered plan of directory and mount actions. A plain share is mounted
//! directly at its path; a share with an overlay is mounted at a staging
//! location and composed, as the read-only lower layer, with a fresh
//! tmpfs-backed upper/work pair, so local writes stay ephemeral and the work
//! directory is empty and never reused.

use vstd::prelude::*;
use vstd::string::StringExecFns;
use crate::cmdline::{MountView, VirtiofsMount};

verus! {

/// Model of one kernel filesystem mount descriptor.
pub struct KernelMountView {
    pub source: Seq<char>,
    pub target: Seq<char>,
    pub fstype: Seq<char>,
    pub flags: u64,
    pub data: Seq<char>,
}

/// One kernel filesystem to mount at startup: mount `source` of type
/// `fstype` at `target` with the given flags and data string.
#[derive(Debug, Clone, PartialEq)]
pub struct KernelMount {
    pub source: String,
    pub target: String,
    pub fstype: String,
    pub flags: u64,
    pub data: String,
}

impl View for KernelMount {
    type V = KernelMountView;

    open spec fn view(&self) -> KernelMountView {
        KernelMountView {
            source: self.source@,
            target: self.target@,
            fstype: self.fstype@,
            flags: self.flags,
            data: self.data@,
        }
    }
}

impl DeepView for KernelMount {
    type V = KernelMountView;

    open spec fn deep_view(&self) -> KernelMountView {
        self.view()
    }
}

/// The fixed, ordered table of kernel filesystems a run mounts first:
/// proc, sysfs, devtmpfs, and a tmpfs on /run.
pub open spec fn kernel_mount_table() -> Seq<KernelMountView> {
    seq![
        KernelMountView {
            source: "proc"@,
            target: "/proc"@,
            fstype: "proc"@,
            flags: 0u64,
            data: ""@,
        },
        KernelMountView {
            source: "sysfs"@,
            target: "/sys"@,
            fstype: "sysfs"@,
            flags: 0u64,
            data: ""@,
        },
        KernelMountView {
            source: "devtmpfs"@,
            target: "/dev"@,
            fstype: "devtmpfs"@,
            flags: 0u64,
            data: ""@,
        },
        KernelMountView {
            source: "tmpfs"@,
            target: "/run"@,
            fstype: "tmpfs"@,
            flags: 0u64,
            data: "mode=0755"@,
        },
    ]
}

/// The kernel filesystem mounts, in the order they are applied.
pub fn kernel_mounts() -> (r: Vec<KernelMount>)
    ensures
        r.deep_view() == kernel_mount_table(),
{
    let mut table: Vec<KernelMount> = Vec::new();
    table.push(
        KernelMount {
            source: String::from_str("proc"),
            target: String::from_str("/proc"),
            fstype: String::from_str("proc"),
            flags: 0,
            data: String::from_str(""),
        },
    );
    table.push(
        KernelMount {
            source: String::from_str("sysfs"),
            target: String::from_str("/sys"),
            fstype: String::from_str("sysfs"),
            flags: 0,
            data: String::from_str(""),
        },
    );
    table.push(
        KernelMount {
            source: String::from_str("devtmpfs"),
            target: String::from_str("/dev"),
            fstype: String::from_str("devtmpfs"),
            flags: 0,
            data: String::from_str(""),
        },
    );
    table.push(
        KernelMount {
            source: String::from_str("tmpfs"),
            target: String::from_str("/run"),
            fstype: String::from_str("tmpfs"),
            flags: 0,
            data: String::from_str("mode=0755"),
        },
    );
    proof {
        assert(table.deep_view() =~= kernel_mount_table());
    }
    table
}

/// Model of one step of a mount plan.
pub enum MountActionView {
    EnsureDir { path: Seq<char> },
    MountVirtiofs { tag: Seq<char>, target: Seq<char> },
    MountTmpfs { target: Seq<char> },
    MountOverlay { lower: Seq<char>, upper: Seq<char>, work: Seq<char>, target: Seq<char> },
}

/// One step of a mount plan, applied in order by the caller; a step that
/// fails aborts the remaining steps.
#[derive(Debug, Clone, PartialEq)]
pub enum MountAction {
    /// Create the directory if it does not exist yet.
    EnsureDir { path: String },
    /// Mount the virtiofs channel named `tag` at `target`.
    MountVirtiofs { tag: String, target: String },
    /// Mount a fresh memory-backed filesystem at `target`.
    MountTmpfs { target: String },
    /// Mount an overlay at `target` with the given lower, upper, and work
    /// directories.
    MountOverlay { lower: String, upper: String, work: String, target: String },
}

impl View for MountAction {
    type V = MountActionView;

    open spec fn view(&self) -> MountActionView {
        match self {
            MountAction::EnsureDir { path } => MountActionView::EnsureDir { path: path@ },
            MountAction::MountVirtiofs { tag, target } => MountActionView::MountVirtiofs {
                tag: tag@,
                target: target@,
            },
            MountAction::MountTmpfs { target } => MountActionView::MountTmpfs { target: target@ },
            MountAction::MountOverlay { lower, upper, work, target } => {
                MountActionView::MountOverlay {
                    lower: lower@,
                    upper: upper@,
                    work: work@,
                    target: target@,
                }
            },
        }
    }
}

impl DeepView for MountAction {
    type V = MountActionView;

    open spec fn deep_view(&self) -> MountActionView {
        self.view()
    }
}

/// The staging location at which an overlaid share's virtiofs channel is
/// mounted read-only, distinct from the share's declared path.
pub open spec fn staging_dir(tag: Seq<char>) -> Seq<char> {
    "/run/virtiofs/"@ + tag
}

/// The ephemeral writable area backing an overlaid share.
pub open spec fn overlay_base(tag: Seq<char>) -> Seq<char> {
    "/run/overlay/"@ + tag
}

/// The overlay's writable upper directory.
pub open spec fn overlay_upper(tag: Seq<char>) -> Seq<char> {
    overlay_base(tag) + "/upper"@
}

/// The overlay's work directory; on a fresh tmpfs, so it is empty and never
/// reused across invocations.
pub open spec fn overlay_work(tag: Seq<char>) -> Seq<char> {
    overlay_base(tag) + "/work"@
}

/// The ordered actions that realize one declared mount. Without an overlay:
/// ensure the path exists, then mount the channel there. With an overlay:
/// ensure the path, mount the channel at its staging location, raise a fresh
/// tmpfs with upper and work directories, and mount the overlay at the path
/// with the staging mount as its single lower layer.
pub open spec fn actions_for_mount(m: MountView) -> Seq<MountActionView> {
    if !m.with_overlay {
        seq![
            MountActionView::EnsureDir { path: m.path },
            MountActionView::MountVirtiofs { tag: m.tag, target: m.path },
        ]
    } else {
        seq![
            MountActionView::EnsureDir { path: m.path },
            MountActionView::EnsureDir { path: staging_dir(m.tag) },
            MountActionView::MountVirtiofs { tag: m.tag, target: staging_dir(m.tag) },
            MountActionView::EnsureDir { path: overlay_base(m.tag) },
            MountActionView::MountTmpfs { target: overlay_base(m.tag) },
            MountActionView::EnsureDir { path: overlay_upper(m.tag) },
            MountActionView::EnsureDir { path: overlay_work(m.tag) },
            MountActionView::MountOverlay {
                lower: staging_dir(m.tag),
                upper: overlay_upper(m.tag),
                work: overlay_work(m.tag),
                target: m.path,
            },
        ]
    }
}

/// The whole plan: the actions of every declared mount, in declaration
/// order.
pub open spec fn mount_plan(ms: Seq<MountView>) -> Seq<MountActionView>
    decreases ms.len(),
{
    if ms.len() == 0 {
        Seq::empty()
    } else {
        mount_plan(ms.drop_last()) + actions_for_mount(ms.last())
    }
}

/// Build the ordered mount plan for the declared mounts. The caller applies
/// the actions strictly in order and stops at the first failure.
pub fn build_mount_plan(mounts: &Vec<VirtiofsMount>) -> (r: Vec<MountAction>)
    ensures
        r.deep_view() == mount_plan(mounts.deep_view()),
{
    let ghost mounts_dv = mounts.deep_view();
    let mut plan: Vec<MountAction> = Vec::new();
    let n = mounts.len();
    proof {
        assert(mounts_dv.take(0) =~= Seq::<MountView>::empty());
        assert(plan.deep_view() =~= Seq::<MountActionView>::empty());
    }
    let mut k: usize = 0;
    while k < n
        invariant
            k <= n,
            n == mounts.len(),
            mounts_dv == mounts.deep_view(),
            plan.deep_view() == mount_plan(mounts_dv.take(k as int)),
        decreases n - k,
    {
        proof {
            assert(mounts_dv.take(k as int + 1).drop_last() =~= mounts_dv.take(k as int));
            assert(mounts_dv.take(k as int + 1).last() == mounts_dv[k as int]);
            assert(mounts_dv[k as int] == mounts@[k as int]@);
        }
        let ghost prev_dv = plan.deep_view();
        let m = &mounts[k];
        if !m.with_overlay {
            plan.push(MountAction::EnsureDir { path: m.path.clone() });
            plan.push(
                MountAction::MountVirtiofs { tag: m.tag.clone(), target: m.path.clone() },
            );
        } else {
            let staging = String::from_str("/run/virtiofs/").concat(m.tag.as_str());
            let base = String::from_str("/run/overlay/").concat(m.tag.as_str());
            let upper = base.clone().concat("/upper");
            let work = base.clone().concat("/work");
            plan.push(MountAction::EnsureDir { path: m.path.clone() });
            plan.push(MountAction::EnsureDir { path: staging.clone() });
            plan.push(
                MountAction::MountVirtiofs { tag: m.tag.clone(), target: staging.clone() },
            );
            plan.push(MountAction::EnsureDir { path: base.clone() });
            plan.push(MountAction::MountTmpfs { target: base });
            plan.push(MountAction::EnsureDir { path: upper.clone() });
            plan.push(MountAction::EnsureDir { path: work.clone() });
            plan.push(
                MountAction::MountOverlay { lower: staging, upper, work, target: m.path.clone() },
            );
        }
        proof {
            assert(plan.deep_view() =~= prev_dv + actions_for_mount(mounts_dv[k as int]));
        }
        k += 1;
    }
    proof {
        assert(mounts_dv.take(n as int) =~= mounts_dv);
    }
    plan
}

} // verus!
