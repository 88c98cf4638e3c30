use kdf_init::boot::{FailureKind, Orchestrator, Stage, StageEvent};
use kdf_init::cmdline::parse_cmdline;
use kdf_init::modules::{is_module_file, ModuleLoadSummary};
use kdf_init::mounts::{build_mount_plan, kernel_mounts, MountAction};

#[test]
fn test_successful_run_passes_every_stage_in_order() {
    let mut orch = Orchestrator::new();
    let expected = [
        Stage::MountingKernelFs,
        Stage::ReadingCmdline,
        Stage::ParsingConfig,
        Stage::LoadingModules,
        Stage::MountingShares,
        Stage::ApplyingEnv,
        Stage::ExecutingShell,
        Stage::ShuttingDown,
        Stage::Shutdown,
    ];
    for (k, stage) in expected.iter().enumerate() {
        assert_eq!(orch.current_stage(), *stage);
        assert_eq!(orch.is_done(), k == expected.len() - 1);
        if !orch.is_done() {
            orch.step(StageEvent::Completed);
        }
    }
    assert!(orch.succeeded());
}

#[test]
fn test_nonzero_shell_exit_still_reaches_shutdown_and_reports_completion() {
    let mut orch = Orchestrator::new();
    while !matches!(orch.current_stage(), Stage::ExecutingShell) {
        orch.step(StageEvent::Completed);
    }
    orch.step(StageEvent::ShellExited(2));
    assert_eq!(orch.current_stage(), Stage::ShuttingDown);
    assert!(orch.succeeded());
    orch.step(StageEvent::Completed);
    assert!(orch.is_done());
    assert!(orch.succeeded());
    assert_eq!(orch.first_failure(), None);
}

#[test]
fn test_mount_failure_jumps_directly_to_shutdown() {
    let mut orch = Orchestrator::new();
    while !matches!(orch.current_stage(), Stage::MountingShares) {
        orch.step(StageEvent::Completed);
    }
    orch.step(StageEvent::Failed(FailureKind::Mount));
    assert_eq!(orch.current_stage(), Stage::ShuttingDown);
    assert!(!orch.succeeded());
    orch.step(StageEvent::Completed);
    assert!(orch.is_done());
    assert_eq!(orch.first_failure(), Some(FailureKind::Mount));
}

#[test]
fn test_first_failure_wins_over_shutdown_failure() {
    let mut orch = Orchestrator::new();
    orch.step(StageEvent::Failed(FailureKind::Config));
    assert_eq!(orch.current_stage(), Stage::ShuttingDown);
    orch.step(StageEvent::Failed(FailureKind::Shutdown));
    assert!(orch.is_done());
    assert_eq!(orch.first_failure(), Some(FailureKind::Config));
}

#[test]
fn test_shutdown_failure_on_clean_run_is_recorded() {
    let mut orch = Orchestrator::new();
    while !matches!(orch.current_stage(), Stage::ShuttingDown) {
        orch.step(StageEvent::Completed);
    }
    assert!(orch.succeeded());
    orch.step(StageEvent::Failed(FailureKind::Shutdown));
    assert!(orch.is_done());
    assert_eq!(orch.first_failure(), Some(FailureKind::Shutdown));
}

#[test]
fn test_kernel_mount_table_contents() {
    let table = kernel_mounts();
    assert_eq!(table.len(), 4);
    assert_eq!(table[0].source, "proc");
    assert_eq!(table[0].target, "/proc");
    assert_eq!(table[0].fstype, "proc");
    assert_eq!(table[0].data, "");
    assert_eq!(table[1].target, "/sys");
    assert_eq!(table[1].fstype, "sysfs");
    assert_eq!(table[2].target, "/dev");
    assert_eq!(table[2].fstype, "devtmpfs");
    assert_eq!(table[3].target, "/run");
    assert_eq!(table[3].fstype, "tmpfs");
    assert_eq!(table[3].data, "mode=0755");
    for m in &table {
        assert_eq!(m.flags, 0);
    }
}

#[test]
fn test_plain_mount_plan_mounts_at_path() {
    let config =
        parse_cmdline("init.console=c init.shell=`sh` init.virtiofs=share:/mnt/share").unwrap();
    let plan = build_mount_plan(&config.virtiofs_mounts);
    assert_eq!(plan.len(), 2);
    assert_eq!(plan[0], MountAction::EnsureDir { path: "/mnt/share".to_string() });
    assert_eq!(
        plan[1],
        MountAction::MountVirtiofs { tag: "share".to_string(), target: "/mnt/share".to_string() }
    );
}

#[test]
fn test_overlay_mount_plan_stages_and_composes() {
    let config =
        parse_cmdline("init.console=c init.shell=`sh` init.virtiofs=share:/mnt/share:Y").unwrap();
    let plan = build_mount_plan(&config.virtiofs_mounts);
    assert_eq!(plan.len(), 8);
    assert_eq!(plan[0], MountAction::EnsureDir { path: "/mnt/share".to_string() });
    assert_eq!(plan[1], MountAction::EnsureDir { path: "/run/virtiofs/share".to_string() });
    assert_eq!(
        plan[2],
        MountAction::MountVirtiofs {
            tag: "share".to_string(),
            target: "/run/virtiofs/share".to_string(),
        }
    );
    assert_eq!(plan[3], MountAction::EnsureDir { path: "/run/overlay/share".to_string() });
    assert_eq!(plan[4], MountAction::MountTmpfs { target: "/run/overlay/share".to_string() });
    assert_eq!(plan[5], MountAction::EnsureDir { path: "/run/overlay/share/upper".to_string() });
    assert_eq!(plan[6], MountAction::EnsureDir { path: "/run/overlay/share/work".to_string() });
    assert_eq!(
        plan[7],
        MountAction::MountOverlay {
            lower: "/run/virtiofs/share".to_string(),
            upper: "/run/overlay/share/upper".to_string(),
            work: "/run/overlay/share/work".to_string(),
            target: "/mnt/share".to_string(),
        }
    );
}

#[test]
fn test_mixed_mount_plan_keeps_declaration_order() {
    let config =
        parse_cmdline("init.console=c init.shell=`sh` init.virtiofs=a:/a,b:/b:Y").unwrap();
    let plan = build_mount_plan(&config.virtiofs_mounts);
    assert_eq!(plan.len(), 10);
    assert_eq!(plan[0], MountAction::EnsureDir { path: "/a".to_string() });
    assert_eq!(
        plan[1],
        MountAction::MountVirtiofs { tag: "a".to_string(), target: "/a".to_string() }
    );
    assert_eq!(plan[2], MountAction::EnsureDir { path: "/b".to_string() });
}

#[test]
fn test_module_file_names() {
    assert!(is_module_file("virtio_net.ko"));
    assert!(is_module_file("virtio_net.ko.xz"));
    assert!(is_module_file("virtio_net.ko.gz"));
    assert!(!is_module_file("virtio_net.txt"));
    assert!(!is_module_file("virtio_net.ko.zst"));
    assert!(!is_module_file("ko"));
    assert!(!is_module_file(""));
    assert!(is_module_file(".ko"));
}

#[test]
fn test_module_load_summary_counts() {
    let mut summary = ModuleLoadSummary::new();
    summary.record(true);
    summary.record(false);
    summary.record(true);
    assert_eq!(summary.loaded, 2);
    assert_eq!(summary.failed, 1);
    assert_eq!(summary.total(), 3);
}
