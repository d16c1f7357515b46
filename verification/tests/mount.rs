use agentfs_fskit::mount::{
    build_resource_url, error_message, extension_installed, mount_step, parse_major,
    platform_supported, unmount_detected, MountError, MountEvent, MountStage, MountStep,
};

#[test]
fn parses_the_major_version() {
    assert_eq!(parse_major(&b"26.1".to_vec()), 26);
    assert_eq!(parse_major(&b"26".to_vec()), 26);
    assert_eq!(parse_major(&b" 15.4.1 \n".to_vec()), 15);
    assert_eq!(parse_major(&b"abc".to_vec()), 0);
    assert_eq!(parse_major(&b"".to_vec()), 0);
    assert_eq!(parse_major(&b".5".to_vec()), 0);
    assert_eq!(parse_major(&b"2x.1".to_vec()), 0);
    assert_eq!(parse_major(&b"99999999999.0".to_vec()), 0);
}

#[test]
fn platform_gate_compares_against_the_threshold() {
    assert!(platform_supported(&b"26.0".to_vec()));
    assert!(platform_supported(&b"27.1".to_vec()));
    assert!(!platform_supported(&b"15.4".to_vec()));
    assert!(!platform_supported(&b"nonsense".to_vec()));
}

#[test]
fn extension_lookup_matches_by_substring() {
    assert!(extension_installed(&b"enabled  active  io.turso.agentfs (1.0)".to_vec()));
    assert!(extension_installed(&b"* AgentFS File System Extension".to_vec()));
    assert!(!extension_installed(&b"com.example.other".to_vec()));
    assert!(!extension_installed(&b"".to_vec()));
}

#[test]
fn low_platform_fails_before_the_extension_is_checked() {
    let step = mount_step(
        MountStage::Resolve,
        MountEvent::Resolved(Some(b"/data/a.db".to_vec())),
        false,
    );
    let next = match step {
        MountStep::Advance(stage) => stage,
        _ => panic!("resolution should advance"),
    };
    assert_eq!(next, MountStage::CheckPlatform);
    let step = mount_step(next, MountEvent::PlatformVersion(Some(b"15.4".to_vec())), false);
    assert!(matches!(step, MountStep::Fail(MountError::UnsupportedPlatform)));
}

#[test]
fn ephemeral_target_is_rejected_at_resolution() {
    let step = mount_step(MountStage::Resolve, MountEvent::Resolved(None), false);
    assert!(matches!(step, MountStep::Fail(MountError::EphemeralTarget)));
}

#[test]
fn missing_mountpoint_fails_before_the_mount_is_invoked() {
    let step = mount_step(MountStage::ValidateTarget, MountEvent::TargetExists(false), false);
    assert!(matches!(step, MountStep::Fail(MountError::MountpointMissing)));
}

#[test]
fn tool_failure_surfaces_the_diagnostic_text() {
    let step = mount_step(
        MountStage::Invoke,
        MountEvent::MountExit { success: false, stderr: b"mount_agentfs: no extension\n".to_vec() },
        false,
    );
    let err = match step {
        MountStep::Fail(e) => e,
        _ => panic!("a non-zero exit should fail"),
    };
    let message = String::from_utf8(error_message(&err)).unwrap();
    assert!(message.contains("mount_agentfs: no extension"));
    assert!(message.starts_with("Mount failed: "));
}

#[test]
fn successful_invoke_finishes_or_waits() {
    let done = mount_step(
        MountStage::Invoke,
        MountEvent::MountExit { success: true, stderr: Vec::new() },
        false,
    );
    assert!(matches!(done, MountStep::Finished));
    let waiting = mount_step(
        MountStage::Invoke,
        MountEvent::MountExit { success: true, stderr: Vec::new() },
        true,
    );
    assert!(matches!(waiting, MountStep::Advance(MountStage::ForegroundWait)));
    let finished = mount_step(MountStage::ForegroundWait, MountEvent::Unmounted, true);
    assert!(matches!(finished, MountStep::Finished));
}

#[test]
fn resource_url_uses_the_file_scheme() {
    assert_eq!(build_resource_url(&b"/data/a.db".to_vec()), b"file:///data/a.db".to_vec());
}

#[test]
fn unmount_detection_compares_device_identity() {
    assert!(!unmount_detected(7, Some(7)));
    assert!(unmount_detected(7, Some(8)));
    assert!(unmount_detected(7, None));
}
