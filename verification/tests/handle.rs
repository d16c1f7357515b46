use agentfs_fskit::handle::{open_step, BackingPlan, OpenEvent, OpenStage, OpenStep};

fn advance(step: OpenStep) -> OpenStage {
    match step {
        OpenStep::Advance(stage) => stage,
        _ => panic!("expected the pipeline to advance"),
    }
}

#[test]
fn open_without_overlay_backs_the_handle_with_the_store() {
    let s = advance(open_step(OpenStage::DecodeLocation, OpenEvent::StageOk));
    let s = advance(open_step(s, OpenEvent::StageOk));
    let s = advance(open_step(s, OpenEvent::StageOk));
    let s = advance(open_step(s, OpenEvent::StageOk));
    let step = open_step(s, OpenEvent::OverlayConfig(None));
    assert!(matches!(step, OpenStep::Ready(BackingPlan::DatabaseOnly)));
}

#[test]
fn recorded_base_path_composes_the_overlay() {
    let s = advance(open_step(OpenStage::DecodeLocation, OpenEvent::StageOk));
    let s = advance(open_step(s, OpenEvent::StageOk));
    let s = advance(open_step(s, OpenEvent::StageOk));
    let s = advance(open_step(s, OpenEvent::StageOk));
    let s = advance(open_step(s, OpenEvent::OverlayConfig(Some(b"/base".to_vec()))));
    let step = open_step(s, OpenEvent::StageOk);
    match step {
        OpenStep::Ready(BackingPlan::Overlay(base)) => assert_eq!(base, b"/base".to_vec()),
        _ => panic!("expected an overlay plan"),
    }
}

#[test]
fn any_stage_failure_yields_no_handle() {
    let step = open_step(OpenStage::DecodeLocation, OpenEvent::StageFailed);
    assert!(matches!(step, OpenStep::NoHandle));
    let step = open_step(OpenStage::OpenStore, OpenEvent::StageFailed);
    assert!(matches!(step, OpenStep::NoHandle));
    let step = open_step(OpenStage::ComposeOverlay(b"/base".to_vec()), OpenEvent::StageFailed);
    assert!(matches!(step, OpenStep::NoHandle));
}
