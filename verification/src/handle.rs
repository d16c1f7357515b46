//! Handle lifecycle: the staged open pipeline that either yields a fully
//! backed handle or no handle at all. Each stage is one fallible outside
//! step (decoding the location, building the bridge execution context,
//! resolving the configuration, opening the store, probing the overlay
//! configuration, composing the overlay); the caller reports how it went
//! and the machine decides. No failing path yields a partial handle.

use vstd::prelude::*;

verus! {

/// The stages an open passes through, in order. Composing the overlay only
/// happens when the configuration probe recorded a base path, which the
/// stage carries.
pub enum OpenStage {
    DecodeLocation,
    BuildContext,
    ResolveConfig,
    OpenStore,
    QueryOverlay,
    ComposeOverlay(Vec<u8>),
}

/// What the caller observed for the pending open stage.
pub enum OpenEvent {
    /// The stage's outside step succeeded.
    StageOk,
    /// The stage's outside step failed.
    StageFailed,
    /// The overlay probe finished: a recorded base path, or none. A failed
    /// probe reads as none, as the store then backs the handle directly.
    OverlayConfig(Option<Vec<u8>>),
}

/// Which capability composition backs the handle.
pub enum BackingPlan {
    /// A read-only passthrough over the base path, with the store layered
    /// above as the mutable, copy-on-write side.
    Overlay(Vec<u8>),
    /// The store alone.
    DatabaseOnly,
}

/// One decision of the open pipeline.
pub enum OpenStep {
    Advance(OpenStage),
    Ready(BackingPlan),
    NoHandle,
}

/// Which events answer which open stage.
pub open spec fn open_accepts(stage: OpenStage, event: OpenEvent) -> bool {
    match stage {
        OpenStage::QueryOverlay => event is OverlayConfig,
        _ => event is StageOk || event is StageFailed,
    }
}

/// What the pipeline decides at each stage for each observation.
pub open spec fn open_step_spec(stage: OpenStage, event: OpenEvent) -> OpenStep {
    match (stage, event) {
        (_, OpenEvent::StageFailed) => OpenStep::NoHandle,
        (OpenStage::DecodeLocation, OpenEvent::StageOk) => OpenStep::Advance(
            OpenStage::BuildContext,
        ),
        (OpenStage::BuildContext, OpenEvent::StageOk) => OpenStep::Advance(
            OpenStage::ResolveConfig,
        ),
        (OpenStage::ResolveConfig, OpenEvent::StageOk) => OpenStep::Advance(OpenStage::OpenStore),
        (OpenStage::OpenStore, OpenEvent::StageOk) => OpenStep::Advance(OpenStage::QueryOverlay),
        (OpenStage::QueryOverlay, OpenEvent::OverlayConfig(Some(base))) => OpenStep::Advance(
            OpenStage::ComposeOverlay(base),
        ),
        (OpenStage::QueryOverlay, OpenEvent::OverlayConfig(None)) => OpenStep::Ready(
            BackingPlan::DatabaseOnly,
        ),
        (OpenStage::ComposeOverlay(base), OpenEvent::StageOk) => OpenStep::Ready(
            BackingPlan::Overlay(base),
        ),
        _ => OpenStep::NoHandle,
    }
}

/// Decide the open pipeline's next move.
pub fn open_step(stage: OpenStage, event: OpenEvent) -> (r: OpenStep)
    requires
        open_accepts(stage, event),
    ensures
        r == open_step_spec(stage, event),
{
    match (stage, event) {
        (_, OpenEvent::StageFailed) => OpenStep::NoHandle,
        (OpenStage::DecodeLocation, OpenEvent::StageOk) => OpenStep::Advance(
            OpenStage::BuildContext,
        ),
        (OpenStage::BuildContext, OpenEvent::StageOk) => OpenStep::Advance(
            OpenStage::ResolveConfig,
        ),
        (OpenStage::ResolveConfig, OpenEvent::StageOk) => OpenStep::Advance(OpenStage::OpenStore),
        (OpenStage::OpenStore, OpenEvent::StageOk) => OpenStep::Advance(OpenStage::QueryOverlay),
        (OpenStage::QueryOverlay, OpenEvent::OverlayConfig(Some(base))) => OpenStep::Advance(
            OpenStage::ComposeOverlay(base),
        ),
        (OpenStage::QueryOverlay, OpenEvent::OverlayConfig(None)) => OpenStep::Ready(
            BackingPlan::DatabaseOnly,
        ),
        (OpenStage::ComposeOverlay(base), OpenEvent::StageOk) => OpenStep::Ready(
            BackingPlan::Overlay(base),
        ),
        _ => OpenStep::NoHandle,
    }
}

/// Run the open pipeline over observations in order.
pub open spec fn open_run_spec(stage: OpenStage, events: Seq<OpenEvent>) -> OpenStep
    decreases events.len(),
{
    if events.len() == 0 {
        OpenStep::Advance(stage)
    } else {
        match open_step_spec(stage, events[0]) {
            OpenStep::Advance(next) => open_run_spec(next, events.drop_first()),
            OpenStep::Ready(plan) => OpenStep::Ready(plan),
            OpenStep::NoHandle => OpenStep::NoHandle,
        }
    }
}

/// An open whose every outside step succeeds yields a backed handle: the
/// store alone when no overlay base is recorded, and the overlay
/// composition over the recorded base when one is.
pub proof fn lemma_open_completes(base: Option<Vec<u8>>)
    ensures
        open_run_spec(
            OpenStage::DecodeLocation,
            seq![
                OpenEvent::StageOk,
                OpenEvent::StageOk,
                OpenEvent::StageOk,
                OpenEvent::StageOk,
                OpenEvent::OverlayConfig(base),
            ] + (if base is Some {
                seq![OpenEvent::StageOk]
            } else {
                Seq::empty()
            }),
        ) == OpenStep::Ready(
            match base {
                Some(b) => BackingPlan::Overlay(b),
                None => BackingPlan::DatabaseOnly,
            },
        ),
{
    let tail: Seq<OpenEvent> = if base is Some {
        seq![OpenEvent::StageOk]
    } else {
        Seq::empty()
    };
    let ok = OpenEvent::StageOk;
    let probe = OpenEvent::OverlayConfig(base);
    let evs = seq![ok, ok, ok, ok, probe] + tail;
    assert(evs[0] == ok);
    assert(evs.drop_first() =~= seq![ok, ok, ok, probe] + tail);
    let r1 = evs.drop_first();
    assert(r1[0] == ok);
    assert(r1.drop_first() =~= seq![ok, ok, probe] + tail);
    let r2 = r1.drop_first();
    assert(r2[0] == ok);
    assert(r2.drop_first() =~= seq![ok, probe] + tail);
    let r3 = r2.drop_first();
    assert(r3[0] == ok);
    assert(r3.drop_first() =~= seq![probe] + tail);
    let r4 = r3.drop_first();
    assert(r4[0] == probe);
    assert(r4.drop_first() =~= tail);
    assert(open_run_spec(OpenStage::DecodeLocation, evs) == open_run_spec(
        OpenStage::BuildContext,
        r1,
    ));
    assert(open_run_spec(OpenStage::BuildContext, r1) == open_run_spec(
        OpenStage::ResolveConfig,
        r2,
    ));
    assert(open_run_spec(OpenStage::ResolveConfig, r2) == open_run_spec(OpenStage::OpenStore, r3));
    assert(open_run_spec(OpenStage::OpenStore, r3) == open_run_spec(OpenStage::QueryOverlay, r4));
    match base {
        Some(b) => {
            assert(open_step_spec(OpenStage::QueryOverlay, probe) == OpenStep::Advance(
                OpenStage::ComposeOverlay(b),
            ));
            assert(open_run_spec(OpenStage::QueryOverlay, r4) == open_run_spec(
                OpenStage::ComposeOverlay(b),
                tail,
            ));
            assert(tail[0] == ok);
            assert(tail.drop_first() =~= Seq::<OpenEvent>::empty());
            assert(open_step_spec(OpenStage::ComposeOverlay(b), ok) == OpenStep::Ready(
                BackingPlan::Overlay(b),
            ));
            assert(open_run_spec(OpenStage::ComposeOverlay(b), tail) == OpenStep::Ready(
                BackingPlan::Overlay(b),
            ));
        },
        None => {
            assert(open_step_spec(OpenStage::QueryOverlay, probe) == OpenStep::Ready(
                BackingPlan::DatabaseOnly,
            ));
            assert(open_run_spec(OpenStage::QueryOverlay, r4) == OpenStep::Ready(
                BackingPlan::DatabaseOnly,
            ));
        },
    }
}

/// A failing stage ends the open with no handle, whatever observations
/// would have followed: a failure can never yield a partially initialized
/// handle.
pub proof fn lemma_no_partial_handle(stage: OpenStage, later: Seq<OpenEvent>)
    ensures
        open_run_spec(stage, seq![OpenEvent::StageFailed] + later) == OpenStep::NoHandle,
{
    let evs = seq![OpenEvent::StageFailed] + later;
    assert(evs[0] == OpenEvent::StageFailed);
    assert(open_step_spec(stage, evs[0]) == OpenStep::NoHandle);
}

} // verus!
