use tessera_bridge::drag::{frame_done, render_plan, DragLevel, FrameOutcome, RenderPlan, MAX_DRAG_OFFSET};

#[test]
fn the_cold_first_frame_is_ignored() {
    let mut d = DragLevel::starting_at(0);
    assert_eq!(d.record(true, false), FrameOutcome::Ignored);
    assert_eq!(d, DragLevel { offset: 0, misses: 0, warm: true });
}

#[test]
fn a_single_spike_keeps_the_screen_level() {
    let mut d = DragLevel::starting_at(0);
    d.record(false, false);
    assert_eq!(d.record(true, false), FrameOutcome::Kept);
    assert_eq!(d.offset, 0);
    assert_eq!(d.misses, 1);
    assert_eq!(d.record(false, false), FrameOutcome::Kept);
    assert_eq!(d.misses, 0);
}

#[test]
fn sustained_misses_drop_one_level_and_start_cold() {
    let mut d = DragLevel::starting_at(1);
    d.record(false, false);
    d.record(true, false);
    assert_eq!(d.record(true, false), FrameOutcome::Moved);
    assert_eq!(d, DragLevel::starting_at(2));
}

#[test]
fn a_fitting_finer_level_is_taken() {
    let mut d = DragLevel::starting_at(2);
    d.record(false, true);
    assert_eq!(d.record(false, true), FrameOutcome::Moved);
    assert_eq!(d.offset, 1);
    let mut d = DragLevel::starting_at(0);
    d.record(false, true);
    assert_eq!(d.record(false, true), FrameOutcome::Kept);
    assert_eq!(d.offset, 0);
}

#[test]
fn the_drag_never_goes_past_the_limit() {
    let mut d = DragLevel::starting_at(MAX_DRAG_OFFSET);
    for _ in 0..4 {
        d.record(true, false);
    }
    assert_eq!(d.offset, MAX_DRAG_OFFSET);
    assert_eq!(MAX_DRAG_OFFSET, 4);
}

/// The host's side of a drag level: the smoothed frame time, and the two
/// decisions it hands the library for each frame.
struct Timed {
    d: DragLevel,
    ms: Option<f64>,
}

impl Timed {
    fn starting_at(offset: u8) -> Self {
        Timed { d: DragLevel::starting_at(offset), ms: None }
    }

    fn record(&mut self, ms: f64) {
        let smoothed = self.ms.map_or(ms, |m| 0.6 * m + 0.4 * ms);
        match self.d.record(ms > 16.0, smoothed * 4.0 <= 12.0) {
            FrameOutcome::Ignored => {}
            FrameOutcome::Kept => self.ms = Some(smoothed),
            FrameOutcome::Moved => self.ms = None,
        }
    }
}

#[test]
fn drag_level_prefers_screen_level_within_the_refresh() {
    let mut d = Timed::starting_at(0);
    // The first frame at a level refills caches: never evidence.
    d.record(200.0);
    assert_eq!(d.d.offset, 0, "cold first frame ignored");
    // Over the preferred 12 ms but within one refresh: stay.
    for ms in [13.0, 15.0, 14.5, 15.9] {
        d.record(ms);
        assert_eq!(d.d.offset, 0, "{ms} ms keeps the screen level");
    }
    // One missed refresh is a spike.
    d.record(45.0);
    d.record(9.0);
    assert_eq!(d.d.offset, 0, "single spike");
    // Two consecutive misses drop one level.
    d.record(20.0);
    d.record(20.0);
    assert_eq!(d.d.offset, 1, "sustained misses drop one level");
    // At the coarser level: the cold frame is ignored, and the level
    // returns only when the finer level is predicted to fit 12 ms.
    d.record(120.0);
    assert_eq!(d.d.offset, 1);
    d.record(5.0);
    assert_eq!(d.d.offset, 1, "5 ms x4 = 20 ms predicted: stay coarser");
    for _ in 0..4 {
        d.record(2.5);
    }
    assert_eq!(d.d.offset, 0, "finer level predicted within 12 ms");
}

#[test]
fn drag_level_adapts_to_the_frame_budget() {
    let mut d = Timed::starting_at(1);
    for ms in [40.0, 40.0, 40.0] {
        d.record(ms);
    }
    assert_eq!(d.d.offset, 2, "over budget: coarser");
    d.record(10.0);
    d.record(10.0);
    d.record(11.0);
    assert_eq!(d.d.offset, 2, "within budget: stays");
    for _ in 0..6 {
        d.record(2.0);
    }
    assert!(d.d.offset < 2, "far under budget: finer");
    let mut d = Timed::starting_at(MAX_DRAG_OFFSET);
    for _ in 0..4 {
        d.record(100.0);
    }
    assert_eq!(d.d.offset, MAX_DRAG_OFFSET);
}

#[test]
fn render_requests_start_the_right_levels() {
    // closed: nothing
    assert_eq!(render_plan(true, false, false, false, None, 3, 2, 6, false, 0, 0), RenderPlan::Closed);
    // a drag whose own frame is in flight waits for it
    assert_eq!(render_plan(false, true, false, true, Some(3), 3, 2, 6, false, 0, 1), RenderPlan::Deferred);
    // an older frame in flight is replaced
    assert_eq!(
        render_plan(false, true, false, true, Some(2), 3, 2, 6, false, 0, 1),
        RenderPlan::Levels { generation: 4, first: 3, finest: 3, interactive: true }
    );
    // a committed render runs at the screen level
    assert_eq!(
        render_plan(false, false, false, true, Some(3), 3, 2, 6, false, 9_000_000, 2),
        RenderPlan::Levels { generation: 4, first: 2, finest: 2, interactive: false }
    );
    // a large non-resident drag starts at least one level coarser, capped
    assert_eq!(
        render_plan(false, true, false, false, None, 0, 2, 6, false, 4_200_001, 0),
        RenderPlan::Levels { generation: 1, first: 3, finest: 3, interactive: true }
    );
    assert_eq!(
        render_plan(false, true, false, false, None, 0, 2, 6, true, 4_200_001, 0),
        RenderPlan::Levels { generation: 1, first: 2, finest: 2, interactive: true }
    );
    assert_eq!(
        render_plan(false, true, false, false, None, 0, 5, 6, false, 0, 4),
        RenderPlan::Levels { generation: 1, first: 6, finest: 6, interactive: true }
    );
    // the mask overlay shows at the screen level
    assert_eq!(render_plan(false, true, true, true, Some(3), 3, 2, 6, false, 0, 1), RenderPlan::Mask { generation: 4, level: 2 });
}

#[test]
fn a_finished_drag_frame_starts_the_queued_render() {
    assert_eq!(frame_done(Some(4), true, 4), (None, false, true));
    assert_eq!(frame_done(Some(4), false, 4), (None, false, false));
    assert_eq!(frame_done(Some(5), true, 4), (Some(5), true, false));
    assert_eq!(frame_done(None, true, 4), (None, true, false));
}
