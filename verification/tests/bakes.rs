use tessera_bridge::bakes::{bake_step, effect_blocks, next_job, preview_lands, Bake, BakeDecision, BakeJob, Region, WorkerStep};

fn r(x0: i64, y0: i64, x1: i64, y1: i64) -> Region {
    Region { x0, y0, x1, y1 }
}

#[test]
fn a_fresh_bake_at_the_level_or_finer_is_good() {
    let b = Bake { key: "k".to_string(), level: 1, fine: vec![] };
    assert_eq!(bake_step("k", 1, Some(&b), None, None), BakeDecision::Good);
    assert_eq!(bake_step("k", 3, Some(&b), None, None), BakeDecision::Good);
    // a stale key is never good
    assert_eq!(bake_step("other", 3, Some(&b), None, None), BakeDecision::Queue { level: 3, region: None });
}

#[test]
fn level_zero_refines_the_view_of_a_fresh_bake() {
    let w = r(0, 0, 512, 512);
    let b = Bake { key: "k".to_string(), level: 1, fine: vec![r(-512, 0, 1024, 1024)] };
    assert_eq!(bake_step("k", 0, Some(&b), Some(w), None), BakeDecision::Good);
    let b = Bake { key: "k".to_string(), level: 1, fine: vec![r(0, 0, 256, 512)] };
    assert_eq!(bake_step("k", 0, Some(&b), Some(w), None), BakeDecision::Queue { level: 0, region: Some(w) });
    // without a fresh bake, a full bake at level 1 comes first
    assert_eq!(bake_step("k", 0, None, Some(w), None), BakeDecision::Queue { level: 1, region: None });
}

#[test]
fn the_same_job_is_not_queued_twice() {
    let job = BakeJob { key: "k".to_string(), level: 2, region: None };
    assert_eq!(bake_step("k", 2, None, None, Some(&job)), BakeDecision::AlreadyQueued);
    let job = BakeJob { key: "old".to_string(), level: 2, region: None };
    assert_eq!(bake_step("k", 2, None, None, Some(&job)), BakeDecision::Queue { level: 2, region: None });
}

#[test]
fn the_worker_takes_previews_first_then_the_lowest_bake() {
    assert_eq!(next_job(true, true, &vec![3]), WorkerStep::Stop);
    assert_eq!(next_job(false, true, &vec![3]), WorkerStep::Preview);
    assert_eq!(next_job(false, false, &vec![7, 3, 9]), WorkerStep::Bake { layer: 3 });
    assert_eq!(next_job(false, false, &vec![]), WorkerStep::Wait);
}

#[test]
fn only_the_current_uncancelled_preview_lands() {
    assert!(preview_lands(4, 4, false));
    assert!(!preview_lands(5, 4, false));
    assert!(!preview_lands(4, 4, true));
}

#[test]
fn filters_run_in_blocks_of_twice_their_halo() {
    // halo 10: blocks of 256, cut at the edges, row by row
    let b = effect_blocks(r(0, 0, 600, 300), 10);
    assert_eq!(
        b,
        vec![
            r(0, 0, 256, 256), r(256, 0, 512, 256), r(512, 0, 600, 256),
            r(0, 256, 256, 300), r(256, 256, 512, 300), r(512, 256, 600, 300),
        ]
    );
    // halo 300: blocks of 600; halo 900: at most 1024
    assert_eq!(effect_blocks(r(-100, 0, 700, 10), 300), vec![r(-100, 0, 500, 10), r(500, 0, 700, 10)]);
    assert_eq!(effect_blocks(r(0, 0, 2000, 10), 900), vec![r(0, 0, 1024, 10), r(1024, 0, 2000, 10)]);
    assert!(effect_blocks(r(5, 5, 5, 9), 1).is_empty());
}
