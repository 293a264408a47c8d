use tessera_bridge::assist::{id_text, CullSession};
use tessera_bridge::people::{build_people, AnalysisOptions, AnalysisPlan, analysis_plan, FaceRef};
use tessera_bridge::viewport::SurfaceCursor;

#[test]
fn cancelled_frames_do_not_advance_the_surface_ring() {
    let mut ring = SurfaceCursor(None);
    assert_eq!(ring.candidate(&vec![]), None);
    assert_eq!(ring.candidate(&vec![10, 20]), Some(0));
    ring.published(10);
    // Three jobs cancelled before publication must keep using B, while A
    // remains displayed. The session write lock prevents overlapping jobs.
    for _ in 0..3 {
        assert_eq!(ring.candidate(&vec![10, 20]), Some(1));
    }
    ring.published(20);
    assert_eq!(ring.candidate(&vec![10, 20]), Some(0));
    assert_eq!(ring.candidate(&vec![20, 10]), Some(1));
    assert_eq!(ring.candidate(&vec![20]), Some(0));
    assert_eq!(ring.candidate(&vec![20, 30]), Some(1));
}

fn face(image: u128, ordinal: u32, sharpness_rank: u64) -> FaceRef {
    FaceRef { image, ordinal, sharpness_rank }
}

fn sample_faces() -> Vec<FaceRef> {
    vec![face(1, 0, 5), face(2, 0, 9), face(3, 1, 9), face(3, 0, 1)]
}

#[test]
fn people_are_listed_most_frequent_first() {
    let people = build_people(&vec![1, 2, 3], &sample_faces(), &vec![vec![3], vec![0, 1, 2]]);
    assert_eq!(people.list.len(), 2);
    let first = &people.list[0];
    assert_eq!(first.id, "person-1");
    assert_eq!(first.name, "Person 1");
    assert_eq!(first.images, vec![id_text(1), id_text(2), id_text(3)]);
    assert_eq!(first.faces, 3);
    // Faces 1 and 2 are equally sharp: the first of them is the cover.
    assert_eq!(first.cover_image, id_text(2));
    assert_eq!(first.cover_ordinal, 0);
    let second = &people.list[1];
    assert_eq!(second.id, "person-2");
    assert_eq!(second.name, "Person 2");
    assert_eq!(second.images, vec![id_text(3)]);
    assert_eq!(second.faces, 1);
    assert_eq!(second.cover_image, id_text(3));
    assert_eq!(second.cover_ordinal, 0);
}

#[test]
fn equally_frequent_people_keep_the_smallest_face_first() {
    let faces = vec![face(1, 0, 1), face(2, 0, 1), face(1, 1, 1)];
    let people = build_people(&vec![2, 1], &faces, &vec![vec![2], vec![1], vec![0]]);
    let covers: Vec<(String, u32)> = people.list.iter().map(|p| (p.cover_image.clone(), p.cover_ordinal)).collect();
    assert_eq!(covers, vec![(id_text(1), 0), (id_text(2), 0), (id_text(1), 1)]);
    let ids: Vec<String> = people.list.iter().map(|p| p.id.clone()).collect();
    assert_eq!(ids, vec!["person-1", "person-2", "person-3"]);
}

#[test]
fn a_person_lists_images_in_queue_order_once() {
    let faces = vec![face(9, 0, 1), face(7, 0, 1), face(9, 1, 2)];
    let people = build_people(&vec![7, 8, 9], &faces, &vec![vec![0, 1, 2]]);
    assert_eq!(people.list[0].images, vec![id_text(7), id_text(9)]);
    assert_eq!(people.list[0].faces, 3);
    assert_eq!(people.list[0].cover_image, id_text(9));
    assert_eq!(people.list[0].cover_ordinal, 1);
}

#[test]
fn a_queue_holds_each_image_once() {
    assert!(CullSession::for_queue(vec![1, 2, 1]).is_none());
    let s = CullSession::for_queue(vec![1, 2, 3]).unwrap();
    assert_eq!(s.queue_ids(), vec![id_text(1), id_text(2), id_text(3)]);
}

#[test]
fn people_are_clustered_once_until_refreshed() {
    let mut s = CullSession::for_queue(vec![1, 2, 3]).unwrap();
    assert!(s.people(false).is_none());
    let listed = s.cluster_people(&sample_faces(), &vec![vec![3], vec![0, 1, 2]]).unwrap();
    assert_eq!(listed.len(), 2);
    let again = s.people(false).unwrap();
    assert_eq!(again.len(), 2);
    assert_eq!(again[0].id, "person-1");
    assert_eq!(again[1].images, vec![id_text(3)]);
    assert!(s.people(true).is_none());
    assert!(s.people(false).is_none());
}

#[test]
fn clusterings_that_do_not_fit_the_queue_are_refused() {
    let mut s = CullSession::for_queue(vec![1, 2]).unwrap();
    assert!(s.cluster_people(&sample_faces(), &vec![vec![0]]).is_none());
    let faces = vec![face(1, 0, 1)];
    assert!(s.cluster_people(&faces, &vec![vec![]]).is_none());
    assert!(s.cluster_people(&faces, &vec![vec![1]]).is_none());
    assert!(s.people(false).is_none());
    assert!(s.cluster_people(&faces, &vec![vec![0]]).is_some());
}

#[test]
fn reordering_needs_a_review() {
    let mut s = CullSession::for_queue(vec![1, 2, 3]).unwrap();
    let e = s.reorder_queue().unwrap_err();
    assert_eq!(e.message_text(), "call review() first");
    assert!(!s.record_review(vec![3, 1]));
    assert!(!s.record_review(vec![3, 1, 1]));
    assert!(!s.record_review(vec![3, 1, 4]));
    assert!(s.record_review(vec![3, 1, 2]));
    assert_eq!(s.reorder_queue().unwrap(), vec![id_text(3), id_text(1), id_text(2)]);
    assert_eq!(s.queue_ids(), vec![id_text(3), id_text(1), id_text(2)]);
    s.invalidate();
    assert_eq!(s.reorder_queue().unwrap_err().message_text(), "call review() first");
}

#[test]
fn dismissed_suggestions_cannot_be_confirmed() {
    let mut s = CullSession::for_queue(vec![1, 2, 3]).unwrap();
    assert!(s.record_review(vec![2, 1, 3]));
    assert!(s.suggestion_shown(2));
    assert_eq!(
        s.dismiss_suggestions(vec!["zz".to_string()]).unwrap_err().message_text(),
        "image_id must contain 32 hexadecimal characters"
    );
    assert!(s.suggestion_shown(2));
    s.dismiss_suggestions(vec![id_text(2)]).unwrap();
    assert!(!s.suggestion_shown(2));
    assert!(s.suggestion_shown(1));
    let e = s.take_confirmation(&vec![id_text(1), id_text(2)]).unwrap_err();
    assert_eq!(e.message_text(), "a dismissed suggestion cannot be confirmed");
    // The plan is still there: a confirmation without the dismissed one goes through.
    let (ids, plan) = s.take_confirmation(&vec![id_text(1)]).unwrap();
    assert_eq!(ids, vec![1]);
    assert_eq!(plan, vec![2, 1, 3]);
    // The plan is used up.
    let e = s.take_confirmation(&vec![id_text(1)]).unwrap_err();
    assert_eq!(e.message_text(), "call review() first");
}

#[test]
fn switching_assistance_forgets_dismissals() {
    let mut s = CullSession::for_queue(vec![1, 2]).unwrap();
    s.dismiss_suggestions(vec![id_text(1)]).unwrap();
    assert!(s.record_review(vec![1, 2]));
    s.switch_assistance();
    assert!(s.suggestion_shown(1));
    assert_eq!(s.take_confirmation(&vec![id_text(1)]).unwrap_err().message_text(), "call review() first");
    assert!(s.record_review(vec![2, 1]));
    assert!(s.take_confirmation(&vec![id_text(1)]).is_ok());
}

#[test]
fn malformed_confirmations_are_refused_first() {
    let mut s = CullSession::for_queue(vec![1]).unwrap();
    assert_eq!(
        s.take_confirmation(&vec!["x".to_string()]).unwrap_err().message_text(),
        "image_id must contain 32 hexadecimal characters"
    );
}

#[test]
fn analysis_runs_what_is_missing_or_forced() {
    let all = AnalysisOptions { quality: true, faces: true, force: false };
    assert_eq!(analysis_plan(all, true, false), AnalysisPlan { quality: false, faces: true, skipped: false });
    assert_eq!(analysis_plan(all, false, false), AnalysisPlan { quality: true, faces: true, skipped: false });
    assert_eq!(analysis_plan(all, true, true), AnalysisPlan { quality: false, faces: false, skipped: true });
    let forced = AnalysisOptions { quality: true, faces: false, force: true };
    assert_eq!(analysis_plan(forced, true, true), AnalysisPlan { quality: true, faces: false, skipped: false });
    // With force on a call is never skipped, even when it asks for nothing.
    let nothing = AnalysisOptions { quality: false, faces: false, force: true };
    assert_eq!(analysis_plan(nothing, true, true), AnalysisPlan { quality: false, faces: false, skipped: false });
    let none_asked = AnalysisOptions { quality: false, faces: false, force: false };
    assert_eq!(analysis_plan(none_asked, false, false), AnalysisPlan { quality: false, faces: false, skipped: true });
}

#[test]
fn each_face_maps_to_its_person() {
    let people = build_people(&vec![1, 2, 3], &sample_faces(), &vec![vec![3], vec![0, 1, 2]]);
    assert_eq!(people.faces_of, vec![vec![(1, 0), (2, 0), (3, 1)], vec![(3, 0)]]);
    let mut s = CullSession::for_queue(vec![1, 2, 3]).unwrap();
    assert_eq!(s.person_of_face(1, 0), None);
    s.cluster_people(&sample_faces(), &vec![vec![3], vec![0, 1, 2]]).unwrap();
    assert_eq!(s.person_of_face(2, 0), Some("person-1".to_string()));
    assert_eq!(s.person_of_face(3, 0), Some("person-2".to_string()));
    assert_eq!(s.person_of_face(3, 7), None);
}
