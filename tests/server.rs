use r2r_interactive_markers::{
    Feedback, InteractiveMarkerServer, MarkerDef, MarkerHeader, MarkerPose, DEFAULT_FEEDBACK_CB, POSE_UPDATE,
};

const BUTTON_CLICK: u8 = 3;
const MENU_SELECT: u8 = 2;

fn header(frame: &str, sec: i32) -> MarkerHeader {
    MarkerHeader { stamp_sec: sec, stamp_nanosec: 0, frame_id: frame.to_string() }
}

fn pose(x: f64) -> MarkerPose {
    MarkerPose {
        position_x: x.to_bits(),
        position_y: 0.0f64.to_bits(),
        position_z: 0.0f64.to_bits(),
        orientation_x: 0.0f64.to_bits(),
        orientation_y: 0.0f64.to_bits(),
        orientation_z: 0.0f64.to_bits(),
        orientation_w: 1.0f64.to_bits(),
    }
}

fn marker(name: &str, x: f64, body: &[u8]) -> MarkerDef {
    MarkerDef { name: name.to_string(), header: header("world", 1), pose: pose(x), body: body.to_vec() }
}

fn feedback(name: &str, event_type: u8, x: f64) -> Feedback {
    Feedback {
        marker_name: name.to_string(),
        client_id: "rviz".to_string(),
        event_type,
        header: header("base_link", 5),
        pose: pose(x),
    }
}

#[test]
fn insert_pose_erase_scenario() {
    let mut s = InteractiveMarkerServer::new("markers");
    s.insert(marker("a", 1.0, &[1, 2]));
    let u = s.apply_changes().unwrap();
    assert_eq!(u.seq_num, 1);
    assert_eq!(u.markers, vec![marker("a", 1.0, &[1, 2])]);
    assert!(u.poses.is_empty());
    assert!(u.erases.is_empty());
    assert_eq!(s.size(), 1);

    assert!(s.set_pose("a", pose(2.0), None));
    assert!(s.set_pose("a", pose(3.0), None));
    let u = s.apply_changes().unwrap();
    assert_eq!(u.seq_num, 2);
    assert!(u.markers.is_empty());
    assert_eq!(u.poses.len(), 1);
    assert_eq!(u.poses[0].name, "a");
    assert_eq!(u.poses[0].pose, pose(3.0));
    assert_eq!(u.poses[0].header, header("world", 1));
    assert!(u.erases.is_empty());

    assert!(s.erase("a"));
    let u = s.apply_changes().unwrap();
    assert_eq!(u.seq_num, 3);
    assert!(u.markers.is_empty());
    assert!(u.poses.is_empty());
    assert_eq!(u.erases, vec!["a".to_string()]);
    assert_eq!(s.size(), 0);
    assert!(s.empty());
}

#[test]
fn feedback_for_unknown_marker_is_dropped() {
    let mut s = InteractiveMarkerServer::new("markers");
    s.insert(marker("a", 1.0, &[]));
    s.apply_changes().unwrap();
    assert_eq!(s.process_feedback(&feedback("ghost", POSE_UPDATE, 4.0), 10), None);
    assert_eq!(s.size(), 1);
    assert_eq!(s.get("ghost"), None);
    assert_eq!(s.get("a"), Some(marker("a", 1.0, &[])));
    assert!(s.apply_changes().is_none());
    assert_eq!(s.sequence_number(), 1);
}

#[test]
fn default_and_typed_handlers() {
    let mut s = InteractiveMarkerServer::new("markers");
    s.insert(marker("a", 1.0, &[]));
    s.apply_changes().unwrap();
    assert!(s.set_callback("a", Some(7), DEFAULT_FEEDBACK_CB));
    assert_eq!(s.process_feedback(&feedback("a", BUTTON_CLICK, 0.0), 1), Some(7));
    assert_eq!(s.process_feedback(&feedback("a", MENU_SELECT, 0.0), 2), Some(7));
    assert!(s.set_callback("a", Some(9), BUTTON_CLICK));
    assert_eq!(s.process_feedback(&feedback("a", BUTTON_CLICK, 0.0), 3), Some(9));
    assert_eq!(s.process_feedback(&feedback("a", MENU_SELECT, 0.0), 4), Some(7));
    assert!(s.set_callback("a", None, BUTTON_CLICK));
    assert_eq!(s.process_feedback(&feedback("a", BUTTON_CLICK, 0.0), 5), Some(7));
    assert!(s.set_callback("a", None, DEFAULT_FEEDBACK_CB));
    assert_eq!(s.process_feedback(&feedback("a", BUTTON_CLICK, 0.0), 6), None);
}

#[test]
fn pose_feedback_stages_pose_change() {
    let mut s = InteractiveMarkerServer::new("markers");
    s.insert(marker("a", 1.0, &[9]));
    s.apply_changes().unwrap();
    assert_eq!(s.process_feedback(&feedback("a", POSE_UPDATE, 4.0), 10), None);
    let seen = s.get("a").unwrap();
    assert_eq!(seen.pose, pose(4.0));
    assert_eq!(seen.header, header("base_link", 5));
    assert_eq!(seen.body, vec![9]);
    let u = s.apply_changes().unwrap();
    assert_eq!(u.seq_num, 2);
    assert_eq!(u.poses.len(), 1);
    assert_eq!(u.poses[0].pose, pose(4.0));
    assert_eq!(u.poses[0].header, header("base_link", 5));
}

#[test]
fn empty_flush_sends_nothing() {
    let mut s = InteractiveMarkerServer::new("markers");
    assert!(s.apply_changes().is_none());
    assert_eq!(s.sequence_number(), 0);
    s.insert(marker("a", 1.0, &[]));
    assert_eq!(s.apply_changes().unwrap().seq_num, 1);
    assert!(s.apply_changes().is_none());
    assert_eq!(s.sequence_number(), 1);
}

#[test]
fn insert_then_flush_adds_one() {
    let mut s = InteractiveMarkerServer::new("markers");
    s.insert(marker("a", 1.0, &[]));
    s.apply_changes().unwrap();
    s.insert(marker("b", 2.0, &[3]));
    assert_eq!(s.size(), 1);
    s.apply_changes().unwrap();
    assert_eq!(s.size(), 2);
    assert_eq!(s.get("b"), Some(marker("b", 2.0, &[3])));
    s.insert(marker("b", 5.0, &[4]));
    s.apply_changes().unwrap();
    assert_eq!(s.size(), 2);
    assert_eq!(s.get("b"), Some(marker("b", 5.0, &[4])));
}

#[test]
fn erase_then_flush_removes_one() {
    let mut s = InteractiveMarkerServer::new("markers");
    s.insert(marker("a", 1.0, &[]));
    s.insert(marker("b", 2.0, &[]));
    s.apply_changes().unwrap();
    assert!(s.erase("a"));
    assert_eq!(s.get("a"), None);
    assert_eq!(s.size(), 2);
    s.apply_changes().unwrap();
    assert_eq!(s.get("a"), None);
    assert_eq!(s.size(), 1);
    assert!(!s.erase("a"));
    assert!(s.apply_changes().is_none());
}

#[test]
fn set_pose_of_unknown_marker_fails() {
    let mut s = InteractiveMarkerServer::new("markers");
    assert!(!s.set_pose("a", pose(1.0), None));
    assert!(!s.set_callback("a", Some(1), DEFAULT_FEEDBACK_CB));
    assert!(!s.erase("a"));
    assert!(s.apply_changes().is_none());
    assert_eq!(s.get("a"), None);
}

#[test]
fn clear_then_flush_empties_registry() {
    let mut s = InteractiveMarkerServer::new("markers");
    s.insert(marker("a", 1.0, &[]));
    s.insert(marker("b", 2.0, &[]));
    s.apply_changes().unwrap();
    s.insert(marker("c", 3.0, &[]));
    s.clear();
    assert_eq!(s.get("c"), None);
    let mut u = s.apply_changes().unwrap();
    u.erases.sort();
    assert_eq!(u.erases, vec!["a".to_string(), "b".to_string()]);
    assert!(u.markers.is_empty());
    assert_eq!(s.size(), 0);
    assert!(s.empty());
}

#[test]
fn sequence_numbers_increase() {
    let mut s = InteractiveMarkerServer::new("markers");
    let mut last = 0;
    for i in 0..5 {
        s.insert(marker(&format!("m{}", i), 0.0, &[]));
        let u = s.apply_changes().unwrap();
        assert!(u.seq_num > last);
        assert_eq!(u.seq_num, s.sequence_number());
        last = u.seq_num;
        assert!(s.apply_changes().is_none());
    }
    assert_eq!(last, 5);
}

#[test]
fn last_write_wins_per_key() {
    let mut s = InteractiveMarkerServer::new("markers");
    s.insert(marker("a", 1.0, &[]));
    s.apply_changes().unwrap();
    s.insert(marker("a", 2.0, &[]));
    assert!(s.set_pose("a", pose(3.0), None));
    assert!(s.erase("a"));
    let u = s.apply_changes().unwrap();
    assert!(u.markers.is_empty());
    assert!(u.poses.is_empty());
    assert_eq!(u.erases, vec!["a".to_string()]);

    assert!(!s.set_pose("a", pose(1.0), None));
    s.insert(marker("a", 1.0, &[]));
    assert!(s.erase("a"));
    s.insert(marker("a", 7.0, &[]));
    let u = s.apply_changes().unwrap();
    assert_eq!(u.markers, vec![marker("a", 7.0, &[])]);
    assert!(u.erases.is_empty());
}

#[test]
fn pose_change_of_uncommitted_marker_is_dropped() {
    let mut s = InteractiveMarkerServer::new("markers");
    s.insert(marker("a", 1.0, &[]));
    assert!(s.set_pose("a", pose(2.0), None));
    assert_eq!(s.get("a"), None);
    assert!(s.apply_changes().is_none());
    assert_eq!(s.sequence_number(), 0);
    assert_eq!(s.size(), 0);
}

#[test]
fn set_pose_header_defaults() {
    let mut s = InteractiveMarkerServer::new("markers");
    s.insert(marker("a", 1.0, &[]));
    s.apply_changes().unwrap();
    assert!(s.set_pose("a", pose(2.0), None));
    assert_eq!(s.get("a").unwrap().header, header("world", 1));
    assert!(s.set_pose("a", pose(3.0), Some(header("map", 8))));
    assert_eq!(s.get("a").unwrap().header, header("map", 8));
    assert!(s.set_pose("a", pose(4.0), None));
    let seen = s.get("a").unwrap();
    assert_eq!(seen.header, header("map", 8));
    assert_eq!(seen.pose, pose(4.0));
    let u = s.apply_changes().unwrap();
    assert_eq!(u.poses[0].header, header("map", 8));
    assert_eq!(s.get("a").unwrap().header, header("map", 8));
}

#[test]
fn staged_handlers_are_committed_and_insert_drops_them() {
    let mut s = InteractiveMarkerServer::new("markers");
    s.insert_with_callback(&marker("a", 1.0, &[]), Some(4), DEFAULT_FEEDBACK_CB);
    s.apply_changes().unwrap();
    assert_eq!(s.process_feedback(&feedback("a", BUTTON_CLICK, 0.0), 1), Some(4));

    assert!(s.set_callback("a", Some(5), BUTTON_CLICK));
    s.insert(marker("a", 2.0, &[]));
    s.apply_changes().unwrap();
    assert_eq!(s.process_feedback(&feedback("a", BUTTON_CLICK, 0.0), 2), None);

    s.insert(marker("b", 1.0, &[]));
    assert!(s.set_callback("b", Some(6), MENU_SELECT));
    assert!(s.set_pose("b", pose(2.0), None));
    s.apply_changes();
    s.insert(marker("b", 1.0, &[]));
    assert!(s.set_callback("b", Some(6), MENU_SELECT));
    s.apply_changes().unwrap();
    assert_eq!(s.process_feedback(&feedback("b", MENU_SELECT, 0.0), 3), Some(6));
}

#[test]
fn snapshot_lists_committed_markers_only() {
    let mut s = InteractiveMarkerServer::new("markers");
    s.insert(marker("a", 1.0, &[1]));
    s.insert(marker("b", 2.0, &[2]));
    s.apply_changes().unwrap();
    s.insert(marker("c", 3.0, &[3]));
    assert!(s.set_pose("a", pose(9.0), None));
    let (seq, mut markers) = s.get_interactive_markers();
    assert_eq!(seq, 1);
    markers.sort_by(|x, y| x.name.cmp(&y.name));
    assert_eq!(markers, vec![marker("a", 1.0, &[1]), marker("b", 2.0, &[2])]);
    assert_eq!(s.topic_namespace(), "markers");
}
