use iris_mpc::request::{parse_eye, Eye, IdentityDeletionRequest, ResultEvent, SharesS3Object};
use std::str::FromStr;

#[test]
fn shares_by_party() {
    let obj = SharesS3Object {
        iris_share_0: "zero".to_string(),
        iris_share_1: "one".to_string(),
        iris_share_2: "two".to_string(),
    };
    assert_eq!(obj.get(0), Some(&"zero".to_string()));
    assert_eq!(obj.get(1), Some(&"one".to_string()));
    assert_eq!(obj.get(2), Some(&"two".to_string()));
    assert_eq!(obj.get(3), None);
}

#[test]
fn result_event_fields() {
    let e = ResultEvent::new(2, Some(7), true, "signup".to_string(), Some(vec![1, 5]));
    assert_eq!(e.node_id, 2);
    assert_eq!(e.serial_id, Some(7));
    assert!(e.is_match);
    assert_eq!(e.signup_id, "signup");
    assert_eq!(e.matched_serial_ids, Some(vec![1, 5]));
    assert_eq!(IdentityDeletionRequest { serial_id: 4 }.serial_id, 4);
}

#[test]
fn eye_parsing() {
    assert_eq!(Eye::from_str("left"), Ok(Eye::Left));
    assert_eq!(Eye::from_str("LeFT"), Ok(Eye::Left));
    assert_eq!(Eye::from_str("RIGHT"), Ok(Eye::Right));
    assert_eq!(parse_eye("right"), Ok(Eye::Right));
    assert_eq!(Eye::from_str("up"), Err("Invalid eye: up".to_string()));
    assert_eq!(Eye::from_str("lef"), Err("Invalid eye: lef".to_string()));
}
