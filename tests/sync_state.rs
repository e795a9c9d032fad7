use iris_mpc::sync::{
    deserialize, deserialize_all, serialize, sync, SyncError, SyncResult, SyncState,
    MAX_REQUESTS, MAX_REQUEST_ID_LEN, SERIAL_SIZE,
};

fn some_state() -> SyncState {
    SyncState {
        db_len: 123,
        deleted_request_ids: vec!["abc".to_string(), "def".to_string()],
    }
}

/// Every party gathers the records of all parties, in party order.
fn run_round(states: &[SyncState]) -> Vec<SyncResult> {
    let mut gathered = Vec::new();
    for s in states {
        gathered.extend(serialize(s).unwrap());
    }
    states.iter().map(|s| sync(s, &gathered).unwrap()).collect()
}

#[test]
fn test_serialize() {
    let state = SyncState {
        db_len: 123,
        deleted_request_ids: vec!["A".repeat(MAX_REQUEST_ID_LEN); MAX_REQUESTS],
    };
    let state_ser = serialize(&state).unwrap();
    assert_eq!(state_ser.len(), SERIAL_SIZE);
    let all_states_ser = vec![state_ser.clone(); 3].concat();
    let all_states = deserialize_all(&all_states_ser).unwrap();
    assert_eq!(all_states.len(), 3);
    for s in all_states.iter() {
        assert_eq!(s, &state);
    }
}

#[test]
fn test_sync() {
    let results = run_round(&[some_state(), some_state(), some_state()]);
    for result in results {
        assert_eq!(result.must_rollback_storage(), None);
        assert_eq!(result.all_states.len(), 3);
    }
}

#[test]
fn test_out_of_sync() {
    let late = SyncState { db_len: 12, deleted_request_ids: vec![] };
    let late2 = SyncState { db_len: 12, deleted_request_ids: vec![] };
    let results = run_round(&[some_state(), late, late2]);
    for result in results {
        assert_eq!(result.must_rollback_storage(), Some(12));
    }
}

#[test]
fn rollback_target_is_minimum() {
    let mk = |n: usize| SyncState { db_len: n, deleted_request_ids: vec![] };
    let results = run_round(&[mk(123), mk(123), mk(12)]);
    for result in results {
        assert_eq!(result.must_rollback_storage(), Some(12));
    }
    let results = run_round(&[mk(7), mk(9), mk(8)]);
    for result in results {
        assert_eq!(result.must_rollback_storage(), Some(7));
    }
}

#[test]
fn empty_state_round_trips() {
    let state = SyncState { db_len: 0, deleted_request_ids: vec![] };
    let ser = serialize(&state).unwrap();
    assert_eq!(ser.len(), SERIAL_SIZE);
    assert!(ser.iter().all(|b| *b == 0));
    assert_eq!(deserialize(&ser).unwrap(), state);
}

#[test]
fn record_layout_is_fixed() {
    let state = SyncState { db_len: 0x0102, deleted_request_ids: vec!["xy".to_string()] };
    let ser = serialize(&state).unwrap();
    assert_eq!(&ser[0..8], &[2, 1, 0, 0, 0, 0, 0, 0]);
    assert_eq!(&ser[8..16], &[1, 0, 0, 0, 0, 0, 0, 0]);
    assert_eq!(&ser[16..24], &[2, 0, 0, 0, 0, 0, 0, 0]);
    assert_eq!(&ser[24..26], b"xy");
    assert!(ser[26..].iter().all(|b| *b == 0));
}

#[test]
fn unicode_ids_round_trip() {
    let state = SyncState { db_len: 5, deleted_request_ids: vec!["größe-ü".to_string(), String::new()] };
    let ser = serialize(&state).unwrap();
    assert_eq!(deserialize(&ser).unwrap(), state);
}

#[test]
fn too_many_ids_is_refused() {
    let state = SyncState { db_len: 1, deleted_request_ids: vec!["a".to_string(); MAX_REQUESTS + 1] };
    assert_eq!(serialize(&state), Err(SyncError::TooManyIds));
}

#[test]
fn long_id_is_refused() {
    let state = SyncState { db_len: 1, deleted_request_ids: vec!["a".repeat(MAX_REQUEST_ID_LEN + 1)] };
    assert_eq!(serialize(&state), Err(SyncError::IdTooLong));
}

#[test]
fn malformed_records_are_refused() {
    let ser = serialize(&some_state()).unwrap();
    assert_eq!(deserialize(&ser[..SERIAL_SIZE - 1]), Err(SyncError::Malformed));
    assert_eq!(deserialize_all(&ser[..SERIAL_SIZE - 1]), Err(SyncError::Malformed));
    let mut bad_count = ser.clone();
    bad_count[8] = 0xff;
    bad_count[9] = 0xff;
    assert_eq!(deserialize(&bad_count), Err(SyncError::Malformed));
    let mut bad_len = ser.clone();
    bad_len[16] = (MAX_REQUEST_ID_LEN + 1) as u8;
    assert_eq!(deserialize(&bad_len), Err(SyncError::Malformed));
    let mut bad_utf8 = ser.clone();
    bad_utf8[24] = 0xff;
    assert_eq!(deserialize(&bad_utf8), Err(SyncError::Malformed));
    let mut two = ser.clone();
    two.extend(bad_utf8);
    assert_eq!(deserialize_all(&two), Err(SyncError::Malformed));
    assert_eq!(deserialize_all(&[]).unwrap().len(), 0);
}

#[test]
fn result_keeps_own_state() {
    let results = run_round(&[some_state(), some_state(), some_state()]);
    assert_eq!(results[0].my_state, some_state());
    assert_eq!(results[1].all_states[2], some_state());
    let direct = SyncResult::new(some_state(), vec![some_state()]);
    assert_eq!(direct.must_rollback_storage(), None);
}
