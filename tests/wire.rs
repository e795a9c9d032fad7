use iris_mpc::wire::{DecodeError, NetworkValue};

fn round_trip(v: NetworkValue) {
    let bytes = v.to_network();
    assert_eq!(NetworkValue::from_network(&bytes), Ok(v));
    assert_eq!(
        NetworkValue::from_network(&bytes[..bytes.len() - 1]),
        Err(DecodeError::Malformed)
    );
}

#[test]
fn every_variant_round_trips() {
    let mut key = [0u8; 16];
    for (i, k) in key.iter_mut().enumerate() {
        *k = (i * 17) as u8;
    }
    round_trip(NetworkValue::PrfKey(key));
    round_trip(NetworkValue::Ring16(0xbeef));
    round_trip(NetworkValue::Ring32(0xdead_beef));
    round_trip(NetworkValue::RingElementBit(true));
    round_trip(NetworkValue::RingElementBit(false));
    round_trip(NetworkValue::RingElement16(7));
    round_trip(NetworkValue::RingElement32(u32::MAX));
    round_trip(NetworkValue::RingElement64(0x0123_4567_89ab_cdef));
}

#[test]
fn vectors_round_trip() {
    for n in [0usize, 1, 100_000] {
        round_trip(NetworkValue::VecRing16((0..n).map(|i| (i * 31) as u16).collect()));
        round_trip(NetworkValue::VecRing32((0..n).map(|i| (i as u32).wrapping_mul(2_654_435_761)).collect()));
        round_trip(NetworkValue::VecRing64((0..n).map(|i| (i as u64) << 40 | i as u64).collect()));
    }
}

#[test]
fn byte_layout() {
    assert_eq!(NetworkValue::Ring16(0x1234).to_network(), vec![1, 0x34, 0x12]);
    assert_eq!(NetworkValue::RingElement32(0x0102_0304).to_network(), vec![5, 4, 3, 2, 1]);
    assert_eq!(NetworkValue::RingElementBit(true).to_network(), vec![3, 1]);
    assert_eq!(
        NetworkValue::VecRing16(vec![0x0201]).to_network(),
        vec![7, 1, 0, 0, 0, 0, 0, 0, 0, 1, 2]
    );
}

#[test]
fn malformed_values_are_refused() {
    assert_eq!(NetworkValue::from_network(&[]), Err(DecodeError::Malformed));
    assert_eq!(NetworkValue::from_network(&[10, 0]), Err(DecodeError::Malformed));
    assert_eq!(NetworkValue::from_network(&[3, 2]), Err(DecodeError::Malformed));
    assert_eq!(NetworkValue::from_network(&[1, 0, 0, 0]), Err(DecodeError::Malformed));
    // a count that promises more elements than follow
    assert_eq!(
        NetworkValue::from_network(&[7, 2, 0, 0, 0, 0, 0, 0, 0, 1, 2]),
        Err(DecodeError::Malformed)
    );
    // a count so large that its payload size would overflow
    assert_eq!(
        NetworkValue::from_network(&[9, 0xff, 0xff, 0xff, 0xff, 0xff, 0xff, 0xff, 0xff]),
        Err(DecodeError::Malformed)
    );
}
