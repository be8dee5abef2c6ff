use secret_shares::share::{Share, StreamFault};

#[test]
fn stream_round_trip() {
    let share = Share { x: 7, ys: vec![1, 2, 3] };
    let bytes = share.to_stream();
    assert_eq!(bytes, vec![7, 1, 2, 3]);
    assert_eq!(Share::from_stream(&bytes), Ok(share));
}

#[test]
fn stream_of_a_share_without_points() {
    let share = Share { x: 7, ys: vec![] };
    assert_eq!(share.to_stream(), vec![7]);
    assert_eq!(Share::from_stream(&[7]), Ok(share));
}

#[test]
fn empty_stream_is_refused() {
    assert_eq!(Share::from_stream(&[]), Err(StreamFault::Empty));
}

#[test]
fn stream_with_coordinate_zero_is_refused() {
    assert_eq!(Share::from_stream(&[0, 1, 2]), Err(StreamFault::ZeroCoordinate));
    assert_eq!(Share::from_stream(&[0]), Err(StreamFault::ZeroCoordinate));
}
