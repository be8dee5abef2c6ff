use secret_shares::codec::{decode_points, decode_share, encode_points, encode_share, CodecError};
use secret_shares::share::Share;

#[test]
fn points_are_written_behind_their_number() {
    assert_eq!(encode_points(&[]), vec![0, 0, 0, 0, 0, 0, 0, 0]);
    assert_eq!(encode_points(&[5]), vec![0, 0, 0, 0, 0, 0, 0, 1, 0, 0, 0, 1, 5]);
    assert_eq!(
        encode_points(&[0, 127, 128, 255]),
        vec![
            0, 0, 0, 0, 0, 0, 0, 4, // four points
            0, 0, 0, 1, 0, // 0
            0, 0, 0, 1, 127, // 127
            0, 0, 0, 2, 0, 128, // 128 needs a zero byte in front
            0, 0, 0, 2, 0, 255, // 255 too
        ]
    );
}

#[test]
fn share_is_written_coordinate_first() {
    let share = Share { x: 200, ys: vec![1, 130] };
    assert_eq!(
        encode_share(&share),
        vec![0, 0, 0, 2, 0, 200, 0, 0, 0, 0, 0, 0, 0, 2, 0, 0, 0, 1, 1, 0, 0, 0, 2, 0, 130]
    );
}

#[test]
fn decode_gives_back_what_encode_wrote() {
    let cases: Vec<Vec<u8>> = vec![
        vec![],
        vec![0],
        vec![127],
        vec![128],
        vec![255],
        (0..=255).collect(),
        vec![0x80; 1000],
    ];
    for ys in cases {
        assert_eq!(decode_points(&encode_points(&ys)), Ok(ys.clone()));
        for x in [1u8, 127, 128, 255] {
            let share = Share { x, ys: ys.clone() };
            assert_eq!(decode_share(&encode_share(&share)), Ok(share));
        }
    }
}

#[test]
fn records_have_the_length_their_values_ask_for() {
    // 8 bytes for the number of points, 5 for a value up to 127, 6 above
    let ys: Vec<u8> = (0..=255).collect();
    assert_eq!(encode_points(&ys).len(), 8 + 128 * 5 + 128 * 6);
    let share = Share { x: 1, ys: ys.clone() };
    assert_eq!(encode_share(&share).len(), 5 + 8 + 128 * 5 + 128 * 6);
    let share = Share { x: 128, ys };
    assert_eq!(encode_share(&share).len(), 6 + 8 + 128 * 5 + 128 * 6);
}

#[test]
fn every_cut_of_a_record_is_refused() {
    let share = Share { x: 200, ys: vec![0, 127, 128, 255, 1] };
    let record = encode_share(&share);
    for len in 0..record.len() {
        assert_eq!(decode_share(&record[..len]), Err(CodecError::Truncated), "cut at {}", len);
    }
    assert_eq!(decode_share(&record), Ok(share));
}

#[test]
fn leading_zero_bytes_are_accepted() {
    let bytes = vec![0, 0, 0, 0, 0, 0, 0, 2, 0, 0, 0, 3, 0, 0, 9, 0, 0, 0, 0];
    assert_eq!(decode_points(&bytes), Ok(vec![9, 0]));
}

#[test]
fn truncated_records_are_refused() {
    assert_eq!(decode_points(&[]), Err(CodecError::Truncated));
    assert_eq!(decode_points(&[0, 0, 0, 0, 0, 0, 0]), Err(CodecError::Truncated));
    // one point announced, none there
    assert_eq!(decode_points(&[0, 0, 0, 0, 0, 0, 0, 1]), Err(CodecError::Truncated));
    // the length of the value is cut
    assert_eq!(decode_points(&[0, 0, 0, 0, 0, 0, 0, 1, 0, 0, 1]), Err(CodecError::Truncated));
    // the value is shorter than its length says
    assert_eq!(
        decode_points(&[0, 0, 0, 0, 0, 0, 0, 1, 0, 0, 0, 2, 0]),
        Err(CodecError::Truncated)
    );
    // a length that does not fit whatever the input
    assert_eq!(
        decode_points(&[0, 0, 0, 0, 0, 0, 0, 1, 255, 255, 255, 255, 1]),
        Err(CodecError::Truncated)
    );
    // a number of points that does not fit whatever the input
    assert_eq!(
        decode_points(&[255, 255, 255, 255, 255, 255, 255, 255, 0, 0, 0, 1, 1]),
        Err(CodecError::Truncated)
    );
    assert_eq!(decode_share(&[]), Err(CodecError::Truncated));
    assert_eq!(decode_share(&[0, 0, 0, 1, 7]), Err(CodecError::Truncated));
}

#[test]
fn negative_values_are_refused() {
    assert_eq!(
        decode_points(&[0, 0, 0, 0, 0, 0, 0, 1, 0, 0, 0, 1, 0x80]),
        Err(CodecError::NegativeValue)
    );
    assert_eq!(
        decode_points(&[0, 0, 0, 0, 0, 0, 0, 1, 0, 0, 0, 2, 0xff, 0xff]),
        Err(CodecError::NegativeValue)
    );
    assert_eq!(decode_share(&[0, 0, 0, 1, 0x90]), Err(CodecError::NegativeValue));
}

#[test]
fn values_outside_the_field_are_refused() {
    assert_eq!(
        decode_points(&[0, 0, 0, 0, 0, 0, 0, 1, 0, 0, 0, 2, 1, 0]),
        Err(CodecError::ValueOutOfField)
    );
    assert_eq!(
        decode_points(&[0, 0, 0, 0, 0, 0, 0, 1, 0, 0, 0, 3, 0, 1, 0]),
        Err(CodecError::ValueOutOfField)
    );
}

#[test]
fn zero_coordinate_is_refused() {
    assert_eq!(
        decode_share(&[0, 0, 0, 1, 0, 0, 0, 0, 0, 0, 0, 0, 0]),
        Err(CodecError::ZeroCoordinate)
    );
    assert_eq!(
        decode_share(&[0, 0, 0, 0, 0, 0, 0, 0, 0, 0, 0, 0]),
        Err(CodecError::ZeroCoordinate)
    );
}

#[test]
fn trailing_bytes_are_refused() {
    assert_eq!(
        decode_points(&[0, 0, 0, 0, 0, 0, 0, 1, 0, 0, 0, 1, 5, 6]),
        Err(CodecError::TrailingBytes)
    );
    assert_eq!(decode_points(&[0, 0, 0, 0, 0, 0, 0, 0, 0]), Err(CodecError::TrailingBytes));
}

#[test]
fn first_fault_in_the_record_is_the_one_reported() {
    // a negative value before a value outside the field
    assert_eq!(
        decode_points(&[0, 0, 0, 0, 0, 0, 0, 2, 0, 0, 0, 1, 0x80, 0, 0, 0, 2, 1, 0]),
        Err(CodecError::NegativeValue)
    );
}
