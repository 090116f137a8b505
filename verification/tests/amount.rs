use payments::amount::{decode, encode, AmountError};

#[test]
fn decode_examples() {
    assert_eq!(decode(&b"3.05".to_vec()), Ok(30500));
    assert_eq!(decode(&b"1.0".to_vec()), Ok(10000));
    assert_eq!(decode(&b"0.0".to_vec()), Ok(0));
    assert_eq!(decode(&b"2.0".to_vec()), Ok(20000));
    assert_eq!(decode(&b"1.5".to_vec()), Ok(15000));
    assert_eq!(decode(&b"0.0005".to_vec()), Ok(5));
    assert_eq!(decode(&b".5".to_vec()), Ok(5000));
    // With several points, the text before the first and after the last
    // count; what stands between is ignored.
    assert_eq!(decode(&b"1.2.3".to_vec()), Ok(13000));
}

#[test]
fn decode_rejects_bad_amounts() {
    // No decimal point.
    assert_eq!(decode(&b"1".to_vec()), Err(AmountError::InvalidAmount));
    assert_eq!(decode(&b"".to_vec()), Err(AmountError::InvalidAmount));
    // Non-digits around the point.
    assert_eq!(decode(&b"a.b".to_vec()), Err(AmountError::InvalidAmount));
    assert_eq!(decode(&b"1.2x".to_vec()), Err(AmountError::InvalidAmount));
    assert_eq!(decode(&b"-1.0".to_vec()), Err(AmountError::InvalidAmount));
    // Too large for the fixed-point range.
    assert_eq!(
        decode(&b"18446744073709551616.0".to_vec()),
        Err(AmountError::InvalidAmount)
    );
}

#[test]
fn encode_examples() {
    assert_eq!(encode(0), b"0.0".to_vec());
    assert_eq!(encode(5), b"0.0005".to_vec());
    assert_eq!(encode(10000), b"1.0000".to_vec());
    assert_eq!(encode(12345), b"1.2345".to_vec());
    assert_eq!(encode(15000), b"1.5000".to_vec());
    assert_eq!(encode(9999), b"0.9999".to_vec());
    assert_eq!(encode(123456789), b"12345.6789".to_vec());
}

#[test]
fn decode_inverts_encode() {
    for x in [
        0u64,
        1,
        5,
        9999,
        10000,
        10001,
        30500,
        123456789,
        u64::MAX,
        u64::MAX - 1,
    ] {
        assert_eq!(decode(&encode(x)), Ok(x));
    }
}
