use rshome::noise_frame::{noise_frame, noise_frame_len, noise_plaintext, split_noise_plaintext, NOISE_PREAMBLE};

#[test]
fn plaintext_puts_type_big_endian_before_payload() {
    assert_eq!(noise_plaintext(0x0102, &[9, 8]), vec![0x01, 0x02, 9, 8]);
    assert_eq!(noise_plaintext(0x1_0007, &[]), vec![0x00, 0x07]);
}

#[test]
fn plaintext_round_trip() {
    let p = noise_plaintext(25, &[1, 2, 3]);
    assert_eq!(split_noise_plaintext(&p), Some((25, vec![1, 2, 3])));
    assert_eq!(split_noise_plaintext(&[0x12]), None);
    assert_eq!(split_noise_plaintext(&[0x12, 0x34]), Some((0x1234, vec![])));
}

#[test]
fn frame_header_and_length() {
    let f = noise_frame(&[0xAA; 300]);
    assert_eq!(&f[..3], &[NOISE_PREAMBLE, 0x01, 0x2C]);
    assert_eq!(f.len(), 303);
    assert_eq!(noise_frame_len(&f[..3]), Some(300));
    assert_eq!(noise_frame_len(&[0x00, 0x01, 0x2C]), None);
    assert_eq!(noise_frame_len(&[0x01, 0x01]), None);
}
