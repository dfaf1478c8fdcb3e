use order_desk::image::{decode_image, encode_image};

#[test]
fn image_is_written_as_base64() {
    let image = vec![0x89, 0x50, 0x4E, 0x47, 0x0D, 0x0A, 0x1A, 0x0A];
    assert_eq!(encode_image(&image).unwrap(), "iVBORw0KGgo=");
    assert_eq!(encode_image(&vec![]).unwrap(), "");
    assert_eq!(encode_image(&b"Hi".to_vec()).unwrap(), "SGk=");
}

#[test]
fn image_survives_a_round_trip() {
    let image: Vec<u8> = (0..=255u8).collect();
    let text = encode_image(&image).unwrap();
    assert_eq!(decode_image(&text).unwrap(), image);
}

#[test]
fn base64_text_is_read_back() {
    assert_eq!(decode_image("iVBORw0KGgo=").unwrap(), vec![0x89, 0x50, 0x4E, 0x47, 0x0D, 0x0A, 0x1A, 0x0A]);
}

#[test]
fn invalid_text_is_refused() {
    assert!(decode_image("!!!!").is_err());
}

#[test]
fn non_canonical_text_is_refused() {
    assert!(decode_image("AB==").is_err());
    assert!(decode_image("AA=").is_err());
    assert!(decode_image("AAA").is_err());
    assert!(decode_image("AA==AAAA").is_err());
    assert!(decode_image("AA==").is_ok());
    assert_eq!(decode_image("").unwrap(), Vec::<u8>::new());
}
