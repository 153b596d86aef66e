use ptnet::fw_index::FirmwareIndex;
use ptnet::image_header::{crc, Container, FWVersion, HWVersion, ParseError, VerifyError, MAGIC1, MAGIC2};

fn image(hw: HWVersion, fw: FWVersion, payload: &[u8]) -> Vec<u8> {
    let c = Container::for_payload(hw, fw, payload);
    let mut bytes = c.to_bytes();
    bytes.extend_from_slice(payload);
    bytes
}

#[test]
fn crc_is_cksum() {
    // CRC-32/CKSUM check value
    assert_eq!(crc(b"123456789"), 0x765e7680);
}

#[test]
fn firmware_image_verifies_and_bit_flip_fails() {
    let hw = HWVersion { vid: 1, pid: 2, rev: 3 };
    let fw = FWVersion { major: 1, minor: 0, patch: 7 };
    let payload: Vec<u8> = (0..200u32).map(|x| (x * 7) as u8).collect();
    let bytes = image(hw, fw, &payload);
    assert_eq!(bytes.len(), 128 + 200);
    let (c, start) = Container::parse_from(&bytes).unwrap();
    assert_eq!(start, 128);
    assert_eq!(c.magic1, MAGIC1);
    assert_eq!(c.magic2, MAGIC2);
    assert!(c.verify(Some(&payload)).is_ok());
    let f = c.header.fields();
    assert_eq!(f.v0.payload_size, 200);
    assert_eq!(f.v0.fw_version, fw);

    let mut flipped = bytes.clone();
    flipped[150] ^= 0x01;
    assert_eq!(Container::parse_from(&flipped).unwrap_err(), VerifyError::PayloadCRCInvalid);

    let mut short = bytes.clone();
    short.pop();
    assert_eq!(Container::parse_from(&short).unwrap_err(), VerifyError::PayloadSizeInvalid);

    let mut hdr = bytes.clone();
    hdr[10] ^= 0x80;
    assert_eq!(Container::parse_from(&hdr).unwrap_err(), VerifyError::HeaderCRCInvalid);

    let mut magic = bytes.clone();
    magic[0] = 0;
    assert_eq!(Container::parse_from(&magic).unwrap_err(), VerifyError::HeaderMagicNotPresent);
    assert_eq!(Container::parse_from(&bytes[..100]).unwrap_err(), VerifyError::HeaderMagicNotPresent);
}

#[test]
fn default_container_header_check_fails() {
    let c = Container::default();
    assert!(matches!(c.verify(None), Err(VerifyError::HeaderCRCInvalid)));
}

#[test]
fn index_keeps_only_valid_images_and_finds_latest() {
    let hw = HWVersion { vid: 0x80, pid: 0x86, rev: 0x11 };
    let mut index = FirmwareIndex::new();
    assert!(index.add_image(&image(hw, FWVersion { major: 1, minor: 2, patch: 3 }, b"abc")).is_ok());
    assert!(index.add_image(&image(hw, FWVersion { major: 1, minor: 10, patch: 0 }, b"abcd")).is_ok());
    let mut bad = image(hw, FWVersion { major: 9, minor: 0, patch: 0 }, b"zz");
    bad[129] ^= 1;
    assert!(index.add_image(&bad).is_err());
    assert_eq!(index.latest_for(&hw), Some(FWVersion { major: 1, minor: 10, patch: 0 }));
    assert_eq!(index.get_firmwares_for(&hw).len(), 2);
    assert_eq!(index.latest_for(&HWVersion { vid: 0, pid: 0, rev: 0 }), None);
}

#[test]
fn versions_from_text() {
    assert_eq!(HWVersion::from_str("80:86:1f").unwrap(), HWVersion { vid: 0x80, pid: 0x86, rev: 0x1f });
    assert_eq!(FWVersion::from_str("1.20.255").unwrap(), FWVersion { major: 1, minor: 20, patch: 255 });
    assert_eq!(FWVersion::from_str("1.2"), Err(ParseError::NotEnoughTokens));
    assert_eq!(FWVersion::from_str("1.2.3.4"), Err(ParseError::TooMuchTokens));
    assert_eq!(FWVersion::from_str("1.256.3"), Err(ParseError::ParseIntError));
    assert_eq!(HWVersion::from_str("1:g:3"), Err(ParseError::ParseIntError));
    assert_eq!(FWVersion::from_str("+1.0.0").unwrap(), FWVersion { major: 1, minor: 0, patch: 0 });
    assert_eq!(FWVersion::from_str("1..0"), Err(ParseError::ParseIntError));
}

#[test]
fn index_replaces_same_version() {
    let hw = HWVersion { vid: 2, pid: 2, rev: 2 };
    let fw = FWVersion { major: 3, minor: 0, patch: 0 };
    let mut index = FirmwareIndex::new();
    index.add_image(&image(hw, fw, b"old")).unwrap();
    index.add_image(&image(hw, fw, b"newer")).unwrap();
    assert_eq!(index.get_firmwares_for(&hw), vec![fw]);
}
