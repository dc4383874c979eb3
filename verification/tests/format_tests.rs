use nimage::errors::{ImageValidError, PartValidError};
use nimage::format::{align_padding, padding_before, CompMode, ImageHeader, PartHeader, PartType};
use nimage::util::{fmt_hex32, fmt_hex64, fmt_u64, human_size, human_size_extended};
use nimage::xxhio::{xxhash32, Xxh32};
use nimage::{NIMG_CURRENT_VERSION, NIMG_HDR_SIZE};

const GOOD_HEADER_START: &[u8] = b"\
    \x4e\x45\x57\x42\x53\x49\x4d\x47\x03\x02\x00\x00\x00\x00\x00\x00\
    \x32\x30\x32\x30\x2d\x30\x35\x2d\x32\x37\x2d\x72\x61\x73\x70\x69\
    \x6f\x73\x2d\x62\x75\x73\x74\x65\x72\x2d\x6c\x69\x74\x65\x2d\x61\
    \x72\x6d\x68\x66\x00\x00\x00\x00\x00\x00\x00\x00\x00\x00\x00\x00\
    \x00\x00\x00\x00\x00\x00\x00\x00\x00\x00\x00\x00\x00\x00\x00\x00\
    \x00\x00\x00\x00\x00\x00\x00\x00\x00\x00\x00\x00\x00\x00\x00\x00\
    \x00\x00\x00\x00\x00\x00\x00\x00\x00\x00\x00\x00\x00\x00\x00\x00\
    \x00\x00\x00\x00\x00\x00\x00\x00\x00\x00\x00\x00\x00\x00\x00\x00\
    \x00\x00\x00\x00\x00\x00\x00\x00\x00\x00\x00\x00\x00\x00\x00\x00\
    \x4e\x49\x4d\x47\x50\x41\x52\x54\x38\xe8\xdb\x01\x00\x00\x00\x00\
    \x00\x00\x00\x00\x00\x00\x00\x00\x01\x01\x00\x00\x70\x86\x4b\xe7\
    \x4e\x49\x4d\x47\x50\x41\x52\x54\x00\x50\x23\x14\x00\x00\x00\x00\
    \x40\xe8\xdb\x01\x00\x00\x00\x00\x03\x00\x00\x00\x41\x68\x84\xb6\
";

const GOOD_HEADER_HASH: &[u8] = b"\x6c\xf6\x52\xc2";

fn good_header_bytes() -> [u8; NIMG_HDR_SIZE] {
    // construct the full header array at runtime so we don't have a page worth
    // of zero bytes in the source code
    let mut arr = [0u8; NIMG_HDR_SIZE];
    (&mut arr[..GOOD_HEADER_START.len()]).copy_from_slice(GOOD_HEADER_START);
    (&mut arr[(NIMG_HDR_SIZE - 4)..]).copy_from_slice(GOOD_HEADER_HASH);
    arr
}

fn good_header_obj() -> ImageHeader {
    ImageHeader {
        version: NIMG_CURRENT_VERSION,
        name: String::from("2020-05-27-raspios-buster-lite-armhf"),
        parts: vec![
            PartHeader {
                size: 0x1dbe838,
                offset: 0,
                ptype: PartType::BootImg,
                comp: CompMode::Zstd,
                xxh: 0xe74b8670,
            },
            PartHeader {
                size: 0x14235000,
                offset: 0x1dbe840,
                ptype: PartType::Rootfs,
                comp: CompMode::NoComp,
                xxh: 0xb6846841,
            },
        ],
    }
}

#[test]
fn parse_image_header() {
    let mut data = good_header_bytes();
    let header = ImageHeader::from_bytes(&data).unwrap();
    assert_eq!(header, good_header_obj());

    // mangle the image magic, verify we get the correct error
    data[0] = 0;
    assert!(matches!(
        ImageHeader::from_bytes(&data),
        Err(ImageValidError::BadMagic(_))
    ));

    // fix the image magic, break the second header magic
    data[0] = 0x4e;
    data[0xb0] = 0;
    // fix the main hash to match the broken phdr data
    (&mut data[(NIMG_HDR_SIZE - 4)..]).copy_from_slice(&0x03031f18_u32.to_le_bytes());
    // expect a specific BadMagic error
    let expected_err = ImageValidError::InvalidPart {
        index: 1,
        err: PartValidError::BadMagic(0x54524150_474d4900_u64),
    };
    assert_eq!(ImageHeader::from_bytes(&data).unwrap_err(), expected_err);
}

#[test]
fn write_image_header() {
    let header = good_header_obj();
    let arr = match header.write_to() {
        Ok(v) => v,
        Err(err) => panic!("Failed to serialize header: {:?}", err),
    };
    assert_eq!(arr.as_slice(), good_header_bytes().as_ref());
}

#[test]
fn reject_wrong_buffer_size() {
    // any length other than exactly 1024 fails with the size error, whatever
    // the content
    let good = good_header_bytes();
    assert_eq!(
        ImageHeader::from_bytes(&good[..0]).unwrap_err(),
        ImageValidError::BadSize(0)
    );
    assert_eq!(
        ImageHeader::from_bytes(&good[..1023]).unwrap_err(),
        ImageValidError::BadSize(1023)
    );
    let mut big = vec![0u8; 1025];
    big[..1024].copy_from_slice(&good);
    assert_eq!(
        ImageHeader::from_bytes(&big).unwrap_err(),
        ImageValidError::BadSize(1025)
    );
}

#[test]
fn bad_magic_beats_bad_checksum() {
    // corrupting the magic of an otherwise-valid buffer gives the magic
    // error, not a checksum error, even though the checksum no longer matches
    let mut data = good_header_bytes();
    for i in 0..8 {
        data[i] = !data[i];
    }
    assert!(matches!(
        ImageHeader::from_bytes(&data),
        Err(ImageValidError::BadMagic(_))
    ));
}

#[test]
fn checksum_mismatch_reports_both_values() {
    // corrupt one byte inside the name field, keep the stored checksum
    let mut data = good_header_bytes();
    data[20] ^= 0xff;
    let stored = u32::from_le_bytes([data[1020], data[1021], data[1022], data[1023]]);
    let recomputed = xxhash32(&data[..1020]);
    assert_ne!(stored, recomputed);
    assert_eq!(
        ImageHeader::from_bytes(&data).unwrap_err(),
        ImageValidError::BadHash {
            expected: stored,
            actual: recomputed
        }
    );
}

#[test]
fn nested_part_error_carries_index_and_cause() {
    // image-level data valid, second part slot magic corrupted: the error
    // names index 1 and carries the part-level bad magic as its cause
    let mut data = good_header_bytes();
    data[0xb0] = 0;
    let body_hash = xxhash32(&data[..1020]);
    (&mut data[1020..]).copy_from_slice(&body_hash.to_le_bytes());
    let err = ImageHeader::from_bytes(&data).unwrap_err();
    match err {
        ImageValidError::InvalidPart { index, err: inner } => {
            assert_eq!(index, 1);
            assert!(matches!(inner, PartValidError::BadMagic(_)));
        }
        other => panic!("expected InvalidPart, got {:?}", other),
    }
    assert!(matches!(err.cause(), Some(PartValidError::BadMagic(_))));
    assert_eq!(ImageValidError::BadSize(7).cause(), None);
}

#[test]
fn name_field_decoding() {
    // "hello" followed by NULs parses to the 5-character name
    let header = ImageHeader::new("hello");
    let bytes = header.write_to().unwrap();
    let reparsed = ImageHeader::from_bytes(&bytes).unwrap();
    assert_eq!(reparsed.name, "hello");

    // a name field with no NUL byte uses the full 128 bytes
    let long_name: String = std::iter::repeat('x').take(128).collect();
    let header = ImageHeader::new(&long_name);
    let bytes = header.write_to().unwrap();
    let reparsed = ImageHeader::from_bytes(&bytes).unwrap();
    assert_eq!(reparsed.name.len(), 128);
    assert_eq!(reparsed.name, long_name);
}

#[test]
fn validate_bounds() {
    // 28 parts is one too many
    let mut header = ImageHeader::new("bounds");
    for _ in 0..28 {
        header.parts.push(PartHeader {
            size: 1,
            offset: 0,
            ptype: PartType::BootImg,
            comp: CompMode::NoComp,
            xxh: 0,
        });
    }
    assert_eq!(
        header.validate().unwrap_err(),
        ImageValidError::TooManyParts(28)
    );
    assert!(matches!(
        header.write_to(),
        Err(ImageValidError::TooManyParts(28))
    ));

    // a 129-byte name is one byte too long
    let long_name: String = std::iter::repeat('y').take(129).collect();
    let header = ImageHeader::new(&long_name);
    assert_eq!(
        header.validate().unwrap_err(),
        ImageValidError::NameTooLong(129)
    );

    // a wrong version is rejected before anything else
    let mut header = ImageHeader::new("v");
    header.version = 2;
    assert_eq!(
        header.validate().unwrap_err(),
        ImageValidError::UnsupportedVersion(2)
    );

    // an Invalid part type is rejected with its index
    let mut header = ImageHeader::new("inv");
    header.parts.push(PartHeader {
        size: 1,
        offset: 0,
        ptype: PartType::BootImg,
        comp: CompMode::NoComp,
        xxh: 0,
    });
    header.parts.push(PartHeader {
        size: 1,
        offset: 16,
        ptype: PartType::Invalid,
        comp: CompMode::NoComp,
        xxh: 0,
    });
    assert_eq!(
        header.validate().unwrap_err(),
        ImageValidError::InvalidPart {
            index: 1,
            err: PartValidError::BadType(0)
        }
    );
}

#[test]
fn part_header_codec() {
    let part = PartHeader {
        size: 0x1234,
        offset: 0x5678,
        ptype: PartType::RootfsRw,
        comp: CompMode::LibArchive,
        xxh: 0xdeadbeef,
    };
    let bytes = part.write_to();
    assert_eq!(bytes.len(), 32);
    assert_eq!(&bytes[..8], b"NIMGPART");
    let reparsed = PartHeader::from_bytes(&bytes).unwrap();
    assert_eq!(reparsed, part);

    // wrong sizes
    assert_eq!(
        PartHeader::from_bytes(&bytes[..31]).unwrap_err(),
        PartValidError::BadSize(31)
    );
    // bad type byte
    let mut bad = bytes.clone();
    bad[24] = 9;
    assert_eq!(
        PartHeader::from_bytes(&bad).unwrap_err(),
        PartValidError::BadType(9)
    );
    let mut bad = bytes.clone();
    bad[24] = 0;
    assert_eq!(
        PartHeader::from_bytes(&bad).unwrap_err(),
        PartValidError::BadType(0)
    );
    // bad compression byte
    let mut bad = bytes.clone();
    bad[25] = 3;
    assert_eq!(
        PartHeader::from_bytes(&bad).unwrap_err(),
        PartValidError::BadComp(3)
    );
    // bad magic
    let mut bad = bytes.clone();
    bad[0] = 0;
    assert!(matches!(
        PartHeader::from_bytes(&bad).unwrap_err(),
        PartValidError::BadMagic(_)
    ));
}

#[test]
fn end_to_end_create_and_reparse() {
    let payload1 = vec![0xaau8; 100];
    let payload2 = vec![0x55u8; 200];
    let xxh1 = xxhash32(&payload1);
    let xxh2 = xxhash32(&payload2);

    let mut header = ImageHeader::new("test");
    header.parts.push(PartHeader {
        size: 100,
        offset: 0,
        ptype: PartType::BootImg,
        comp: CompMode::NoComp,
        xxh: xxh1,
    });
    // the second payload starts after the first one plus alignment padding
    let offset2 = 100 + align_padding(100);
    assert_eq!(offset2, 112);
    header.parts.push(PartHeader {
        size: 200,
        offset: offset2,
        ptype: PartType::Rootfs,
        comp: CompMode::NoComp,
        xxh: xxh2,
    });

    let bytes = header.write_to().unwrap();
    assert_eq!(bytes.len(), 1024);
    let reparsed = ImageHeader::from_bytes(&bytes).unwrap();
    assert_eq!(reparsed, header);
    assert_eq!(reparsed.name, "test");
    assert_eq!(reparsed.parts.len(), 2);
    assert_eq!(reparsed.parts[0].offset, 0);
    assert_eq!(reparsed.parts[1].offset, 112);

    // the trailing checksum equals a manual engine pass over the body
    let mut engine = Xxh32::new();
    engine.update(&bytes[..1020]);
    assert_eq!(&bytes[1020..], engine.digest().to_le_bytes().as_slice());

    // the payload checksums equal manual engine passes over the payloads
    let mut e1 = Xxh32::new();
    e1.update(&payload1);
    assert_eq!(reparsed.parts[0].xxh, e1.digest());
    assert!(reparsed.parts[0].verify_payload(e1.digest()).is_ok());
    let mut e2 = Xxh32::new();
    e2.update(&payload2);
    assert_eq!(reparsed.parts[1].xxh, e2.digest());
    assert!(matches!(
        reparsed.parts[1].verify_payload(xxh1),
        Err(PartValidError::BadHash { .. })
    ));
}

#[test]
fn enum_conversions() {
    assert_eq!(PartType::from_u8(1).unwrap(), PartType::BootImg);
    assert_eq!(PartType::from_u8(0).unwrap(), PartType::Invalid);
    assert_eq!(
        PartType::from_u8(5).unwrap_err(),
        PartValidError::BadType(5)
    );
    assert_eq!(
        PartType::from_u8_valid(0).unwrap_err(),
        PartValidError::BadType(0)
    );
    assert_eq!(PartType::from_u8_valid(4).unwrap(), PartType::RootfsRw);
    assert_eq!(PartType::Rootfs.to_u8(), 3);
    assert_eq!(PartType::Rootfs.name(), "rootfs");
    assert_eq!(PartType::from_name("boot_tar").unwrap(), PartType::BootTar);
    assert!(PartType::from_name("bogus").is_err());

    assert_eq!(CompMode::from_u8(0).unwrap(), CompMode::NoComp);
    assert_eq!(CompMode::from_u8(2).unwrap(), CompMode::LibArchive);
    assert_eq!(
        CompMode::from_u8(3).unwrap_err(),
        PartValidError::BadComp(3)
    );
    assert_eq!(CompMode::Zstd.to_u8(), 1);
    assert_eq!(CompMode::Zstd.name(), "zstd");
    assert_eq!(CompMode::from_name("none").unwrap(), CompMode::NoComp);
    assert_eq!(
        CompMode::from_name("libarchive").unwrap(),
        CompMode::LibArchive
    );
    assert!(CompMode::from_name("gzip").is_err());

    assert_eq!(PartType::default(), PartType::Invalid);
    assert_eq!(CompMode::default(), CompMode::NoComp);
}

#[test]
fn padding_and_alignment_rules() {
    assert_eq!(padding_before(0, 0), Some(0));
    assert_eq!(padding_before(100, 112), Some(12));
    assert_eq!(padding_before(112, 100), None);
    assert_eq!(align_padding(0), 0);
    assert_eq!(align_padding(16), 0);
    assert_eq!(align_padding(100), 12);
    assert_eq!(align_padding(113), 15);
}

#[test]
fn error_messages_and_rendering() {
    assert_eq!(
        ImageValidError::BadSize(100).message(),
        "bad nImage header size. Expected 1024, found 100"
    );
    assert_eq!(
        ImageValidError::BadHash {
            expected: 0xdeadbeef,
            actual: 0x01020304
        }
        .message(),
        "invalid image header hash. Expected 0xdeadbeef, found 0x01020304"
    );
    assert_eq!(
        ImageValidError::InvalidPart {
            index: 1,
            err: PartValidError::BadType(9)
        }
        .message(),
        "invalid part header at index 1: bad nImage part type 9"
    );
    assert_eq!(
        PartValidError::BadSize(31).message(),
        "bad nImage part header size. Expected 32, found 31"
    );

    let header = ImageHeader::new("");
    assert_eq!(
        header.print_to(None),
        "Image Name:      [empty]\nImage Version:   3\nNumber of Parts: 0\n"
    );
    let rendered = good_header_obj().print_to(Some(0xc252f66c));
    assert!(rendered.contains("Image Name:      2020-05-27-raspios-buster-lite-armhf"));
    assert!(rendered.contains("Header xxHash:   0xc252f66c"));
    assert!(rendered.contains("Part 1:"));
    assert!(rendered.contains("  compression: none"));
}

#[test]
fn name_decoding_utf8_edges() {
    // a multibyte UTF-8 name survives the round trip unchanged
    let header = ImageHeader::new("libert\u{e9}");
    let bytes = header.write_to().unwrap();
    let reparsed = ImageHeader::from_bytes(&bytes).unwrap();
    assert_eq!(reparsed.name, "libert\u{e9}");

    // an ill-formed byte in the name field decodes to the replacement
    // character rather than failing the parse
    let mut data = good_header_bytes();
    data[16] = 0xff;
    data[17] = 0;
    let body_hash = xxhash32(&data[..1020]);
    (&mut data[1020..]).copy_from_slice(&body_hash.to_le_bytes());
    let reparsed = ImageHeader::from_bytes(&data).unwrap();
    assert_eq!(reparsed.name, "\u{fffd}");

    // an empty name round-trips as empty
    let header = ImageHeader::new("");
    let bytes = header.write_to().unwrap();
    let reparsed = ImageHeader::from_bytes(&bytes).unwrap();
    assert_eq!(reparsed.name, "");
}

#[test]
fn max_parts_round_trip() {
    // the largest legal header: 27 parts, all slots used
    let mut header = ImageHeader::new("full");
    for i in 0..27u64 {
        header.parts.push(PartHeader {
            size: 16 * i,
            offset: 1000 * i,
            ptype: PartType::RootfsRw,
            comp: CompMode::Zstd,
            xxh: i as u32,
        });
    }
    assert!(header.validate().is_ok());
    let bytes = header.write_to().unwrap();
    assert_eq!(bytes.len(), 1024);
    let reparsed = ImageHeader::from_bytes(&bytes).unwrap();
    assert_eq!(reparsed, header);

    // and the smallest: no parts at all
    let header = ImageHeader::new("none");
    let reparsed = ImageHeader::from_bytes(&header.write_to().unwrap()).unwrap();
    assert_eq!(reparsed, header);
}

#[test]
fn number_rendering() {
    assert_eq!(fmt_u64(0), "0");
    assert_eq!(fmt_u64(100), "100");
    assert_eq!(fmt_u64(u64::MAX), "18446744073709551615");
    assert_eq!(fmt_hex32(0xdeadbeef), "deadbeef");
    assert_eq!(fmt_hex32(0x1), "00000001");
    assert_eq!(fmt_hex64(0x54524150_474d494e), "54524150474d494e");
    assert_eq!(human_size(100), "100 B");
    assert_eq!(human_size(1024), "1.0 KiB");
    assert_eq!(human_size(1536), "1.5 KiB");
    assert_eq!(human_size(31189048), "29.7 MiB");
    assert_eq!(human_size_extended(100), "100 B");
    assert_eq!(human_size_extended(1536), "1.5 KiB (1536)");

    // a part rendering shows human-scaled size and offset and the hex hash
    let rendered = good_header_obj().parts[0].print_to(2);
    assert_eq!(
        rendered,
        "  type:        boot_img\n\
         \x20 compression: zstd\n\
         \x20 size:        29.7 MiB (31189048)\n\
         \x20 offset:      0 B\n\
         \x20 xxHash:      0xe74b8670\n"
    );
}
