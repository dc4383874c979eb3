use nimage::util::{ReadHelper, SeekFrom, SliceCursor, VecCursor, WriteHelper};

fn header_arr() -> [u8; 32] {
    [
        0x4e, 0x49, 0x4d, 0x47, 0x50, 0x41, 0x52, 0x54, //
        0xe0, 0xee, 0x91, 0x00, 0x00, 0x00, 0x00, 0x00, //
        0x00, 0x00, 0x00, 0x00, 0x00, 0x00, 0x00, 0x00, //
        0x09, 0x00, 0x00, 0x00, 0x21, 0x28, 0x7c, 0xcd, //
    ]
}

#[test]
fn test_read_helper() {
    let arr = header_arr();
    let mut reader = SliceCursor::new(&arr);

    let magic = reader.read_borrow(8);
    assert_eq!(magic.len(), 8);
    assert_eq!(String::from_utf8_lossy(magic), "NIMGPART");
    assert_eq!(reader.position(), 8);

    // read some integers, check the position along the way
    assert_eq!(reader.read_u32_le(), Some(0x0091eee0));
    assert_eq!(reader.read_u64_le(), Some(0));
    reader.skip(4);
    assert_eq!(reader.position(), 24);
    assert_eq!(reader.read_byte(), Some(0x09));
    reader.skip(3);

    // try to read a u64 when there's only 4 bytes remaining. It should return
    // None and not move the position
    assert_eq!(reader.position(), 28);
    assert_eq!(reader.read_u64_le(), None);
    assert_eq!(reader.position(), 28);

    // verify we can still read
    assert_eq!(reader.read_u32_le(), Some(0xcd7c2821));
    assert_eq!(reader.position(), 32);

    // seek tests
    reader.seek(SeekFrom::Start(8));
    assert_eq!(reader.read_u64_le(), Some(0x00000000_0091eee0));
    reader.seek(SeekFrom::Current(-8));
    assert_eq!(reader.read_u64_le(), Some(0x00000000_0091eee0));
    reader.seek(SeekFrom::End(-4));
    assert_eq!(reader.read_u32_le(), Some(0xcd7c2821));
    assert_eq!(reader.read_byte(), None);
}

#[test]
fn test_write_helper_slice() {
    let mut writer = VecCursor::new(32);

    assert!(writer.write_all(b"NIMGPART").is_ok());
    assert!(writer.write_u64_le(0x0091eee0).is_ok());
    assert!(writer.write_zeros(8).is_ok());
    assert!(writer.write_byte(0x09).is_ok());
    assert!(writer.write_zeros(3).is_ok());
    assert!(writer.write_u32_le(0xcd7c2821).is_ok());

    // verify we can't write anything else
    assert!(writer.write_byte(0).is_err());

    assert_eq!(writer.as_slice(), &header_arr());

    // go back and make sure we can't do a full write either: the write
    // methods write as much as they can before hitting the end, then fail
    writer.seek(SeekFrom::End(-3));
    assert_eq!(writer.position(), 29);
    assert!(writer.write_u32_le(0).is_err());
    assert_eq!(writer.position(), 32);
}

#[test]
fn clamped_seeks_and_short_reads() {
    let arr = header_arr();
    let mut reader = SliceCursor::new(&arr);

    // seeks are clamped to [0, length] and never fail
    assert_eq!(reader.seek(SeekFrom::Start(1000)), 32);
    assert_eq!(reader.seek(SeekFrom::Current(-1000)), 0);
    assert_eq!(reader.seek(SeekFrom::End(-1000)), 0);
    assert_eq!(reader.seek(SeekFrom::End(5)), 32);
    assert_eq!(reader.seek(SeekFrom::Current(i64::MIN)), 0);

    // a borrow near the end returns fewer bytes than asked
    reader.seek(SeekFrom::End(-2));
    let tail = reader.read_borrow(10);
    assert_eq!(tail, &[0x7c, 0xcd]);
    assert_eq!(reader.position(), 32);
    assert_eq!(reader.read_borrow(4), &[] as &[u8]);

    // skip reports how many bytes were actually skipped
    reader.seek(SeekFrom::Start(30));
    assert_eq!(reader.skip(10), 2);
    assert_eq!(reader.position(), 32);
}
