use zipstream::date::Timestamp;
use zipstream::error::Error;
use zipstream::zip::{Descriptor, Directory, FileHeader, ToBytes};

fn ts() -> Timestamp {
    Timestamp { year: 2024, month: 5, day: 17, hour: 10, minute: 30, second: 44 }
}

#[test]
fn dos_fields_pack_exactly() {
    let t = ts();
    // 10 << 11 | 30 << 5 | 44 / 2
    assert_eq!(t.dos_timepart(), 21462);
    // (2024 - 1980) << 9 | 5 << 5 | 17
    assert_eq!(t.dos_datepart(), Ok(22705));

    let epoch = Timestamp { year: 1980, month: 1, day: 1, hour: 0, minute: 0, second: 0 };
    assert_eq!(epoch.dos_timepart(), 0);
    assert_eq!(epoch.dos_datepart(), Ok(0x21));
}

#[test]
fn date_before_epoch_is_refused() {
    let old_date = Timestamp { year: 1979, month: 12, day: 31, hour: 23, minute: 59, second: 59 };
    assert_eq!(old_date.dos_datepart(), Err(Error::DateBeforeEpoch));
    let header = FileHeader::new(b"old.txt".to_vec(), old_date);
    assert_eq!(header.to_bytes(), Err(Error::DateBeforeEpoch));
}

#[test]
fn local_header_bytes_are_exact() {
    let header = FileHeader::new(b"a.txt".to_vec(), ts());
    let bytes = header.to_bytes().expect("header");
    let expected: Vec<u8> = vec![
        0x50, 0x4b, 0x03, 0x04, // signature
        20, 0, // version needed to extract
        0x08, 0x08, // flags: descriptor follows, names are UTF-8
        0, 0, // stored, no compression
        0xd6, 0x53, // time 21462
        0xb1, 0x58, // date 22705
        0, 0, 0, 0, // crc-32, unknown yet
        0, 0, 0, 0, // compressed size, unknown yet
        0, 0, 0, 0, // uncompressed size, unknown yet
        5, 0, // name length
        0, 0, // extra field length
        b'a', b'.', b't', b'x', b't',
    ];
    assert_eq!(bytes, expected);
}

#[test]
fn header_refuses_overlong_name() {
    let header = FileHeader::new(vec![b'n'; 70000], ts());
    assert_eq!(header.to_bytes(), Err(Error::FileNameTooBig));
}

#[test]
fn descriptor_bytes_are_exact() {
    let desc = Descriptor::new(5, 0x11223344);
    let bytes = desc.to_bytes().expect("descriptor");
    let expected: Vec<u8> = vec![
        0x50, 0x4b, 0x07, 0x08, // signature
        0x44, 0x33, 0x22, 0x11, // crc-32
        5, 0, 0, 0, // compressed size
        5, 0, 0, 0, // uncompressed size
    ];
    assert_eq!(bytes, expected);
}

#[test]
fn descriptor_refuses_file_over_32_bits() {
    let desc = Descriptor::new(0x1_0000_0000, 0);
    assert_eq!(desc.to_bytes(), Err(Error::FileTooBig(0x1_0000_0000)));
}

#[test]
fn directory_serializes_entries_then_end_record() {
    let mut dir = Directory::new();
    dir.add_entry(FileHeader::new(b"a.txt".to_vec(), ts()), Descriptor::new(5, 0xCBF43926), 0);
    let bytes = dir.finalize(1000).expect("directory");
    // One 46-byte entry plus its 5-byte name, then the 22-byte end record.
    assert_eq!(bytes.len(), 46 + 5 + 22);
    assert_eq!(&bytes[0..4], &[0x50, 0x4b, 0x01, 0x02]);
    let end = 46 + 5;
    assert_eq!(&bytes[end..end + 4], &[0x50, 0x4b, 0x05, 0x06]);
    // Entry counts, directory size, directory offset.
    assert_eq!(u16::from_le_bytes([bytes[end + 8], bytes[end + 9]]), 1);
    assert_eq!(u16::from_le_bytes([bytes[end + 10], bytes[end + 11]]), 1);
    let size = u32::from_le_bytes([bytes[end + 12], bytes[end + 13], bytes[end + 14], bytes[end + 15]]);
    assert_eq!(size, 51, "entries byte length, end record excluded");
    let offset = u32::from_le_bytes([bytes[end + 16], bytes[end + 17], bytes[end + 18], bytes[end + 19]]);
    assert_eq!(offset, 1000, "directory start offset");
}

#[test]
fn directory_refuses_offsets_over_32_bits() {
    let dir = Directory::new();
    assert_eq!(dir.finalize(0x1_0000_0000), Err(Error::ArchiveTooBig));

    let mut with_entry = Directory::new();
    with_entry.add_entry(
        FileHeader::new(b"far.txt".to_vec(), ts()),
        Descriptor::new(1, 0),
        0x1_0000_0000,
    );
    assert_eq!(with_entry.finalize(0), Err(Error::ArchiveTooBig));
}

#[test]
fn directory_reports_first_failing_entry() {
    let mut dir = Directory::new();
    dir.add_entry(FileHeader::new(b"ok.txt".to_vec(), ts()), Descriptor::new(1, 0), 0);
    dir.add_entry(
        FileHeader::new(b"big.bin".to_vec(), ts()),
        Descriptor::new(0x1_0000_0001, 0),
        100,
    );
    assert_eq!(dir.finalize(200), Err(Error::FileTooBig(0x1_0000_0001)));
}
