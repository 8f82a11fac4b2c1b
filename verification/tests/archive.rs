use std::io::{Cursor, Read};

use zipstream::date::Timestamp;
use zipstream::error::Error;
use zipstream::{write_archive, InputFile, Zipper};

fn ts() -> Timestamp {
    Timestamp { year: 2024, month: 5, day: 17, hour: 10, minute: 30, second: 44 }
}

fn build(files: Vec<(&str, Vec<u8>)>) -> Vec<u8> {
    let inputs: Vec<InputFile> = files
        .into_iter()
        .map(|(n, c)| InputFile { name: n.as_bytes().to_vec(), modified: ts(), content: c })
        .collect();
    write_archive(&inputs).expect("archive should build")
}

fn u16_at(b: &[u8], i: usize) -> u16 {
    u16::from_le_bytes([b[i], b[i + 1]])
}

fn u32_at(b: &[u8], i: usize) -> u32 {
    u32::from_le_bytes([b[i], b[i + 1], b[i + 2], b[i + 3]])
}

#[test]
fn three_files_enumerate_in_order() {
    let c_content: Vec<u8> = (0..8192u32).map(|i| (i % 251) as u8).collect();
    let files = vec![
        ("a.txt", b"hello".to_vec()),
        ("b.txt", Vec::new()),
        ("sub/c.txt", c_content.clone()),
    ];
    let bytes = build(files);

    let mut archive = zip::ZipArchive::new(Cursor::new(bytes)).expect("cannot open archive");
    assert_eq!(archive.len(), 3);

    let expected: Vec<(&str, Vec<u8>)> = vec![
        ("a.txt", b"hello".to_vec()),
        ("b.txt", Vec::new()),
        ("sub/c.txt", c_content),
    ];
    for (i, (name, content)) in expected.iter().enumerate() {
        let mut file = archive.by_index(i).expect("entry error");
        assert_eq!(file.name(), *name);
        assert_eq!(file.size(), content.len() as u64);
        let mut read_back = Vec::new();
        file.read_to_end(&mut read_back).expect("read content error");
        assert_eq!(&read_back, content);
    }
}

#[test]
fn entry_checksum_matches_content() {
    let content = b"123456789".to_vec();
    let bytes = build(vec![("check.bin", content.clone())]);
    let mut archive = zip::ZipArchive::new(Cursor::new(bytes)).expect("cannot open archive");
    let file = archive.by_index(0).expect("entry error");
    // The crc-32 (IEEE) of "123456789" is the classic check value.
    assert_eq!(file.crc32(), 0xCBF43926);
    assert_eq!(file.crc32(), crc32fast::hash(&content));
}

#[test]
fn modification_time_survives_to_dos_granularity() {
    let bytes = build(vec![("t.txt", b"x".to_vec())]);
    let mut archive = zip::ZipArchive::new(Cursor::new(bytes)).expect("cannot open archive");
    let file = archive.by_index(0).expect("entry error");
    let dt = file.last_modified().expect("no timestamp");
    assert_eq!(dt.year(), 2024);
    assert_eq!(dt.month(), 5);
    assert_eq!(dt.day(), 17);
    assert_eq!(dt.hour(), 10);
    assert_eq!(dt.minute(), 30);
    assert_eq!(dt.second(), 44);
}

#[test]
fn directory_offsets_point_at_local_headers() {
    let bytes = build(vec![("one.txt", b"abcde".to_vec()), ("two.txt", b"fg".to_vec())]);
    let n = bytes.len();

    // End-of-directory record: fixed 22 bytes, no comment.
    let eocd = n - 22;
    assert_eq!(u32_at(&bytes, eocd), 0x06054b50);
    assert_eq!(u16_at(&bytes, eocd + 8), 2, "entry count on disk");
    assert_eq!(u16_at(&bytes, eocd + 10), 2, "total entry count");
    let dir_size = u32_at(&bytes, eocd + 12) as usize;
    let dir_offset = u32_at(&bytes, eocd + 16) as usize;
    assert_eq!(dir_offset + dir_size + 22, n, "directory abuts the end record");

    // The directory begins right after the last descriptor: the descriptor
    // signature sits 16 bytes before it.
    assert_eq!(u32_at(&bytes, dir_offset - 16), 0x08074b50);

    // Each central entry's offset field points at a local header signature
    // whose name matches the entry's.
    let mut p = dir_offset;
    for _ in 0..2 {
        assert_eq!(u32_at(&bytes, p), 0x02014b50);
        let name_len = u16_at(&bytes, p + 28) as usize;
        let local = u32_at(&bytes, p + 42) as usize;
        assert_eq!(u32_at(&bytes, local), 0x04034b50);
        let local_name_len = u16_at(&bytes, local + 26) as usize;
        assert_eq!(name_len, local_name_len);
        assert_eq!(bytes[p + 46..p + 46 + name_len], bytes[local + 30..local + 30 + name_len]);
        p += 46 + name_len;
    }
    assert_eq!(p, dir_offset + dir_size);
}

#[test]
fn two_runs_are_byte_identical() {
    let files = || {
        vec![("a.txt", b"same input".to_vec()), ("b/b.bin", vec![7u8; 1000])]
    };
    let first = build(files());
    let second = build(files());
    assert_eq!(first, second);
}

#[test]
fn chunking_does_not_change_the_stream() {
    let content = b"split me across several chunks".to_vec();
    let whole = build(vec![("c.txt", content.clone())]);

    let mut z = Zipper::from_iter(Vec::new());
    let mut out = Vec::new();
    out.extend_from_slice(&z.begin_file(b"c.txt".to_vec(), ts()).expect("header"));
    for chunk in content.chunks(7) {
        z.consume_chunk(chunk).expect("chunk");
        out.extend_from_slice(chunk);
    }
    out.extend_from_slice(&z.end_file().expect("descriptor"));
    out.extend_from_slice(&z.finish().expect("directory"));

    assert_eq!(whole, out);
}

#[test]
fn empty_file_gets_zero_descriptor() {
    let mut z = Zipper::from_iter(Vec::new());
    let header = z.begin_file(b"empty.txt".to_vec(), ts()).expect("header");
    assert_eq!(header.len(), 30 + "empty.txt".len());
    let desc = z.end_file().expect("descriptor");
    assert_eq!(desc.len(), 16);
    assert_eq!(u32_at(&desc, 0), 0x08074b50);
    assert_eq!(u32_at(&desc, 4), crc32fast::hash(b""), "crc-32 of no bytes");
    assert_eq!(u32_at(&desc, 8), 0, "compressed size");
    assert_eq!(u32_at(&desc, 12), 0, "uncompressed size");

    let dir = z.finish().expect("directory");
    let mut whole = header;
    whole.extend_from_slice(&desc);
    whole.extend_from_slice(&dir);
    let mut archive = zip::ZipArchive::new(Cursor::new(whole)).expect("cannot open archive");
    assert_eq!(archive.len(), 1);
    let file = archive.by_index(0).expect("entry error");
    assert_eq!(file.size(), 0);
}

#[test]
fn overlong_name_aborts_before_emitting() {
    let name = vec![b'a'; 70000];
    let mut z = Zipper::from_iter(Vec::new());
    assert_eq!(z.begin_file(name.clone(), ts()), Err(Error::FileNameTooBig));
    // Nothing was emitted for the failed file: the run's output so far is
    // still a valid, empty archive.
    let dir = z.finish().expect("directory");
    let mut archive = zip::ZipArchive::new(Cursor::new(dir)).expect("cannot open archive");
    assert_eq!(archive.len(), 0);

    let inputs = vec![InputFile { name, modified: ts(), content: b"body".to_vec() }];
    assert_eq!(write_archive(&inputs), Err(Error::FileNameTooBig));
}

#[test]
fn next_file_hands_names_out_in_order() {
    let mut z = Zipper::from_iter(vec![b"first".to_vec(), b"second".to_vec()]);
    assert_eq!(z.next_file(), Some(b"first".to_vec()));
    assert_eq!(z.next_file(), Some(b"second".to_vec()));
    assert_eq!(z.next_file(), None);
}
