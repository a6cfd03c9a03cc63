//! The produced archives must be readable by an independent USTAR
//! implementation: write one with the library, read it back with the `tar`
//! crate, and compare every field and body.
use std::io::Read;

use tarpack::header::TarAddOpts;
use tarpack::packer::StreamingTarPacker;

#[test]
fn archive_reads_back_with_tar_crate() {
    let now: u32 = 1_650_000_000;
    let opts_dir = TarAddOpts { mode: None, mtime: Some(now), uid: Some(1000), gid: Some(1000) };
    let opts_file = TarAddOpts { mode: Some(0o640), mtime: Some(123_456), uid: None, gid: None };

    let mut p = StreamingTarPacker::new();
    let mut archive: Vec<u8> = Vec::new();
    archive.extend_from_slice(&p.add_dir(b"logs", &opts_dir, now).unwrap());
    let body = b"hello world".to_vec();
    archive.extend_from_slice(
        &p.add_file_stream(b"logs/a.txt", &opts_file, body.len() as u32, now).unwrap(),
    );
    archive.extend_from_slice(&body);
    archive.extend_from_slice(&p.end_file());
    archive.extend_from_slice(&p.finish());
    assert_eq!(archive.len() % 512, 0);

    let mut reader = tar::Archive::new(&archive[..]);
    let mut entries = reader.entries().unwrap();

    let dir = entries.next().unwrap().unwrap();
    assert_eq!(dir.path().unwrap().to_str().unwrap(), "logs");
    assert_eq!(dir.header().entry_type(), tar::EntryType::Directory);
    assert_eq!(dir.header().size().unwrap(), 0);
    assert_eq!(dir.header().mode().unwrap(), 0o755);
    assert_eq!(dir.header().mtime().unwrap(), now as u64);
    assert_eq!(dir.header().uid().unwrap(), 1000);
    assert_eq!(dir.header().gid().unwrap(), 1000);
    assert!(dir.header().cksum().is_ok());

    let mut file = entries.next().unwrap().unwrap();
    assert_eq!(file.path().unwrap().to_str().unwrap(), "logs/a.txt");
    assert_eq!(file.header().entry_type(), tar::EntryType::Regular);
    assert_eq!(file.header().size().unwrap(), body.len() as u64);
    assert_eq!(file.header().mode().unwrap(), 0o640);
    assert_eq!(file.header().mtime().unwrap(), 123_456);
    let mut contents = Vec::new();
    file.read_to_end(&mut contents).unwrap();
    assert_eq!(contents, body);

    assert!(entries.next().is_none());
}
