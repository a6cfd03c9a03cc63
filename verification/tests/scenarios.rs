use tarpack::TarError;
use tarpack::header::{resolve_metadata, EntryType, TarAddOpts};
use tarpack::packer::{padding_len, StreamingTarPacker};

fn no_opts() -> TarAddOpts {
    TarAddOpts { mode: None, mtime: None, uid: None, gid: None }
}

/// Sum of all 512 header bytes with the checksum field counted as spaces.
fn recompute_cksum(h: &[u8]) -> u32 {
    let mut sum: u32 = 0;
    for i in 0..512 {
        let b = if (148..156).contains(&i) { 0x20u8 } else { h[i] };
        sum += b as u32;
    }
    sum
}

/// The stored checksum: seven octal digits at 148..155, then a NUL.
fn stored_cksum(h: &[u8]) -> u32 {
    assert_eq!(h[155], 0);
    u32::from_str_radix(std::str::from_utf8(&h[148..155]).unwrap(), 8).unwrap()
}

#[test]
fn dir_then_finish_is_1536_bytes() {
    let now: u32 = 1_700_000_000;
    let mut p = StreamingTarPacker::new();
    let header = p.add_dir(b"logs", &no_opts(), now).unwrap();
    let term = p.finish();
    assert_eq!(header.len(), 512);
    assert_eq!(term.len(), 1024);
    assert_eq!(header.len() + term.len(), 1536);
    // name field: the path, zero filled
    assert_eq!(&header[0..4], b"logs");
    assert!(header[4..100].iter().all(|&b| b == 0));
    // directory defaults: mode 0o755, type flag '5', size field unset
    assert_eq!(&header[100..108], b"0000755\0");
    assert_eq!(header[156], b'5');
    assert_eq!(&header[124..136], b"00000000000\0");
    // magic and version
    assert_eq!(&header[257..263], b"ustar\0");
    assert_eq!(&header[263..265], b"00");
    // terminator is all zero
    assert!(term.iter().all(|&b| b == 0));
}

#[test]
fn file_with_body_hello() {
    let now: u32 = 1_700_000_000;
    let opts = TarAddOpts { mode: Some(0o600), mtime: None, uid: None, gid: None };
    let mut p = StreamingTarPacker::new();
    let header = p.add_file_stream(b"a.txt", &opts, 5, now).unwrap();
    let body = b"hello".to_vec();
    let pad = p.end_file();
    let term = p.finish();
    assert_eq!(header.len(), 512);
    assert_eq!(pad.len(), 507);
    assert!(pad.iter().all(|&b| b == 0));
    assert_eq!(header.len() + body.len() + pad.len() + term.len(), 2048);
    assert_eq!(&header[100..108], b"0000600\0");
    assert_eq!(&header[124..136], b"00000000005\0");
    assert_eq!(header[156], b'0');
}

#[test]
fn zero_size_file_archive() {
    let now: u32 = 12345;
    let mut p = StreamingTarPacker::new();
    let header = p.add_file_stream(b"empty.bin", &no_opts(), 0, now).unwrap();
    let pad = p.end_file();
    let term = p.finish();
    // no body and no padding: exactly one header block then 1024 zero bytes
    assert_eq!(pad.len(), 0);
    assert_eq!(header.len(), 512);
    assert_eq!(term.len(), 1024);
    assert!(term.iter().all(|&b| b == 0));
    let mut archive = header.clone();
    archive.extend_from_slice(&pad);
    archive.extend_from_slice(&term);
    assert_eq!(archive.len(), 1536);
    assert_eq!(&archive[0..512], &header[..]);
    assert!(archive[512..1536].iter().all(|&b| b == 0));
}

#[test]
fn long_path_fails_before_output() {
    let now: u32 = 7;
    let long_path = [b'x'; 101];
    let mut p = StreamingTarPacker::new();
    let r = p.add_dir(&long_path, &no_opts(), now);
    assert_eq!(r, Err(TarError::PathTooLong));
    let r2 = p.add_file_stream(&long_path, &no_opts(), 9, now);
    assert_eq!(r2, Err(TarError::PathTooLong));
    // a 100-byte path still fits
    let edge_path = [b'y'; 100];
    let header = p.add_dir(&edge_path, &no_opts(), now).unwrap();
    assert_eq!(&header[0..100], &edge_path[..]);
    // nothing but the good entry and the terminator is ever produced
    let term = p.finish();
    assert_eq!(header.len() + term.len(), 1536);
}

#[test]
fn two_files_strict_order() {
    let now: u32 = 1_600_000_000;
    let mut p = StreamingTarPacker::new();
    let mut archive: Vec<u8> = Vec::new();

    let h1 = p.add_file_stream(b"one.txt", &no_opts(), 3, now).unwrap();
    archive.extend_from_slice(&h1);
    archive.extend_from_slice(b"abc");
    let pad1 = p.end_file();
    assert_eq!(pad1.len(), 509);
    archive.extend_from_slice(&pad1);

    let body2 = vec![0xABu8; 600];
    let h2 = p.add_file_stream(b"two.txt", &no_opts(), 600, now).unwrap();
    archive.extend_from_slice(&h2);
    archive.extend_from_slice(&body2);
    let pad2 = p.end_file();
    assert_eq!(pad2.len(), 424);
    archive.extend_from_slice(&pad2);

    archive.extend_from_slice(&p.finish());

    // strict request order: header, body, padding of the first entry, then
    // of the second, then the terminator
    assert_eq!(archive.len(), 512 + 512 + 512 + 1024 + 1024);
    assert_eq!(&archive[0..7], b"one.txt");
    assert_eq!(&archive[512..515], b"abc");
    assert!(archive[515..1024].iter().all(|&b| b == 0));
    assert_eq!(&archive[1024..1031], b"two.txt");
    assert!(archive[1536..2136].iter().all(|&b| b == 0xAB));
    assert!(archive[2136..2560].iter().all(|&b| b == 0));
    assert!(archive[2560..3584].iter().all(|&b| b == 0));
    assert_eq!(archive.len() % 512, 0);
}

#[test]
fn checksum_recomputes_on_every_header() {
    let now: u32 = 1_699_999_999;
    let opts = TarAddOpts { mode: Some(0o640), mtime: Some(42), uid: Some(1000), gid: Some(100) };
    let mut p = StreamingTarPacker::new();
    let dir_header = p.add_dir(b"d", &opts, now).unwrap();
    assert_eq!(stored_cksum(&dir_header), recompute_cksum(&dir_header));
    let file_header = p.add_file_stream(b"f", &no_opts(), 77, now).unwrap();
    assert_eq!(stored_cksum(&file_header), recompute_cksum(&file_header));
    let _ = p.end_file();
    let _ = p.finish();
}

#[test]
fn resolver_idempotent_with_explicit_inputs() {
    let opts = TarAddOpts { mode: Some(0o711), mtime: Some(99), uid: Some(12), gid: Some(34) };
    let a = resolve_metadata(&opts, EntryType::Regular, 1);
    let b = resolve_metadata(&opts, EntryType::Regular, 2);
    assert_eq!(a, b);
    assert_eq!(a.mode, 0o711);
    assert_eq!(a.mtime, 99);
    assert_eq!(a.uid, Some(12));
    assert_eq!(a.gid, Some(34));
}

#[test]
fn resolver_defaults() {
    let now: u32 = 555;
    let m_file = resolve_metadata(&no_opts(), EntryType::Regular, now);
    assert_eq!(m_file.mode, 0o644);
    assert_eq!(m_file.mtime, now);
    assert_eq!(m_file.uid, None);
    assert_eq!(m_file.gid, None);
    let m_dir = resolve_metadata(&no_opts(), EntryType::Directory, now);
    assert_eq!(m_dir.mode, 0o755);
}

#[test]
fn padding_rounds_to_block() {
    assert_eq!(padding_len(0), 0);
    assert_eq!(padding_len(1), 511);
    assert_eq!(padding_len(5), 507);
    assert_eq!(padding_len(511), 1);
    assert_eq!(padding_len(512), 0);
    assert_eq!(padding_len(513), 511);
    assert_eq!(padding_len(1024), 0);
    assert_eq!(padding_len(u32::MAX), (512 - (u32::MAX % 512) as usize) % 512);
}

#[test]
fn mtime_and_ids_encode_in_octal() {
    let now: u32 = 1_700_000_000;
    let opts = TarAddOpts { mode: None, mtime: Some(0o7654321), uid: Some(0o123), gid: Some(0o45) };
    let mut p = StreamingTarPacker::new();
    let h = p.add_dir(b"t", &opts, now).unwrap();
    assert_eq!(&h[136..148], b"00007654321\0");
    assert_eq!(&h[108..116], b"0000123\0");
    assert_eq!(&h[116..124], b"0000045\0");
    let _ = p.finish();
}

#[test]
fn mtime_defaults_to_injected_clock() {
    let now: u32 = 0o777;
    let mut p = StreamingTarPacker::new();
    let h = p.add_dir(b"t", &no_opts(), now).unwrap();
    assert_eq!(&h[136..148], b"00000000777\0");
    let _ = p.finish();
}
