use rhtar::header::{IsTypeTrait, UsedBlocksTrait, V7Header, V7TypeFlag};

fn sample_v7_header() -> V7Header {
    let mut header = V7Header::new(V7TypeFlag::RegularFile);
    header.name = "test.txt".to_string();
    header.mode = 0o644;
    header.uid = 1000;
    header.gid = 1000;
    header.size = 1234;
    header.mtime = 1_600_000_000;
    header.chksum = 0;
    header.linkname = "".to_string();
    header
}

fn block_of(bytes: &[u8]) -> [u8; 512] {
    let mut buf = [0u8; 512];
    buf.copy_from_slice(&bytes[..512]);
    buf
}

#[test]
fn v7_round_trip_save_load() {
    let mut header = sample_v7_header();
    let mut out: Vec<u8> = Vec::new();
    header.save(&mut out);
    assert_eq!(out.len(), 512);
    let buf = block_of(&out);
    let loaded = match V7Header::load(&buf) {
        Ok(opt) => match opt {
            Some(h) => h,
            None => {
                assert!(false, "Invalid typeflag");
                return;
            }
        },
        Err(e) => {
            assert!(false, "Failed to load header: {}", e.message());
            return;
        }
    };
    assert_eq!(header.name, loaded.name);
    assert_eq!(header.mode, loaded.mode);
    assert_eq!(header.uid, loaded.uid);
    assert_eq!(header.gid, loaded.gid);
    assert_eq!(header.size, loaded.size);
    assert_eq!(header.mtime, loaded.mtime);
    assert_eq!(header.typeflag, loaded.typeflag);
    assert_eq!(header.linkname, loaded.linkname);
    assert_eq!(header.chksum, loaded.chksum);
    assert_eq!(loaded.get_saved_blocks(), 1);
}

#[test]
fn v7_minimal_header() {
    let mut header = V7Header::new(V7TypeFlag::Unknown(0));
    let mut out: Vec<u8> = Vec::new();
    header.save(&mut out);
    assert_eq!(out.len(), 512);
    assert_eq!(out[156], 0);
    let buf = block_of(&out);
    // A type flag that is none of V7 makes the block no V7 header.
    match V7Header::load(&buf) {
        Ok(opt) => assert!(opt.is_none()),
        Err(e) => assert!(false, "Failed to load header: {}", e.message()),
    }
    // With a type flag of V7 the same header is read back.
    let mut header = V7Header::new(V7TypeFlag::Directory);
    let mut out: Vec<u8> = Vec::new();
    header.save(&mut out);
    let buf = block_of(&out);
    let loaded = V7Header::load(&buf).unwrap().unwrap();
    assert_eq!(header.name, loaded.name);
    assert_eq!(header.size, loaded.size);
    assert_eq!(loaded.typeflag, V7TypeFlag::Directory);
}

#[test]
fn v7_block_layout() {
    let mut header = sample_v7_header();
    header.linkname = "target".to_string();
    let mut out: Vec<u8> = vec![9u8];
    header.save(&mut out);
    assert_eq!(out.len(), 513);
    assert_eq!(out[0], 9);
    let block = &out[1..];
    assert_eq!(&block[0..9], b"test.txt\0");
    assert_eq!(&block[100..108], b"0000644\0");
    assert_eq!(&block[108..116], b"0001750\0");
    assert_eq!(&block[116..124], b"0001750\0");
    assert_eq!(&block[124..136], b"00000002322\0");
    assert_eq!(&block[136..148], b"13727410000\0");
    assert_eq!(block[156], b'0');
    assert_eq!(&block[157..164], b"target\0");
    assert!(block[257..].iter().all(|b| *b == 0));
    let mut sum: u32 = 0;
    for (i, b) in block.iter().enumerate() {
        sum += if (148..156).contains(&i) { 32 } else { *b as u32 };
    }
    assert_eq!(header.chksum, sum);
    let text = format!("{:06o}\0 ", sum);
    assert_eq!(&block[148..156], text.as_bytes());
    assert_eq!(header.get_saved_blocks(), 1);
    assert_eq!(header.get_used_blocks(), 1);
    assert_eq!(header.calc_used_blocks(), 1);
}

#[test]
fn v7_type_flags() {
    let bytes = [b'0', b'1', b'2', b'5', b'6'];
    let flags = [
        V7TypeFlag::RegularFile,
        V7TypeFlag::HardLink,
        V7TypeFlag::SymbolicLink,
        V7TypeFlag::Directory,
        V7TypeFlag::FIFO,
    ];
    for i in 0..5 {
        assert_eq!(V7TypeFlag::from(bytes[i]), flags[i]);
        assert_eq!(u8::from(flags[i]), bytes[i]);
    }
    assert_eq!(V7TypeFlag::from(b'3'), V7TypeFlag::Unknown(b'3'));
    assert_eq!(u8::from(V7TypeFlag::Unknown(0x42)), 0x42);
    assert!(V7TypeFlag::RegularFile.is_regular_file());
    assert!(V7TypeFlag::HardLink.is_hard_link());
    assert!(V7TypeFlag::SymbolicLink.is_symbolic_link());
    assert!(V7TypeFlag::Directory.is_directory());
    assert!(V7TypeFlag::FIFO.is_fifo());
    assert!(!V7TypeFlag::RegularFile.is_character_special());
    assert!(!V7TypeFlag::RegularFile.is_block_special());
    assert!(!V7TypeFlag::RegularFile.is_contiguous_file());
    assert!(!V7TypeFlag::Unknown(b'0').is_regular_file());
}

#[test]
fn v7_load_reports_bad_fields() {
    let mut header = sample_v7_header();
    let mut out: Vec<u8> = Vec::new();
    header.save(&mut out);
    let mut buf = block_of(&out);
    buf[100] = b'9';
    assert_eq!(V7Header::load(&buf).err(), Some(rhtar::error::HeaderError::BadOctal));
    let mut buf = block_of(&out);
    buf[0] = 0xff;
    assert_eq!(V7Header::load(&buf).err(), Some(rhtar::error::HeaderError::BadEncoding));
}

#[test]
fn v7_fields_are_set_and_read() {
    let mut h = V7Header::new(V7TypeFlag::RegularFile);
    h.set_name("a.txt".to_string());
    h.set_mode(0o644);
    h.set_uid(1000);
    h.set_gid(100);
    h.set_size(42);
    h.set_mtime(1_600_000_000);
    h.set_linkname("b.txt".to_string());
    h.set_typeflag(V7TypeFlag::SymbolicLink);
    assert_eq!(h.get_name(), "a.txt");
    assert_eq!((h.get_mode(), h.get_uid(), h.get_gid()), (0o644, 1000, 100));
    assert_eq!((h.content_size(), h.get_mtime()), (42, 1_600_000_000));
    assert_eq!(h.get_linkname(), "b.txt");
    assert_eq!(h.type_flag(), V7TypeFlag::SymbolicLink);
    let mut bytes = Vec::new();
    h.save(&mut bytes);
    assert_eq!(&bytes[100..108], b"0000644\0");
    assert_eq!(bytes[156], b'2');
    assert_eq!(h.get_chksum(), h.chksum);
    let back = V7Header::load(&block_of(&bytes)).unwrap().unwrap();
    assert_eq!(back.get_mode(), 0o644);
    assert_eq!(back.get_linkname(), "b.txt");
}
