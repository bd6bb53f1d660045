use rhtar::header::{IsTypeTrait, UsedBlocksTrait, UstarHeader, UstarTypeFlag};

fn sample_ustar_header() -> UstarHeader {
    let mut header = UstarHeader::new(UstarTypeFlag::RegularFile);
    header.name = "testfile.txt".to_string();
    header.mode = 0o644;
    header.uid = 1000;
    header.gid = 1000;
    header.size = 1234;
    header.mtime = 1_600_000_000;
    header.chksum = 0;
    header.linkname = "".to_string();
    header.magic = "ustar\0".to_string();
    header.version = "00".to_string();
    header.uname = "user".to_string();
    header.gname = "group".to_string();
    header.devmajor = 0;
    header.devminor = 0;
    header.prefix = "".to_string();
    header
}

fn ustar_block_of(bytes: &[u8]) -> [u8; 512] {
    let mut buf = [0u8; 512];
    buf.copy_from_slice(&bytes[..512]);
    buf
}

#[test]
fn ustar_round_trip_save_load() {
    let mut header = sample_ustar_header();
    assert_eq!(0, header.get_saved_blocks());
    let mut out: Vec<u8> = Vec::new();
    header.save(&mut out);
    let buf = ustar_block_of(&out);
    let loaded = match UstarHeader::load(&buf) {
        Ok(opt) => match opt {
            Some(h) => h,
            None => {
                assert!(false, "Invalida magic/version");
                return;
            }
        },
        Err(e) => {
            assert!(false, "Failed to load header: {}", e.message());
            return;
        }
    };
    assert_eq!(header.get_saved_blocks(), 1);
    assert_eq!(header.name, loaded.name);
    assert_eq!(header.mode, loaded.mode);
    assert_eq!(header.uid, loaded.uid);
    assert_eq!(header.gid, loaded.gid);
    assert_eq!(header.size, loaded.size);
    assert_eq!(header.mtime, loaded.mtime);
    assert_eq!(header.typeflag, loaded.typeflag);
    assert_eq!(header.linkname, loaded.linkname);
    assert_eq!(header.magic, loaded.magic);
    assert_eq!(header.version, loaded.version);
    assert_eq!(header.uname, loaded.uname);
    assert_eq!(header.gname, loaded.gname);
    assert_eq!(header.devmajor, loaded.devmajor);
    assert_eq!(header.devminor, loaded.devminor);
    assert_eq!(header.prefix, loaded.prefix);
}

#[test]
fn ustar_minimal_header() {
    let mut header = UstarHeader::new(UstarTypeFlag::Unknown(0));
    let mut out: Vec<u8> = Vec::new();
    header.save(&mut out);
    let buf = ustar_block_of(&out);
    let loaded = match UstarHeader::load(&buf) {
        Ok(opt) => match opt {
            Some(h) => h,
            None => {
                assert!(false, "Invalid magic/version");
                return;
            }
        },
        Err(e) => {
            assert!(false, "Failed to load header: {}", e.message());
            return;
        }
    };
    assert_eq!(header.name, loaded.name);
    assert_eq!(header.size, loaded.size);
    assert_eq!(loaded.typeflag, UstarTypeFlag::Unknown(0));
}

#[test]
fn ustar_block_layout() {
    let mut header = sample_ustar_header();
    header.prefix = "dir".to_string();
    header.devmajor = 8;
    header.devminor = 1;
    let mut out: Vec<u8> = Vec::new();
    header.save(&mut out);
    assert_eq!(out.len(), 512);
    assert_eq!(&out[0..13], b"testfile.txt\0");
    assert_eq!(&out[257..263], b"ustar\0");
    assert_eq!(&out[263..265], b"00");
    assert_eq!(&out[265..270], b"user\0");
    assert_eq!(&out[297..303], b"group\0");
    assert_eq!(&out[329..337], b"0000010\0");
    assert_eq!(&out[337..345], b"0000001\0");
    assert_eq!(&out[345..349], b"dir\0");
    assert!(out[500..].iter().all(|b| *b == 0));
    assert_eq!(header.get_used_blocks(), 1);
    assert_eq!(header.calc_used_blocks(), 1);
}

#[test]
fn ustar_load_refuses_other_magic() {
    let mut header = sample_ustar_header();
    let mut out: Vec<u8> = Vec::new();
    header.save(&mut out);
    let mut buf = ustar_block_of(&out);
    buf[257] = b'x';
    assert!(UstarHeader::load(&buf).unwrap().is_none());
    let mut buf = ustar_block_of(&out);
    buf[263] = b' ';
    assert!(UstarHeader::load(&buf).unwrap().is_none());
    let mut buf = ustar_block_of(&out);
    buf[262] = b' ';
    assert!(UstarHeader::load(&buf).unwrap().is_some());
}

#[test]
fn ustar_type_flags() {
    let bytes = [b'0', b'1', b'2', b'3', b'4', b'5', b'6', b'7'];
    let flags = [
        UstarTypeFlag::RegularFile,
        UstarTypeFlag::HardLink,
        UstarTypeFlag::SymbolicLink,
        UstarTypeFlag::CharacterSpecial,
        UstarTypeFlag::BlockSpecial,
        UstarTypeFlag::Directory,
        UstarTypeFlag::FIFO,
        UstarTypeFlag::ContiguousFile,
    ];
    for i in 0..8 {
        assert_eq!(UstarTypeFlag::from(bytes[i]), flags[i]);
        assert_eq!(u8::from(flags[i]), bytes[i]);
    }
    assert_eq!(UstarTypeFlag::from(b'x'), UstarTypeFlag::Unknown(b'x'));
    assert!(UstarTypeFlag::CharacterSpecial.is_character_special());
    assert!(UstarTypeFlag::BlockSpecial.is_block_special());
    assert!(UstarTypeFlag::ContiguousFile.is_contiguous_file());
    assert!(UstarTypeFlag::RegularFile.is_regular_file());
    assert!(UstarTypeFlag::HardLink.is_hard_link());
    assert!(UstarTypeFlag::SymbolicLink.is_symbolic_link());
    assert!(UstarTypeFlag::Directory.is_directory());
    assert!(UstarTypeFlag::FIFO.is_fifo());
    assert!(!UstarTypeFlag::Unknown(b'0').is_regular_file());
}
