use rhtar::header::{
    GnuHeader, GnuTypeFlag, IsTypeTrait, PaxHeader, PaxTypeFlag, TarHeader, UsedBlocksTrait,
    UstarHeader, UstarTypeFlag, V7Header, V7TypeFlag,
};
use rhtar::stream::Stream;

fn make_header_buf(magic: &[u8], version: &[u8], typeflag: u8) -> Vec<u8> {
    let mut buf = vec![0u8; 512];
    buf[257..257 + magic.len()].copy_from_slice(magic);
    buf[263..263 + version.len()].copy_from_slice(version);
    buf[156] = typeflag;
    buf
}

#[test]
fn detects_ustar() {
    let buf = make_header_buf(b"ustar\0", b"00", b'0');
    let mut stream = Stream::new(buf);
    match TarHeader::load(&mut stream) {
        Ok(h) => match h {
            TarHeader::Ustar(_) => {}
            _ => assert!(false, "Did not detect USTAR header"),
        },
        Err(e) => assert!(false, "Failed to load header: {}", e.message()),
    }
}

#[test]
fn detects_gnu() {
    let buf = make_header_buf(b"ustar ", b" \0", b'0');
    let mut stream = Stream::new(buf);
    match TarHeader::load(&mut stream) {
        Ok(h) => match h {
            TarHeader::Gnu(_) => {}
            _ => assert!(false, "Did not detect GNU header"),
        },
        Err(e) => assert!(false, "Failed to load header: {}", e.message()),
    }
}

#[test]
fn detects_pax() {
    let buf = make_header_buf(b"ustar\0", b"00", b'x');
    let mut stream = Stream::new(buf);
    match TarHeader::load(&mut stream) {
        Ok(h) => match h {
            TarHeader::Pax(_) => {}
            _ => assert!(false, "Did not detect PAX header"),
        },
        Err(e) => assert!(false, "Failed to load header: {}", e.message()),
    };
}

#[test]
fn detects_v7() {
    let mut buf = vec![0u8; 512];
    buf[156] = b'0';
    let mut stream = Stream::new(buf);
    match TarHeader::load(&mut stream) {
        Ok(h) => match h {
            TarHeader::V7(_) => {}
            _ => assert!(false, "Did not detect V7 header"),
        },
        Err(e) => assert!(false, "Failed to load header: {}", e.message()),
    };
}

#[test]
fn detects_unknown() {
    let mut buf = vec![0xFFu8; 512];
    buf[257..263].copy_from_slice(b"bogus!");
    buf[156] = 0xFF;
    let mut stream = Stream::new(buf);
    match TarHeader::load(&mut stream) {
        Ok(h) => match h {
            TarHeader::Unknown(raw, size) => {
                assert_eq!(&raw[257..263], b"bogus!");
                assert_eq!(raw[156], 0xFF);
                assert_eq!(size, 512);
            }
            _ => assert!(false, "Did not detect Unknown header"),
        },
        Err(e) => assert!(false, "Failed to load header: {}", e.message()),
    }
}

#[test]
fn round_trip_unknown() {
    let mut bytes = [0xABu8; 512];
    bytes[257..263].copy_from_slice(b"custom");
    bytes[156] = 0x42;
    let mut header = TarHeader::Unknown(bytes, 512);
    let mut out: Vec<u8> = Vec::new();
    header.save(&mut out);
    let mut buf = Stream::new(out);
    let loaded = TarHeader::load(&mut buf).unwrap();
    match loaded {
        TarHeader::Unknown(raw, size) => {
            assert_eq!(&raw[257..263], b"custom");
            assert_eq!(raw[156], 0x42);
            assert_eq!(size, 512);
            assert_eq!(raw, bytes);
        }
        _ => panic!("Did not round-trip Unknown header"),
    }
}

#[test]
fn short_read_is_unknown() {
    let mut stream = Stream::new(vec![7u8; 100]);
    let mut header = TarHeader::load(&mut stream).unwrap();
    match &header {
        TarHeader::Unknown(raw, size) => {
            assert_eq!(*size, 100);
            assert!(raw[..100].iter().all(|b| *b == 7));
            assert!(raw[100..].iter().all(|b| *b == 0));
        }
        _ => panic!("expected the bytes as they are"),
    }
    assert_eq!(stream.pos, 100);
    let mut out: Vec<u8> = Vec::new();
    header.save(&mut out);
    assert_eq!(out, vec![7u8; 100]);
    assert_eq!(header.get_content_size(), 0);
    assert_eq!(header.get_used_blocks(), 0);
    assert_eq!(header.get_saved_blocks(), 0);
    assert_eq!(header.calc_used_blocks(), 0);
    assert!(!header.is_regular_file());
    let mut empty = Stream::new(Vec::new());
    let mut header = TarHeader::load(&mut empty).unwrap();
    let mut out: Vec<u8> = Vec::new();
    header.save(&mut out);
    assert!(out.is_empty());
}

#[test]
fn gnu_magic_comes_before_the_pax_flag() {
    let buf = make_header_buf(b"ustar ", b" \0", b'x');
    let mut stream = Stream::new(buf);
    match TarHeader::load(&mut stream).unwrap() {
        TarHeader::Gnu(h) => {
            assert_eq!(h.typeflag, GnuTypeFlag::Ustar(UstarTypeFlag::Unknown(b'x')))
        }
        _ => panic!("expected a GNU header"),
    }
}

#[test]
fn dispatcher_forwards_size_kind_and_blocks() {
    let mut gnu = GnuHeader::new(GnuTypeFlag::Ustar(UstarTypeFlag::Directory));
    gnu.size = 11;
    gnu.set_name("n".repeat(101));
    let mut header = TarHeader::Gnu(gnu);
    assert_eq!(header.get_content_size(), 11);
    assert!(header.is_directory());
    assert!(!header.is_regular_file());
    assert_eq!(header.calc_used_blocks(), 3);
    assert_eq!(header.get_used_blocks(), 3);
    assert_eq!(header.get_saved_blocks(), 0);

    let mut ustar = UstarHeader::new(UstarTypeFlag::SymbolicLink);
    ustar.size = 12;
    let mut header = TarHeader::Ustar(ustar);
    assert_eq!(header.get_content_size(), 12);
    assert!(header.is_symbolic_link());
    assert_eq!(header.get_used_blocks(), 1);
    let mut out: Vec<u8> = Vec::new();
    header.save(&mut out);
    assert_eq!(header.get_saved_blocks(), 1);
    assert_eq!(out.len(), 512);

    let mut v7 = V7Header::new(V7TypeFlag::FIFO);
    v7.size = 13;
    let header = TarHeader::V7(v7);
    assert_eq!(header.get_content_size(), 13);
    assert!(header.is_fifo());
    assert!(!header.is_hard_link());
    assert!(!header.is_character_special());
    assert!(!header.is_block_special());
    assert!(!header.is_contiguous_file());

    let mut pax = PaxHeader::new(PaxTypeFlag::Extended);
    pax.set_attr_path("p");
    let mut header = TarHeader::Pax(pax);
    assert!(!header.is_regular_file());
    assert_eq!(header.get_used_blocks(), 2);
    let mut out: Vec<u8> = Vec::new();
    header.save(&mut out);
    assert_eq!(out.len(), 1024);
    let mut stream = Stream::new(out);
    match TarHeader::load(&mut stream).unwrap() {
        TarHeader::Pax(h) => assert_eq!(h.get_attr_path(), Some("p")),
        _ => panic!("expected a PAX header"),
    }
    assert_eq!(stream.pos, 1024);
}
