use rhtar::error::HeaderError;
use rhtar::header::{
    GnuHeader, GnuTypeFlag, IsTypeTrait, SparseEntry, UsedBlocksTrait, UstarTypeFlag,
};
use rhtar::stream::Stream;

fn sample_header() -> GnuHeader {
    let mut header = GnuHeader::new(GnuTypeFlag::Ustar(UstarTypeFlag::RegularFile));
    header.set_name("testfile.txt".to_string());
    header.mode = 0o644;
    header.uid = 1000;
    header.gid = 1000;
    header.size = 1234;
    header.mtime = 1_600_000_000;
    header.set_linkname("".to_string());
    header.magic = "ustar ".to_string();
    header.version = " \0".to_string();
    header.uname = "user".to_string();
    header.gname = "group".to_string();
    header.devmajor = 0;
    header.devminor = 0;
    header.isextended = false;
    header.realsize = None;
    header.atime = None;
    header.ctime = None;
    header.incremental = None;
    header.gnu_extra = [0u8; 12];
    header
}

fn long_text(len: usize) -> String {
    std::str::from_utf8(&vec![42u8; len]).unwrap().to_string()
}

/// Saves the header into a stream of at least `size` bytes, zeros behind
/// what was written, and gives the stream at its start.
fn saved(header: &mut GnuHeader, size: usize) -> Stream {
    let mut out: Vec<u8> = Vec::new();
    header.save(&mut out);
    if out.len() < size {
        out.resize(size, 0);
    }
    Stream::new(out)
}

fn load_from(stream: &mut Stream) -> Result<Option<GnuHeader>, HeaderError> {
    let buf = stream.read_block().unwrap();
    GnuHeader::load(&buf, stream)
}

fn reload(header: &mut GnuHeader, size: usize) -> GnuHeader {
    let mut stream = saved(header, size);
    match load_from(&mut stream) {
        Ok(opt) => match opt {
            Some(header) => header,
            None => panic!("Invalid magic/version"),
        },
        Err(e) => panic!("Failed to load header: {}", e.message()),
    }
}

fn entries(count: u64, step: u64, base: u64) -> Vec<SparseEntry> {
    (0..count).map(|i| SparseEntry { offset: i * step, numbytes: base + i }).collect()
}

fn set_sparse(header: &mut GnuHeader, list: &[SparseEntry]) {
    header.clear_sparse();
    for e in list {
        header.push_sparse(*e);
    }
}

#[test]
fn sparse_header_round_trip_basic() {
    let mut header = sample_header();
    for n in 0..4 {
        header.push_sparse(SparseEntry { offset: n as u64 * 100, numbytes: 50 + n as u64 });
    }
    let loaded = reload(&mut header, 4096);
    assert_eq!(loaded.iter_sparse(), header.iter_sparse());
    assert_eq!(loaded.isextended, false);
}

#[test]
fn sparse_header_round_trip_extended() {
    let mut header = sample_header();
    set_sparse(&mut header, &entries(25, 1000, 500));
    let loaded = reload(&mut header, 2048);
    assert_eq!(loaded.iter_sparse(), header.iter_sparse());
    assert_eq!(loaded.iter_sparse().len(), 25);
    assert_eq!(loaded.isextended, true);
    assert_eq!(header.get_saved_blocks(), 2);
}

#[test]
fn sparse_header_round_trip_extended_2_headers() {
    let mut header = sample_header();
    set_sparse(&mut header, &entries(34, 1000, 500));
    let loaded = reload(&mut header, 2048);
    assert_eq!(loaded.iter_sparse(), header.iter_sparse());
    assert_eq!(loaded.iter_sparse().len(), 34);
    assert_eq!(loaded.isextended, true);
    assert_eq!(header.get_saved_blocks(), 3);
}

#[test]
fn sparse_header_edge_cases() {
    let mut header = sample_header();
    header.clear_sparse();
    let loaded = reload(&mut header, 4096);
    assert_eq!(loaded.iter_sparse().len(), 0);
    assert_eq!(loaded.isextended, false);

    let mut header = sample_header();
    set_sparse(&mut header, &entries(4, 10, 10));
    let loaded = reload(&mut header, 4096);
    assert_eq!(loaded.iter_sparse(), header.iter_sparse());
    assert_eq!(loaded.isextended, false);

    let mut header = sample_header();
    let five: Vec<SparseEntry> =
        (0..5).map(|i| SparseEntry { offset: i as u64 * 10, numbytes: 10 }).collect();
    set_sparse(&mut header, &five);
    let loaded = reload(&mut header, 4096);
    assert_eq!(loaded.iter_sparse(), header.iter_sparse());
    assert_eq!(loaded.isextended, true);
}

#[test]
fn gnu_field_name_round_trip() {
    let mut header = sample_header();
    header.set_name("testfile.txt".to_string());
    let loaded = reload(&mut header, 2048);
    assert_eq!(header.get_name(), loaded.get_name());
}

#[test]
fn gnu_field_mode_round_trip() {
    let mut header = sample_header();
    header.mode = 0o755;
    let loaded = reload(&mut header, 2048);
    assert_eq!(header.mode, loaded.mode);
}

#[test]
fn gnu_field_uid_round_trip() {
    let mut header = sample_header();
    header.uid = 1234;
    let loaded = reload(&mut header, 2048);
    assert_eq!(header.uid, loaded.uid);
}

#[test]
fn gnu_field_gid_round_trip() {
    let mut header = sample_header();
    header.gid = 5678;
    let loaded = reload(&mut header, 2048);
    assert_eq!(header.gid, loaded.gid);
}

#[test]
fn gnu_field_size_round_trip() {
    let mut header = sample_header();
    header.size = 987654321;
    let loaded = reload(&mut header, 2048);
    assert_eq!(header.size, loaded.size);
}

#[test]
fn gnu_field_mtime_round_trip() {
    let mut header = sample_header();
    header.mtime = 123456789;
    let loaded = reload(&mut header, 2048);
    assert_eq!(header.mtime, loaded.mtime);
}

#[test]
fn gnu_field_typeflag_round_trip() {
    let mut header = sample_header();
    header.typeflag = GnuTypeFlag::Ustar(UstarTypeFlag::RegularFile);
    let loaded = reload(&mut header, 2048);
    assert_eq!(header.typeflag, loaded.typeflag);
}

#[test]
fn gnu_field_linkname_round_trip() {
    let mut header = sample_header();
    header.set_linkname("symlink.txt".to_string());
    let loaded = reload(&mut header, 2048);
    assert_eq!(header.get_linkname(), loaded.get_linkname());
}

#[test]
fn gnu_field_magic_round_trip() {
    let mut header = sample_header();
    header.magic = "ustar ".to_string();
    let loaded = reload(&mut header, 2048);
    assert_eq!(header.magic, loaded.magic);
}

#[test]
fn gnu_field_version_round_trip() {
    let mut header = sample_header();
    header.version = " \0".to_string();
    let loaded = reload(&mut header, 2048);
    assert_eq!(header.version, loaded.version);
}

#[test]
fn gnu_field_uname_round_trip() {
    let mut header = sample_header();
    header.uname = "user1".to_string();
    let loaded = reload(&mut header, 2048);
    assert_eq!(header.uname, loaded.uname);
}

#[test]
fn gnu_field_gname_round_trip() {
    let mut header = sample_header();
    header.gname = "group1".to_string();
    let loaded = reload(&mut header, 2048);
    assert_eq!(header.gname, loaded.gname);
}

#[test]
fn gnu_field_devmajor_round_trip() {
    let mut header = sample_header();
    header.devmajor = 8;
    let loaded = reload(&mut header, 2048);
    assert_eq!(header.devmajor, loaded.devmajor);
}

#[test]
fn gnu_field_devminor_round_trip() {
    let mut header = sample_header();
    header.devminor = 9;
    let loaded = reload(&mut header, 2048);
    assert_eq!(header.devminor, loaded.devminor);
}

#[test]
fn gnu_field_atime_round_trip() {
    let mut header = sample_header();
    header.atime = Some(1234);
    let loaded = reload(&mut header, 2048);
    assert_eq!(header.atime, loaded.atime);
}

#[test]
fn gnu_field_ctime_round_trip() {
    let mut header = sample_header();
    header.ctime = Some(5678);
    let loaded = reload(&mut header, 2048);
    assert_eq!(header.ctime, loaded.ctime);
}

#[test]
fn gnu_field_realsize_sparse_round_trip() {
    let mut header = sample_header();
    set_sparse(&mut header, &[SparseEntry { offset: 1234567, numbytes: 1234567 }]);
    header.realsize = Some(1234567);
    let loaded = reload(&mut header, 2048);
    assert_eq!(header.realsize, loaded.realsize);
}

#[test]
fn gnu_field_realsize_incremental_round_trip() {
    // Without sparse entries the place of the real size belongs to the
    // incremental dump text.
    let mut header = sample_header();
    header.realsize = Some(1234567);
    let loaded = reload(&mut header, 2048);
    assert_eq!(None, loaded.realsize);
}

#[test]
fn gnu_field_incremental_round_trip() {
    let mut header = sample_header();
    header.clear_sparse();
    header.incremental = Some("incdumpdata".to_string());
    let loaded = reload(&mut header, 2048);
    assert_eq!(header.incremental, loaded.incremental);
}

#[test]
fn gnu_field_gnu_extra_round_trip() {
    let mut header = sample_header();
    header.gnu_extra = *b"extrafield12";
    let loaded = reload(&mut header, 2048);
    assert_eq!(header.gnu_extra, loaded.gnu_extra);
}

#[test]
fn gnu_round_trip_save_load() {
    let mut header = sample_header();
    let mut loaded = reload(&mut header, 2048);
    assert_eq!(header.get_name(), loaded.get_name());
    assert_eq!(header.mode, loaded.mode);
    assert_eq!(header.uid, loaded.uid);
    assert_eq!(header.gid, loaded.gid);
    assert_eq!(header.size, loaded.size);
    assert_eq!(header.mtime, loaded.mtime);
    assert_eq!(header.typeflag, loaded.typeflag);
    assert_eq!(header.get_linkname(), loaded.get_linkname());
    assert_eq!(header.magic, loaded.magic);
    assert_eq!(header.version, loaded.version);
    assert_eq!(header.uname, loaded.uname);
    assert_eq!(header.gname, loaded.gname);
    assert_eq!(header.devmajor, loaded.devmajor);
    assert_eq!(header.devminor, loaded.devminor);
    assert_eq!(header.isextended, loaded.isextended);
    assert_eq!(header.realsize, loaded.realsize);
    assert_eq!(header.atime, loaded.atime);
    assert_eq!(header.ctime, loaded.ctime);
    assert_eq!(header.incremental, loaded.incremental);
    assert_eq!(header.gnu_extra, loaded.gnu_extra);
    assert_eq!(header.get_saved_blocks(), loaded.get_saved_blocks());
    assert_eq!(header.is_used_blocks_updated(), loaded.is_used_blocks_updated());
    assert_eq!(header.get_used_blocks(), loaded.get_used_blocks());
}

#[test]
fn gnu_minimal_header() {
    let mut header = GnuHeader::new(GnuTypeFlag::Ustar(UstarTypeFlag::Unknown(0)));
    assert!(!header.is_used_blocks_updated(), "expected updated_used_blocks to be false");
    assert_eq!(0, header.get_saved_blocks());
    let mut stream = saved(&mut header, 2048);
    assert!(header.is_used_blocks_updated(), "expected updated_used_blocks to be true");
    assert_eq!(1, header.get_used_blocks());
    assert_eq!(1, header.get_saved_blocks());
    let loaded = match load_from(&mut stream) {
        Ok(opt) => match opt {
            Some(header) => header,
            None => {
                assert!(false, "expected header");
                return;
            }
        },
        Err(e) => {
            assert!(false, "failed to load header: {}", e.message());
            return;
        }
    };
    assert_eq!(header, loaded);
}

#[test]
fn invalid_data() {
    let mut stream = Stream::new(vec![0u8; 2048]);
    match load_from(&mut stream) {
        Ok(opt) => match opt {
            Some(_) => assert!(false, "expected invalid magic/version"),
            None => assert!(true),
        },
        Err(e) => assert!(false, "expected invalid magic/version but got error: {}", e.message()),
    }
    assert_eq!(stream.pos, 512);
}

#[test]
fn gnu_long_name_block_layout() {
    let mut header = sample_header();
    header.typeflag = GnuTypeFlag::Ustar(UstarTypeFlag::RegularFile);
    let long_name = long_text(101);
    header.set_name(long_name.clone());
    let stream = saved(&mut header, 2048);
    let buf = &stream.data;
    assert_eq!(buf[156], b'L');
    assert_eq!(&buf[512..512 + long_name.len()], long_name.as_bytes());
    assert_eq!(buf[1024 + 156], b'0');
    assert_eq!(&buf[0..14], b"././@LongLink\0");
    assert_eq!(&buf[124..136], b"00000000145\0");
    assert_eq!(&buf[257..265], b"ustar  \0");
    assert!(buf[512 + 101..1024].iter().all(|b| *b == 0));
    assert!(buf[1024..1124].iter().all(|b| *b == 0));
}

#[test]
fn gnu_long_linkname_block_layout() {
    let mut header = sample_header();
    header.typeflag = GnuTypeFlag::Ustar(UstarTypeFlag::RegularFile);
    let long_linkname = long_text(101);
    header.set_linkname(long_linkname.clone());
    let stream = saved(&mut header, 2048);
    let buf = &stream.data;
    assert_eq!(buf[156], b'K');
    assert_eq!(&buf[512..512 + long_linkname.len()], long_linkname.as_bytes());
    assert_eq!(buf[1024 + 156], b'0');
}

#[test]
fn calc_used_blocks_default() {
    let header = sample_header();
    assert_eq!(1, header.calc_used_blocks());
}

#[test]
fn calc_used_blocks_long_name() {
    let mut header = sample_header();
    assert_eq!(1, header.calc_used_blocks());
    header.set_name(long_text(101));
    assert_eq!(3, header.calc_used_blocks());
    header.set_name(long_text(612));
    assert_eq!(3, header.calc_used_blocks());
    header.set_name(long_text(613));
    assert_eq!(4, header.calc_used_blocks());
    header.set_name(long_text(1124));
    assert_eq!(4, header.calc_used_blocks());
    header.set_name(long_text(1125));
    assert_eq!(5, header.calc_used_blocks());
}

#[test]
fn calc_used_blocks_long_linkname() {
    let mut header = sample_header();
    assert_eq!(1, header.calc_used_blocks());
    header.set_linkname(long_text(101));
    assert_eq!(3, header.calc_used_blocks());
    header.set_linkname(long_text(612));
    assert_eq!(3, header.calc_used_blocks());
    header.set_linkname(long_text(613));
    assert_eq!(4, header.calc_used_blocks());
    header.set_linkname(long_text(1124));
    assert_eq!(4, header.calc_used_blocks());
    header.set_linkname(long_text(1125));
    assert_eq!(5, header.calc_used_blocks());
}

fn zero_entries(header: &mut GnuHeader, count: usize) {
    header.clear_sparse();
    for _ in 0..count {
        header.push_sparse(SparseEntry { offset: 0, numbytes: 0 });
    }
}

#[test]
fn calc_used_blocks_sparse() {
    let mut header = sample_header();
    assert_eq!(1, header.calc_used_blocks());
    zero_entries(&mut header, 4);
    assert_eq!(1, header.calc_used_blocks());
    zero_entries(&mut header, 5);
    assert_eq!(2, header.calc_used_blocks());
    zero_entries(&mut header, 25);
    assert_eq!(2, header.calc_used_blocks());
    zero_entries(&mut header, 26);
    assert_eq!(3, header.calc_used_blocks());
    zero_entries(&mut header, 46);
    assert_eq!(3, header.calc_used_blocks());
    zero_entries(&mut header, 47);
    assert_eq!(4, header.calc_used_blocks());
    zero_entries(&mut header, 50);
    assert_eq!(4, header.calc_used_blocks());
}

#[test]
fn set_name() {
    let mut header = sample_header();
    assert!(!header.is_used_blocks_updated(), "used_blocks should not be updated");
    header.set_name("my name".to_string());
    assert_eq!(header.get_name(), "my name");
    assert!(!header.is_used_blocks_updated(), "used_blocks should not be updated");
    header.get_used_blocks();
    assert!(header.is_used_blocks_updated());
    header.set_name("other".to_string());
    assert!(!header.is_used_blocks_updated(), "used_blocks should not be updated");
}

#[test]
fn set_linkname() {
    let mut header = sample_header();
    assert!(!header.is_used_blocks_updated(), "used_blocks should not be updated");
    header.set_linkname("my linkname".to_string());
    assert_eq!(header.get_linkname(), "my linkname");
    assert!(!header.is_used_blocks_updated(), "used_blocks should not be updated");
    header.get_used_blocks();
    assert!(header.is_used_blocks_updated());
    header.set_linkname("other".to_string());
    assert!(!header.is_used_blocks_updated(), "used_blocks should not be updated");
}

#[test]
fn push_sparse() {
    let mut header = sample_header();
    assert!(!header.is_used_blocks_updated(), "used_blocks should not be updated");
    header.push_sparse(SparseEntry { offset: 0, numbytes: 0 });
    assert_eq!(header.iter_sparse().len(), 1);
    assert!(!header.is_used_blocks_updated(), "used_blocks should not be updated");
}

#[test]
fn pop_sparse() {
    let mut header = sample_header();
    assert!(!header.is_used_blocks_updated(), "used_blocks should not be updated");
    header.push_sparse(SparseEntry { offset: 7, numbytes: 9 });
    assert_eq!(header.iter_sparse().len(), 1);
    header.get_used_blocks();
    let popped = header.pop_sparse();
    assert_eq!(popped, Some(SparseEntry { offset: 7, numbytes: 9 }));
    assert_eq!(header.iter_sparse().len(), 0);
    assert!(!header.is_used_blocks_updated(), "used_blocks should not be updated");
    assert_eq!(header.pop_sparse(), None);
}

#[test]
fn insert_sparse() {
    let mut header = sample_header();
    assert!(!header.is_used_blocks_updated(), "used_blocks should not be updated");
    header.insert_sparse(0, SparseEntry { offset: 0, numbytes: 0 });
    assert_eq!(header.iter_sparse().len(), 1);
    assert!(!header.is_used_blocks_updated(), "used_blocks should not be updated");
    header.insert_sparse(0, SparseEntry { offset: 5, numbytes: 6 });
    header.insert_sparse(2, SparseEntry { offset: 8, numbytes: 9 });
    let offsets: Vec<u64> = header.iter_sparse().iter().map(|e| e.offset).collect();
    assert_eq!(offsets, vec![5, 0, 8]);
}

#[test]
fn remove_sparse() {
    let mut header = sample_header();
    assert!(!header.is_used_blocks_updated(), "used_blocks should not be updated");
    header.push_sparse(SparseEntry { offset: 0, numbytes: 0 });
    assert_eq!(header.iter_sparse().len(), 1);
    header.get_used_blocks();
    header.remove_sparse(0);
    assert_eq!(header.iter_sparse().len(), 0);
    assert!(!header.is_used_blocks_updated(), "used_blocks should not be updated");
}

#[test]
fn clear_sparse() {
    let mut header = sample_header();
    assert!(!header.is_used_blocks_updated(), "used_blocks should not be updated");
    header.push_sparse(SparseEntry { offset: 0, numbytes: 0 });
    assert_eq!(header.iter_sparse().len(), 1);
    header.get_used_blocks();
    header.clear_sparse();
    assert_eq!(header.iter_sparse().len(), 0);
    assert!(!header.is_used_blocks_updated(), "used_blocks should not be updated");
}

#[test]
fn gnu_get_used_blocks() {
    let mut header = sample_header();
    assert!(!header.is_used_blocks_updated(), "used_blocks should not be updated");
    assert_eq!(header.get_used_blocks(), 1);
    header = sample_header();
    assert!(!header.is_used_blocks_updated(), "used_blocks should not be updated");
    header.set_name(long_text(101));
    assert_eq!(header.get_used_blocks(), 3);
    assert!(header.is_used_blocks_updated(), "used_blocks should be updated");
}

#[test]
fn gnu_long_name_and_link_round_trip() {
    let mut header = sample_header();
    header.set_name(long_text(250));
    header.set_linkname(long_text(700));
    let mut stream = saved(&mut header, 0);
    // record of the name: 2 blocks; of the link name: 3 blocks; header.
    assert_eq!(stream.data.len(), 512 * 6);
    assert_eq!(stream.data[156], b'L');
    assert_eq!(stream.data[1024 + 156], b'K');
    assert_eq!(stream.data[1024 + 1536 + 156], b'0');
    let loaded = load_from(&mut stream).unwrap().unwrap();
    assert_eq!(loaded.get_name(), header.get_name());
    assert_eq!(loaded.get_linkname(), header.get_linkname());
    assert_eq!(stream.pos, 512 * 6);
}

#[test]
fn gnu_long_record_checksum_is_held() {
    let mut header = sample_header();
    header.set_name(long_text(101));
    let mut stream = saved(&mut header, 0);
    stream.data[10] ^= 1;
    assert_eq!(load_from(&mut stream).err(), Some(HeaderError::BadChecksum));
}

#[test]
fn gnu_short_reads() {
    let mut header = sample_header();
    header.set_name(long_text(101));
    let mut stream = saved(&mut header, 0);
    stream.data.truncate(1024 + 500);
    assert_eq!(load_from(&mut stream).err(), Some(HeaderError::ShortRead));
    let mut stream = saved(&mut header, 0);
    stream.data.truncate(512 + 200);
    assert_eq!(load_from(&mut stream).err(), Some(HeaderError::ShortRead));
    let mut header = sample_header();
    set_sparse(&mut header, &entries(5, 10, 10));
    let mut stream = saved(&mut header, 0);
    stream.data.truncate(512 + 100);
    assert_eq!(load_from(&mut stream).err(), Some(HeaderError::ShortRead));
}

#[test]
fn gnu_sparse_blocks_on_the_wire() {
    let mut header = sample_header();
    set_sparse(&mut header, &entries(26, 8, 1));
    let stream = saved(&mut header, 0);
    let buf = &stream.data;
    assert_eq!(buf.len(), 512 * 3);
    assert_eq!(buf[482], b'1');
    assert_eq!(&buf[386..398], b"00000000000\0");
    assert_eq!(&buf[398..410], b"00000000001\0");
    assert_eq!(&buf[386 + 72..386 + 84], b"00000000030\0");
    // first extension block: entries 4 to 24, and the flag for one more block
    assert_eq!(&buf[512..524], b"00000000040\0");
    assert_eq!(buf[512 + 504], b'1');
    // second extension block: entry 25, then empty places
    assert_eq!(&buf[1024..1036], b"00000000310\0");
    assert_eq!(&buf[1036..1048], b"00000000032\0");
    assert!(buf[1048..1024 + 504].iter().all(|b| *b == 0));
    assert_eq!(buf[1024 + 504], b'0');
    assert_eq!(header.get_saved_blocks(), 3);
}

#[test]
fn gnu_type_flags() {
    let bytes = [b'L', b'K', b'D', b'M', b'N', b'S'];
    let flags = [
        GnuTypeFlag::LongName,
        GnuTypeFlag::LongLinkName,
        GnuTypeFlag::DirectoryDump,
        GnuTypeFlag::MultiVolume,
        GnuTypeFlag::NextFile,
        GnuTypeFlag::Sparse,
    ];
    for i in 0..6 {
        assert_eq!(GnuTypeFlag::from(bytes[i]), flags[i]);
        assert_eq!(u8::from(flags[i]), bytes[i]);
        assert!(!flags[i].is_regular_file());
    }
    assert_eq!(GnuTypeFlag::from(b'5'), GnuTypeFlag::Ustar(UstarTypeFlag::Directory));
    assert_eq!(u8::from(GnuTypeFlag::Ustar(UstarTypeFlag::Directory)), b'5');
    assert!(GnuTypeFlag::Ustar(UstarTypeFlag::Directory).is_directory());
    assert!(GnuTypeFlag::Ustar(UstarTypeFlag::RegularFile).is_regular_file());
    assert!(GnuTypeFlag::Ustar(UstarTypeFlag::HardLink).is_hard_link());
    assert!(GnuTypeFlag::Ustar(UstarTypeFlag::SymbolicLink).is_symbolic_link());
    assert!(GnuTypeFlag::Ustar(UstarTypeFlag::CharacterSpecial).is_character_special());
    assert!(GnuTypeFlag::Ustar(UstarTypeFlag::BlockSpecial).is_block_special());
    assert!(GnuTypeFlag::Ustar(UstarTypeFlag::FIFO).is_fifo());
    assert!(GnuTypeFlag::Ustar(UstarTypeFlag::ContiguousFile).is_contiguous_file());
}

#[test]
fn iter_sparse_mut_changes_entries_in_place() {
    let mut header = sample_header();
    set_sparse(&mut header, &entries(3, 10, 1));
    header.get_used_blocks();
    for e in header.iter_sparse_mut().iter_mut() {
        e.numbytes += 100;
    }
    let sizes: Vec<u64> = header.iter_sparse().iter().map(|e| e.numbytes).collect();
    assert_eq!(sizes, vec![101, 102, 103]);
    assert!(!header.is_used_blocks_updated());
    assert_eq!(header.get_used_blocks(), 1);
}

#[test]
fn gnu_fields_are_set_and_read() {
    let mut h = GnuHeader::new(GnuTypeFlag::Ustar(UstarTypeFlag::RegularFile));
    h.set_name("a.bin".to_string());
    h.set_mode(0o600);
    h.set_uid(1);
    h.set_gid(2);
    h.set_size(3);
    h.set_mtime(4);
    h.set_uname("root".to_string());
    h.set_gname("wheel".to_string());
    h.set_devmajor(5);
    h.set_devminor(6);
    h.set_atime(Some(7));
    h.set_ctime(Some(8));
    h.set_incremental(Some("x".to_string()));
    assert_eq!((h.get_mode(), h.get_uid(), h.get_gid(), h.get_mtime()), (0o600, 1, 2, 4));
    assert_eq!((h.get_uname(), h.get_gname()), ("root", "wheel"));
    assert_eq!((h.get_devmajor(), h.get_devminor()), (5, 6));
    assert_eq!((h.get_atime(), h.get_ctime(), h.get_realsize()), (Some(7), Some(8), None));
    assert_eq!(h.get_incremental(), Some("x"));
    assert!(!h.get_isextended());
    let back = reload(&mut h, 512);
    assert_eq!(back.get_mode(), 0o600);
    assert_eq!(back.get_uname(), "root");
    assert_eq!(back.get_atime(), Some(7));
    assert_eq!(back.get_ctime(), Some(8));
    assert_eq!(back.get_incremental(), Some("x"));
    assert_eq!(back.get_chksum(), h.get_chksum());
}
