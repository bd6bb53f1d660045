use rhtar::error::HeaderError;
use rhtar::header::helper::{put_octal, put_str};
use rhtar::header::{
    AttrValue, IsTypeTrait, PaxAttribute, PaxHeader, PaxTypeFlag, UsedBlocksTrait, UstarTypeFlag,
};
use rhtar::stream::Stream;

fn sample_pax_header() -> PaxHeader {
    let mut header = PaxHeader::new(PaxTypeFlag::Extended);
    header.name = "test.txt".to_string();
    header.mode = 0o644;
    header.uid = 1000;
    header.gid = 1000;
    header.size = 30;
    header.mtime = 1_600_000_000;
    header.chksum = 0;
    header.linkname = "abc".to_string();
    header.magic = "ustar\0".to_string();
    header.version = "00".to_string();
    header.uname = "user".to_string();
    header.gname = "group".to_string();
    header.devmajor = 2;
    header.devminor = 1;
    header.prefix = "bcd".to_string();
    header.push_attr("path", PaxAttribute::from_str("test.txt".to_string()));
    header.push_attr("size", PaxAttribute::from_u64("1234".to_string()));
    header
}

fn saved_bytes(header: &mut PaxHeader, size: usize) -> Vec<u8> {
    let mut out: Vec<u8> = Vec::new();
    header.save(&mut out);
    if out.len() < size {
        out.resize(size, 0);
    }
    out
}

fn load_pax(bytes: Vec<u8>) -> Result<Option<PaxHeader>, HeaderError> {
    let mut stream = Stream::new(bytes);
    let buf = stream.read_block().unwrap();
    PaxHeader::load(&buf, &mut stream)
}

/// The length of the record of a pair, found by trying lengths.
fn expected_line(key: &str, value: &str) -> String {
    let line = format!(" {}={}\n", key, value);
    let mut len = line.len();
    loop {
        let full_line = format!("{}{}", len, &line);
        if full_line.len() == len {
            return full_line;
        }
        len = full_line.len();
    }
}

#[test]
fn attribute_from_str() {
    let attr = PaxAttribute::from_str("hello".to_string());
    assert_eq!(attr.value, AttrValue::Default);
    assert_eq!(attr.raw, "hello");
    assert_eq!(attr.text(), "hello");
}

#[test]
fn attribute_from_u64() {
    let attr = PaxAttribute::from_u64("1234".to_string());
    assert_eq!(attr.value, AttrValue::U64(1234));
    assert_eq!(attr.raw, "1234");
    let attr = PaxAttribute::of_u64(1048576);
    assert_eq!(attr.value, AttrValue::U64(1048576));
    assert_eq!(attr.raw, "1048576");
    assert_eq!(
        PaxAttribute::try_from_u64("12x".to_string()).err(),
        Some(HeaderError::BadNumber)
    );
}

#[test]
fn attribute_from_f64() {
    let attr = PaxAttribute::from_f64("1234.56".to_string());
    assert_eq!(attr.value, AttrValue::Decimal);
    assert_eq!(attr.raw.parse::<f64>().unwrap(), 1234.56);
    assert_eq!(attr.raw, "1234.56");
}

#[test]
fn calc_line_size() {
    let key = "hello";
    let value = "world";
    let size = PaxHeader::calc_line_size(key, &PaxAttribute::from_str(value.to_string()));
    // 15 hello=world\n
    assert_eq!(size, 15);
}

#[test]
fn calc_line_size_extra_digit() {
    let key = "a";
    let value = "world";
    let size = PaxHeader::calc_line_size(key, &PaxAttribute::from_str(value.to_string()));
    assert_eq!(size, 11);
}

#[test]
fn calc_line_size_at_digit_borders() {
    // key and value and separators: 8 bytes, and one digit: 9
    let size = PaxHeader::calc_line_size("k", &PaxAttribute::from_str("abcd".to_string()));
    assert_eq!(size, 9);
    // 9 bytes, and the length needs two digits: 11
    let size = PaxHeader::calc_line_size("k", &PaxAttribute::from_str("abcde".to_string()));
    assert_eq!(size, 11);
    // 97 bytes and two digits: 99
    let size = PaxHeader::calc_line_size("k", &PaxAttribute::from_str("a".repeat(93)));
    assert_eq!(size, 99);
    // 98 bytes: with two digits 100, which has three: 101
    let size = PaxHeader::calc_line_size("k", &PaxAttribute::from_str("a".repeat(94)));
    assert_eq!(size, 101);
    for n in 0..1200usize {
        let value = "v".repeat(n);
        let size = PaxHeader::calc_line_size("key", &PaxAttribute::from_str(value.clone()));
        assert_eq!(size as usize, expected_line("key", &value).len());
    }
}

#[test]
fn test_is_global() {
    let mut h = PaxHeader::new(PaxTypeFlag::Global);
    h.name = "./PaxHeaders.X/global".to_string();
    h.mode = 0o644;
    h.magic = "ustar".to_string();
    h.uname = "user".to_string();
    h.gname = "group".to_string();
    assert!(h.is_global());
    h.typeflag = PaxTypeFlag::Extended;
    assert!(!h.is_global());
}

#[test]
fn save_sets_name_field() {
    let mut header = sample_pax_header();
    let buf = saved_bytes(&mut header, 2048);
    let mut expected = [0u8; 100];
    put_str(&mut expected, &header.name);
    assert_eq!(&buf[0..100], &expected);
}

#[test]
fn save_sets_mode_field() {
    let mut header = sample_pax_header();
    let buf = saved_bytes(&mut header, 2048);
    let mut expected = [0u8; 8];
    put_octal(&mut expected, header.mode);
    assert_eq!(&buf[100..108], &expected);
}

#[test]
fn save_sets_uid_field() {
    let mut header = sample_pax_header();
    let buf = saved_bytes(&mut header, 2048);
    let mut expected = [0u8; 8];
    put_octal(&mut expected, header.uid);
    assert_eq!(&buf[108..116], &expected);
}

#[test]
fn save_sets_gid_field() {
    let mut header = sample_pax_header();
    let buf = saved_bytes(&mut header, 2048);
    let mut expected = [0u8; 8];
    put_octal(&mut expected, header.gid);
    assert_eq!(&buf[116..124], &expected);
}

#[test]
fn save_sets_size_field() {
    let mut header = sample_pax_header();
    let buf = saved_bytes(&mut header, 2048);
    let mut pax_size = 0u64;
    for (k, v) in header.iter_attr() {
        pax_size += expected_line(k, v.text()).len() as u64;
    }
    assert_eq!(pax_size, 30);
    let mut expected = [0u8; 12];
    put_octal(&mut expected, pax_size);
    assert_eq!(&buf[124..136], &expected);
}

#[test]
fn save_sets_mtime_field() {
    let mut header = sample_pax_header();
    let buf = saved_bytes(&mut header, 2048);
    let mut expected = [0u8; 12];
    put_octal(&mut expected, header.mtime);
    assert_eq!(&buf[136..148], &expected);
}

#[test]
fn save_sets_typeflag_field() {
    let mut header = sample_pax_header();
    let buf = saved_bytes(&mut header, 2048);
    assert_eq!(buf[156], u8::from(header.typeflag));
    assert_eq!(buf[156], b'x');
}

#[test]
fn save_sets_linkname_field() {
    let mut header = sample_pax_header();
    let buf = saved_bytes(&mut header, 2048);
    let mut expected = [0u8; 100];
    put_str(&mut expected, &header.linkname);
    assert_eq!(&buf[157..257], &expected);
}

#[test]
fn save_sets_magic_field() {
    let mut header = sample_pax_header();
    let buf = saved_bytes(&mut header, 2048);
    let mut expected = [0u8; 6];
    put_str(&mut expected, &header.magic);
    assert_eq!(&buf[257..263], &expected);
}

#[test]
fn save_sets_version_field() {
    let mut header = sample_pax_header();
    let buf = saved_bytes(&mut header, 2048);
    let mut expected = [0u8; 2];
    put_str(&mut expected, &header.version);
    assert_eq!(&buf[263..265], &expected);
}

#[test]
fn save_sets_uname_field() {
    let mut header = sample_pax_header();
    let buf = saved_bytes(&mut header, 2048);
    let mut expected = [0u8; 32];
    put_str(&mut expected, &header.uname);
    assert_eq!(&buf[265..297], &expected);
}

#[test]
fn save_sets_gname_field() {
    let mut header = sample_pax_header();
    let buf = saved_bytes(&mut header, 2048);
    let mut expected = [0u8; 32];
    put_str(&mut expected, &header.gname);
    assert_eq!(&buf[297..329], &expected);
}

#[test]
fn save_sets_devmajor_field() {
    let mut header = sample_pax_header();
    let buf = saved_bytes(&mut header, 2048);
    let mut expected = [0u8; 8];
    put_octal(&mut expected, header.devmajor);
    assert_eq!(&buf[329..337], &expected);
}

#[test]
fn save_sets_devminor_field() {
    let mut header = sample_pax_header();
    let buf = saved_bytes(&mut header, 2048);
    let mut expected = [0u8; 8];
    put_octal(&mut expected, header.devminor);
    assert_eq!(&buf[337..345], &expected);
}

#[test]
fn save_sets_prefix_field() {
    let mut header = sample_pax_header();
    let buf = saved_bytes(&mut header, 2048);
    let mut expected = [0u8; 155];
    put_str(&mut expected, &header.prefix);
    assert_eq!(&buf[345..500], &expected);
}

#[test]
fn save_sets_first_pax_attribute_line() {
    let mut header = sample_pax_header();
    let buf = saved_bytes(&mut header, 2048);
    let mut pos = 512;
    for (k, v) in header.iter_attr() {
        let full_line = expected_line(k, v.text());
        let bytes = full_line.as_bytes();
        assert_eq!(&buf[pos..pos + bytes.len()], bytes);
        pos += bytes.len();
    }
    assert_eq!(pos, 542);
    assert_eq!(&buf[512..542], b"17 path=test.txt\n13 size=1234\n");
}

#[test]
fn save_pads_the_attribute_data_to_whole_blocks() {
    let mut header = sample_pax_header();
    let mut out: Vec<u8> = Vec::new();
    header.save(&mut out);
    assert_eq!(out.len(), 1024);
    assert!(out[542..].iter().all(|b| *b == 0));
    let mut header = PaxHeader::new(PaxTypeFlag::Extended);
    let mut out: Vec<u8> = Vec::new();
    header.save(&mut out);
    assert_eq!(out.len(), 512);
}

#[test]
fn test_get_uid_from_attribute() {
    let mut header = sample_pax_header();
    header.push_attr("uid", PaxAttribute::from_u64("12345".to_string()));
    assert_eq!(header.get_attr_uid(), Some(12345));
    header.push_attr("uid", PaxAttribute::from_str("notanumber".to_string()));
    assert_eq!(header.get_attr_uid(), None);
}

#[test]
fn test_get_gid_from_attribute() {
    let mut header = sample_pax_header();
    header.push_attr("gid", PaxAttribute::from_u64("54321".to_string()));
    assert_eq!(header.get_attr_gid(), Some(54321));
    header.push_attr("gid", PaxAttribute::from_str("notanumber".to_string()));
    assert_eq!(header.get_attr_gid(), None);
}

#[test]
fn test_get_size_from_attribute() {
    let mut header = sample_pax_header();
    header.push_attr("size", PaxAttribute::from_u64("99999".to_string()));
    assert_eq!(header.get_attr_size(), Some(99999));
    header.push_attr("size", PaxAttribute::from_str("notanumber".to_string()));
    assert_eq!(header.get_attr_size(), None);
}

fn as_float(text: Option<&str>) -> Option<f64> {
    text.map(|t| t.parse::<f64>().unwrap())
}

#[test]
fn test_get_mtime_from_attribute() {
    let mut header = sample_pax_header();
    header.push_attr("mtime", PaxAttribute::from_f64("1625097600.123".to_string()));
    assert_eq!(as_float(header.get_attr_mtime()), Some(1625097600.123));
    header.push_attr("mtime", PaxAttribute::from_str("notafloat".to_string()));
    assert_eq!(as_float(header.get_attr_mtime()), None);
}

#[test]
fn test_get_atime_from_attribute() {
    let mut header = sample_pax_header();
    header.push_attr("atime", PaxAttribute::from_f64("1625097601.456".to_string()));
    assert_eq!(as_float(header.get_attr_atime()), Some(1625097601.456));
    header.push_attr("atime", PaxAttribute::from_str("notafloat".to_string()));
    assert_eq!(as_float(header.get_attr_atime()), None);
}

#[test]
fn test_get_ctime_from_attribute() {
    let mut header = sample_pax_header();
    header.push_attr("ctime", PaxAttribute::from_f64("1625097602.789".to_string()));
    assert_eq!(as_float(header.get_attr_ctime()), Some(1625097602.789));
    header.push_attr("ctime", PaxAttribute::from_str("notafloat".to_string()));
    assert_eq!(as_float(header.get_attr_ctime()), None);
}

#[test]
fn typed_setters_and_getters() {
    let mut header = PaxHeader::new(PaxTypeFlag::Extended);
    assert_eq!(header.get_attr_path(), None);
    header.set_attr_path("a/b");
    header.set_attr_linkpath("c/d");
    header.set_attr_uname("me");
    header.set_attr_gname("us");
    header.set_attr_uid(7);
    header.set_attr_gid(8);
    header.set_attr_size(1048576);
    header.set_attr_mtime("1.5");
    header.set_attr_atime("2.5");
    header.set_attr_ctime("3.5");
    assert_eq!(header.get_attr_path(), Some("a/b"));
    assert_eq!(header.get_attr_linkpath(), Some("c/d"));
    assert_eq!(header.get_attr_uname(), Some("me"));
    assert_eq!(header.get_attr_gname(), Some("us"));
    assert_eq!(header.get_attr_uid(), Some(7));
    assert_eq!(header.get_attr_gid(), Some(8));
    assert_eq!(header.get_attr_size(), Some(1048576));
    assert_eq!(header.get_attr("size").unwrap().raw, "1048576");
    assert_eq!(header.get_attr_mtime(), Some("1.5"));
    assert_eq!(header.get_attr_atime(), Some("2.5"));
    assert_eq!(header.get_attr_ctime(), Some("3.5"));
    assert_eq!(header.attr_count(), 10);
    let keys: Vec<&str> = header.iter_attr().iter().map(|(k, _)| k.as_str()).collect();
    assert_eq!(
        keys,
        vec!["path", "linkpath", "uname", "gname", "uid", "gid", "size", "mtime", "atime", "ctime"]
    );
    header.set_attr_path("z");
    assert_eq!(header.get_attr_index("path"), Some(0));
    assert_eq!(header.get_attr_path(), Some("z"));
    assert_eq!(header.attr_count(), 10);
}

#[test]
fn pax_round_trip_save_load() {
    let mut header = sample_pax_header();
    assert!(!header.is_used_blocks_updated(), "expected updated_used_blocks to be false");
    assert_eq!(header.get_saved_blocks(), 0);
    let out = saved_bytes(&mut header, 2048);
    assert!(header.is_used_blocks_updated(), "expected updated_used_blocks to be true");
    assert_eq!(header.get_used_blocks(), 2);
    assert_eq!(header.get_saved_blocks(), 2);
    let mut loaded = match load_pax(out) {
        Ok(opt) => match opt {
            Some(h) => h,
            None => {
                assert!(false, "Invalid magic/version");
                return;
            }
        },
        Err(e) => {
            assert!(false, "Failed to load header: {}", e.message());
            return;
        }
    };
    assert_eq!(header.name, loaded.name);
    assert_eq!(header.mode, loaded.mode);
    assert_eq!(header.uid, loaded.uid);
    assert_eq!(header.gid, loaded.gid);
    assert_eq!(header.size, loaded.size);
    assert_eq!(header.mtime, loaded.mtime);
    assert_eq!(header.typeflag, loaded.typeflag);
    assert_eq!(header.linkname, loaded.linkname);
    assert_eq!(header.magic, loaded.magic);
    assert_eq!(header.version, loaded.version);
    assert_eq!(header.uname, loaded.uname);
    assert_eq!(header.gname, loaded.gname);
    assert_eq!(header.devmajor, loaded.devmajor);
    assert_eq!(header.devminor, loaded.devminor);
    assert_eq!(header.prefix, loaded.prefix);
    assert_eq!(header.chksum, loaded.chksum);
    assert_eq!(header.get_saved_blocks(), loaded.get_saved_blocks());
    assert_eq!(header.is_used_blocks_updated(), loaded.is_used_blocks_updated());
    assert_eq!(header.get_used_blocks(), loaded.get_used_blocks());
    assert_eq!(header.attr_count(), loaded.attr_count());
    for (k, v) in header.iter_attr() {
        assert_eq!(loaded.get_attr(k), Some(v));
    }
    let keys: Vec<&str> = loaded.iter_attr().iter().map(|(k, _)| k.as_str()).collect();
    assert_eq!(keys, vec!["path", "size"]);
}

#[test]
fn pax_minimal_header() {
    let mut header = PaxHeader::new(PaxTypeFlag::Extended);
    let out = saved_bytes(&mut header, 1024);
    let loaded = match load_pax(out) {
        Ok(opt) => match opt {
            Some(h) => h,
            None => {
                assert!(false, "Invalid magic/version");
                return;
            }
        },
        Err(e) => {
            assert!(false, "Failed to load header: {}", e.message());
            return;
        }
    };
    assert_eq!(header.name, loaded.name);
    assert_eq!(header.size, loaded.size);
    assert_eq!(loaded.attr_count(), 0);
}

#[test]
fn calc_used_blocks() {
    let mut header = sample_pax_header();
    header.clear_attr();
    assert_eq!(header.calc_used_blocks(), 1);
    header.push_attr("size", PaxAttribute::from_u64("99999".to_string()));
    assert_eq!(header.calc_used_blocks(), 2);
    header.clear_attr();
    let massive_text = "a".repeat(506);
    header.push_attr("a", PaxAttribute::from_str(massive_text));
    assert_eq!(header.calc_used_blocks(), 3);
    header.clear_attr();
    let massive_text = "a".repeat(1018);
    header.push_attr("a", PaxAttribute::from_str(massive_text));
    assert_eq!(header.calc_used_blocks(), 4);
}

/// A header without attributes whose count of blocks is remembered.
fn counted_header() -> PaxHeader {
    let mut header = sample_pax_header();
    header.clear_attr();
    header.get_used_blocks();
    assert_eq!(header.is_used_blocks_updated(), true);
    assert_eq!(header.attr_count(), 0);
    header
}

#[test]
fn set_attr() {
    let mut header = counted_header();
    header.set_attr("size", PaxAttribute::from_u64("99999".to_string()));
    assert_eq!(header.is_used_blocks_updated(), false);
    assert_eq!(header.attr_count(), 1);
}

#[test]
fn insert_attr() {
    let mut header = counted_header();
    let old = header.insert_attr("size", PaxAttribute::from_u64("99999".to_string()));
    assert_eq!(old, None);
    assert_eq!(header.is_used_blocks_updated(), false);
    assert_eq!(header.attr_count(), 1);
    let old = header.insert_attr("size", PaxAttribute::from_u64("5".to_string()));
    assert_eq!(old, Some(PaxAttribute::from_u64("99999".to_string())));
    assert_eq!(header.attr_count(), 1);
    assert_eq!(header.get_attr_size(), Some(5));
}

#[test]
fn insert_attr_at() {
    let mut header = counted_header();
    header.insert_attr_at(0, "size", PaxAttribute::from_u64("99999".to_string()));
    header.insert_attr_at(0, "foo", PaxAttribute::from_u64("99999".to_string()));
    header.insert_attr_at(1, "bar", PaxAttribute::from_u64("99999".to_string()));
    assert_eq!(header.get_attr_index("size"), Some(2));
    assert_eq!(header.get_attr_index("foo"), Some(0));
    assert_eq!(header.get_attr_index("bar"), Some(1));
    assert_eq!(header.is_used_blocks_updated(), false);
    assert_eq!(header.attr_count(), 3);
    // a key that is present moves to the place
    assert!(header.check_insert_at(2, "foo"));
    assert!(!header.check_insert_at(3, "foo"));
    assert!(header.check_insert_at(3, "new"));
    assert!(!header.check_insert_at(4, "new"));
    header.insert_attr_at(2, "foo", PaxAttribute::from_u64("1".to_string()));
    assert_eq!(header.get_attr_index("bar"), Some(0));
    assert_eq!(header.get_attr_index("size"), Some(1));
    assert_eq!(header.get_attr_index("foo"), Some(2));
    assert_eq!(header.get_attr("foo").unwrap().raw, "1");
    assert_eq!(header.attr_count(), 3);
}

#[test]
fn remove_attr() {
    let mut header = sample_pax_header();
    header.clear_attr();
    header.push_attr("size", PaxAttribute::from_u64("99999".to_string()));
    header.get_used_blocks();
    assert_eq!(header.is_used_blocks_updated(), true);
    assert_eq!(header.attr_count(), 1);
    let removed = header.remove_attr("size");
    assert_eq!(removed, Some(PaxAttribute::from_u64("99999".to_string())));
    assert_eq!(header.is_used_blocks_updated(), false);
    assert_eq!(header.attr_count(), 0);
    assert_eq!(header.remove_attr("size"), None);
}

#[test]
fn remove_attr_at() {
    let mut header = sample_pax_header();
    header.clear_attr();
    header.push_attr("size", PaxAttribute::from_u64("99999".to_string()));
    header.push_attr("test", PaxAttribute::from_u64("99999".to_string()));
    header.get_used_blocks();
    assert_eq!(header.is_used_blocks_updated(), true);
    assert_eq!(header.attr_count(), 2);
    let removed = header.remove_attr_at(0);
    assert_eq!(removed.unwrap().0, "size");
    assert_eq!(header.is_used_blocks_updated(), false);
    assert_eq!(header.attr_count(), 1);
    assert_eq!(header.get_attr_index("test"), Some(0));
    assert_eq!(header.remove_attr_at(5), None);
}

#[test]
fn clear_attr() {
    let mut header = sample_pax_header();
    header.clear_attr();
    header.push_attr("size", PaxAttribute::from_u64("99999".to_string()));
    header.push_attr("test", PaxAttribute::from_u64("99999".to_string()));
    header.get_used_blocks();
    assert_eq!(header.is_used_blocks_updated(), true);
    assert_eq!(header.attr_count(), 2);
    header.clear_attr();
    assert_eq!(header.is_used_blocks_updated(), false);
    assert_eq!(header.attr_count(), 0);
}

#[test]
fn push_attr() {
    let mut header = counted_header();
    header.push_attr("size", PaxAttribute::from_u64("99999".to_string()));
    assert_eq!(header.is_used_blocks_updated(), false);
    assert_eq!(header.attr_count(), 1);
}

#[test]
fn pop_attr() {
    let mut header = sample_pax_header();
    header.clear_attr();
    header.push_attr("size", PaxAttribute::from_u64("99999".to_string()));
    header.get_used_blocks();
    assert_eq!(header.is_used_blocks_updated(), true);
    assert_eq!(header.attr_count(), 1);
    let attr = header.pop_attr();
    assert_eq!(header.is_used_blocks_updated(), false);
    assert_eq!(header.attr_count(), 0);
    assert_eq!(attr, Some(("size".to_string(), PaxAttribute::from_u64("99999".to_string()))));
    assert_eq!(header.pop_attr(), None);
}

#[test]
fn pax_get_used_blocks() {
    let mut header = sample_pax_header();
    header.clear_attr();
    assert!(!header.is_used_blocks_updated());
    assert_eq!(header.get_used_blocks(), 1);
    assert!(header.is_used_blocks_updated());
    header.push_attr("size", PaxAttribute::from_u64("99999".to_string()));
    assert!(!header.is_used_blocks_updated());
    assert_eq!(header.get_used_blocks(), 2);
    assert!(header.is_used_blocks_updated());
    header.push_attr("path", PaxAttribute::from_u64("99999".to_string()));
    assert_eq!(header.get_used_blocks(), 2);
    assert!(header.is_used_blocks_updated());
    assert_eq!(header.get_used_blocks(), 2);
    assert!(header.is_used_blocks_updated());
}

#[test]
fn pax_load_refuses_other_blocks() {
    let mut header = sample_pax_header();
    let out = saved_bytes(&mut header, 0);
    let mut other = out.clone();
    other[156] = b'0';
    assert!(load_pax(other).unwrap().is_none());
    let mut other = out.clone();
    other[257] = b'U';
    assert!(load_pax(other).unwrap().is_none());
    let mut other = out.clone();
    other[156] = b'g';
    let loaded = load_pax(other).unwrap().unwrap();
    assert!(loaded.is_global());
    assert!(!loaded.typeflag.is_regular_file());
    assert_eq!(PaxTypeFlag::from(b'5'), PaxTypeFlag::Ustar(UstarTypeFlag::Directory));
    assert!(PaxTypeFlag::from(b'5').is_directory());
    assert_eq!(u8::from(PaxTypeFlag::Global), b'g');
}

fn pax_block_with_data(data: &[u8]) -> Vec<u8> {
    let mut header = PaxHeader::new(PaxTypeFlag::Extended);
    let mut out: Vec<u8> = Vec::new();
    header.save(&mut out);
    let mut size = [0u8; 12];
    put_octal(&mut size, data.len() as u64);
    out[124..136].copy_from_slice(&size);
    out.extend_from_slice(data);
    let rest = out.len() % 512;
    if rest > 0 {
        out.resize(out.len() + 512 - rest, 0);
    }
    out
}

#[test]
fn pax_load_errors() {
    assert_eq!(
        load_pax(pax_block_with_data(b"xx path=a\n")).err(),
        Some(HeaderError::BadNumber)
    );
    assert_eq!(
        load_pax(pax_block_with_data(b"12 uid=abcd\n")).err(),
        Some(HeaderError::BadNumber)
    );
    assert_eq!(
        load_pax(pax_block_with_data(&[b'9', b' ', 0xff, b'=', b'a', b'\n'])).err(),
        Some(HeaderError::BadEncoding)
    );
    let mut short = pax_block_with_data(b"10 path=a\n");
    short.truncate(512 + 100);
    assert_eq!(load_pax(short).err(), Some(HeaderError::ShortRead));
}

#[test]
fn pax_load_reads_typed_values_and_skips_an_unfinished_record() {
    let data = b"11 uid=123\n20 mtime=1.25\n8 a=b\n8 a=c\n9 unfinished";
    let loaded = load_pax(pax_block_with_data(data)).unwrap().unwrap();
    assert_eq!(loaded.attr_count(), 3);
    assert_eq!(loaded.get_attr_uid(), Some(123));
    assert_eq!(loaded.get_attr_mtime(), Some("1.25"));
    assert_eq!(loaded.get_attr("a").unwrap().raw, "c");
    assert_eq!(loaded.get_attr("a").unwrap().value, AttrValue::Default);
    assert_eq!(loaded.get_attr_index("a"), Some(2));
    assert_eq!(loaded.size, data.len() as u64);
}

#[test]
fn an_attribute_is_changed_in_place() {
    let mut header = PaxHeader::new(PaxTypeFlag::Extended);
    header.set_attr_path("a.txt");
    header.set_attr_uname("root");
    match header.get_attr_mut(1) {
        Some(attr) => *attr = PaxAttribute::from_str("wheel".to_string()),
        None => panic!("no attribute at 1"),
    }
    assert!(header.get_attr_mut(2).is_none());
    assert!(!header.is_used_blocks_updated());
    assert_eq!(header.get_attr_uname(), Some("wheel"));
    assert_eq!(header.get_attr_path(), Some("a.txt"));
    assert_eq!(header.attr_count(), 2);
    let mut bytes = Vec::new();
    header.save(&mut bytes);
    assert_eq!(&bytes[512..512 + 31], b"14 path=a.txt\n15 uname=wheel\n\0\0");
}
