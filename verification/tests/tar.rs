use rhtar::error::{HeaderError, IndexError};
use rhtar::header::{GnuHeader, TarHeader, UstarHeader, UstarTypeFlag};
use rhtar::index::{FileEntry, Index, NewPage, Record, RowWrite, PAGE_SIZE};
use rhtar::stream::Stream;
use rhtar::tar::{
    pad_zeroes, padded_size, page_path, trailer, Member, Move, Partition, SubFile, Tar,
    BLOCK_SIZE, TRAILER_SIZE,
};

/// What stands for the file of an archive and the tables of its pages, whose
/// rows a collaborator keeps.
struct Disk {
    bytes: Vec<u8>,
    tables: Vec<Vec<Record>>,
}

impl Disk {
    fn new() -> Self {
        Disk { bytes: Vec::new(), tables: Vec::new() }
    }

    fn write(&mut self, at: u64, data: &[u8]) {
        let mut stream = Stream::new(std::mem::take(&mut self.bytes));
        stream.seek(at as usize);
        stream.write_all(data);
        self.bytes = stream.data;
    }

    fn add_page(&mut self, page: &NewPage) {
        self.write(page.offset, &page.header);
        self.write(page.table_offset + PAGE_SIZE - 1, &[0]);
        self.tables.push(vec![Record::empty(); 51]);
        if let Some((at, row)) = &page.link {
            self.tables[*at][0] = row.duplicate();
        }
    }

    fn add_member(&mut self, member: &Member) {
        if let Some(page) = &member.page {
            self.add_page(page);
        }
        self.write(member.header_offset, &member.header);
    }

    fn write_rows(&mut self, writes: &[RowWrite]) {
        for w in writes {
            if let Some((page, row)) = w.place() {
                self.tables[page][row] = w.row.duplicate();
            }
        }
    }

    fn close(&mut self, tar: &mut Tar) {
        let (writes, end) = tar.close();
        if let Some(writes) = writes {
            self.write_rows(&writes);
        }
        if let Some(end) = end {
            self.write(end, &trailer());
        }
    }

    /// Builds the index anew from what the disk holds.
    fn open(&self) -> Result<Tar, IndexError> {
        let mut index = Index::new();
        let mut offset: u64 = 0;
        let mut number = 0;
        loop {
            let mut stream = Stream::new(self.bytes.clone());
            stream.seek(offset as usize);
            let table_offset = Index::read_page_header(&mut stream)?;
            let rows = self.tables[number].iter().map(|r| r.duplicate()).collect();
            offset = index.load_page(offset, table_offset, rows)?;
            number += 1;
            if offset == 0 {
                break;
            }
        }
        Ok(Tar::new(index, self.bytes.len() as u64 - TRAILER_SIZE))
    }
}

fn write_through(disk: &mut Disk, tar: &mut Tar, file: &mut SubFile, data: &[u8]) {
    let m = tar.move_to(u64::MAX, file);
    assert_eq!(m.seek, Some(file.pos));
    disk.write(file.pos, data);
    tar.inner_write(file, data.len() as u64);
}

fn created() -> (Disk, Tar, usize) {
    let (tar, page) = Tar::create_new().unwrap();
    let mut disk = Disk::new();
    disk.add_page(&page);
    (disk, tar, page.header.len())
}

fn paths(tar: &Tar) -> Vec<String> {
    tar.list().iter().map(|e| e.meta.path.clone()).collect()
}

#[test]
fn create_empty() {
    let (mut disk, mut tar, header_len) = created();
    disk.close(&mut tar);
    // page 0: the header of 3 blocks, 1 MiB of table, then the trailer
    assert_eq!(header_len, 3 * 512);
    assert_eq!(disk.bytes.len() as u64, header_len as u64 + PAGE_SIZE + 1024);
    let mut stream = Stream::new(disk.bytes.clone());
    match TarHeader::load(&mut stream).unwrap() {
        TarHeader::Pax(h) => {
            assert_eq!(h.get_attr_path(), Some(".0.rhindex"));
            assert_eq!(h.get_attr_size(), Some(1048576));
        }
        _ => panic!("expected the extended header of the page"),
    }
    match TarHeader::load(&mut stream).unwrap() {
        TarHeader::Ustar(h) => {
            assert_eq!(h.name, ".0.rhindex");
            assert_eq!(h.size, 1048576);
            assert_eq!(h.typeflag, UstarTypeFlag::RegularFile);
        }
        _ => panic!("expected the header of the page's file"),
    }
    assert_eq!(stream.pos, header_len);
    assert!(disk.bytes[header_len..].iter().all(|b| *b == 0));
    assert!(disk.tables[0].iter().all(|r| *r == Record::empty()));
    assert!(!tar.need_closing && !tar.need_flush);
    // closing again writes nothing
    assert_eq!(tar.close().1, None);
}

#[test]
fn add_and_read() {
    let (mut disk, mut tar, _) = created();
    let member = tar.add_member("x".to_string(), 5).unwrap();
    disk.add_member(&member);
    let mut file = member.file;
    write_through(&mut disk, &mut tar, &mut file, b"hello");
    assert!(tar.need_flush);
    disk.close(&mut tar);
    let reopened = disk.open().unwrap();
    let listed = reopened.list();
    assert_eq!(listed.len(), 1);
    assert_eq!(listed[0].meta.path, "x");
    assert_eq!(listed[0].meta.size, 5);
    assert_eq!(listed[0].meta.parted, false);
    let file = reopened.open_member("x").unwrap();
    let from = file.pos as usize;
    assert_eq!(&disk.bytes[from..from + 5], b"hello");
    assert_eq!(reopened.open_member("y"), None);
    assert_eq!(reopened.open_member(""), None);
    // the member has a header of its own before its bytes
    let mut stream = Stream::new(disk.bytes.clone());
    stream.seek(member.header_offset as usize);
    match TarHeader::load(&mut stream).unwrap() {
        TarHeader::Gnu(h) => {
            assert_eq!(h.get_name(), "x");
            assert_eq!(h.size, 5);
        }
        _ => panic!("expected the header of the member"),
    }
    assert_eq!(stream.pos as u64, file.pos);
    // and the trailer follows its block
    assert_eq!(disk.bytes.len() as u64, file.pos + 512 + 1024);
}

#[test]
fn chain_a_second_page() {
    let (mut disk, mut tar, _) = created();
    let mut last = None;
    for i in 0..51 {
        let before = tar.end;
        let member = tar.add_member(format!("m{}", i), 0).unwrap();
        assert_eq!(member.page.is_some(), i == 50);
        if let Some(page) = &member.page {
            assert_eq!(page.offset, before);
            assert_eq!(page.link.as_ref().unwrap().0, 0);
        }
        disk.add_member(&member);
        last = Some(member);
    }
    disk.close(&mut tar);
    let last = last.unwrap();
    let page = last.page.unwrap();
    // row 0 of page 0 points to page 1, which stands behind the 50 members
    assert_eq!(disk.tables[0][0].offset, page.offset);
    assert_eq!(disk.tables[0][0].path, ".1.rhindex");
    assert_eq!(page.offset, 3 * 512 + PAGE_SIZE + 50 * 512);
    // page 1 holds the member that did not fit
    assert_eq!(disk.tables[1][1].path, "m50");
    assert_eq!(disk.tables[1][0], Record::empty());
    assert_eq!(disk.tables[0][50].path, "m49");
    let reopened = disk.open().unwrap();
    assert_eq!(reopened.index.page_count(), 2);
    assert_eq!(reopened.list().len(), 51);
    assert_eq!(reopened.open_member("m50").unwrap().pos, last.file.pos);
}

#[test]
fn remove_middle() {
    let (mut disk, mut tar, _) = created();
    for name in ["A", "B", "C"] {
        let member = tar.add_member(name.to_string(), 1).unwrap();
        disk.add_member(&member);
    }
    assert!(tar.need_flush);
    disk.write_rows(&tar.flush().unwrap());
    assert_eq!(disk.tables[0][2].path, "B");
    assert_eq!(tar.remove_member("B"), Ok(()));
    assert_eq!(tar.remove_member("B"), Err(IndexError::OutOfBounds));
    assert_eq!(tar.remove_member(""), Err(IndexError::OutOfBounds));
    let writes = tar.flush().unwrap();
    disk.write_rows(&writes);
    assert_eq!(paths(&tar), vec!["A", "C"]);
    // C has taken the slot of B, and its old row is cleared
    assert_eq!(tar.index.position("C"), Some(2));
    assert_eq!(disk.tables[0][1].path, "A");
    assert_eq!(disk.tables[0][2].path, "C");
    assert_eq!(disk.tables[0][3], Record::empty());
    assert_eq!(tar.flush().map(|w| w.len()), None);
}

#[test]
fn auto_partition() {
    let (mut disk, mut tar, _) = created();
    let m = tar.add_member("m".to_string(), 10).unwrap();
    disk.add_member(&m);
    let other = tar.add_member("other".to_string(), 1).unwrap();
    disk.add_member(&other);
    let end = tar.end;
    let mut file = m.file;
    let data = b"0123456789abcde";
    let split = tar.auto_partition(file.index, 0, 15, "m.1".to_string()).unwrap();
    let (room, mut part) = match split {
        Partition::Split(room, part) => (room, part),
        _ => panic!("expected a new part"),
    };
    assert_eq!(room, 10);
    assert_eq!(part, SubFile { index: 2, pos: end });
    write_through(&mut disk, &mut tar, &mut file, &data[..10]);
    write_through(&mut disk, &mut tar, &mut part, &data[10..]);
    let first = tar.index.get("m").unwrap().clone();
    let second = tar.index.get("m.1").unwrap().clone();
    assert_eq!(first.next_part, 3);
    assert_eq!(second.prev_part, 1);
    assert_eq!((first.prev_part, second.next_part), (0, 0));
    assert!(first.meta.parted && second.meta.parted);
    assert_eq!(second.meta.size, 5);
    assert_eq!(second.meta.offset, end);
    assert_eq!(tar.end, end + 512);
    assert!(tar.need_closing);
    disk.close(&mut tar);
    assert_eq!(&disk.bytes[end as usize..end as usize + 5], b"abcde");
    let from = first.meta.offset as usize;
    assert_eq!(&disk.bytes[from..from + 10], b"0123456789");
    assert_eq!(disk.tables[0][1].next_part, 3);
    assert_eq!(disk.tables[0][3].prev_part, 1);
    assert_eq!(disk.bytes.len() as u64, tar.end + 1024);
}

#[test]
fn long_name_round_trip() {
    let (mut disk, mut tar, _) = created();
    let name: String = (0..250).map(|i| (b'a' + (i % 26) as u8) as char).collect();
    let member = tar.add_member(name.clone(), 3).unwrap();
    // the record of the long name, then the header
    assert_eq!(member.header.len(), 3 * 512);
    assert_eq!(member.header[156], b'L');
    disk.add_member(&member);
    let mut file = member.file;
    write_through(&mut disk, &mut tar, &mut file, b"abc");
    disk.close(&mut tar);
    let reopened = disk.open().unwrap();
    assert_eq!(paths(&reopened), vec![name.clone()]);
    let mut stream = Stream::new(disk.bytes.clone());
    stream.seek(member.header_offset as usize);
    match TarHeader::load(&mut stream).unwrap() {
        TarHeader::Gnu(h) => assert_eq!(h.get_name(), name),
        _ => panic!("expected the header of the member"),
    }
    assert_eq!(stream.pos as u64, member.file.pos);
}

#[test]
fn test_open_tar_standard() {
    // an archive that begins with a member and not with a page has no index
    let mut header = UstarHeader::for_file("readme".to_string(), 3);
    let mut bytes: Vec<u8> = Vec::new();
    header.save(&mut bytes);
    bytes.extend_from_slice(b"abc");
    bytes.resize(1024 + 1024, 0);
    let mut stream = Stream::new(bytes);
    assert_eq!(Index::read_page_header(&mut stream), Err(IndexError::CorruptIndex));
    let mut header = GnuHeader::for_file("dir".to_string(), PAGE_SIZE);
    header.typeflag = rhtar::header::GnuTypeFlag::Ustar(UstarTypeFlag::Directory);
    let mut bytes: Vec<u8> = Vec::new();
    header.save(&mut bytes);
    let mut stream = Stream::new(bytes);
    assert_eq!(Index::read_page_header(&mut stream), Err(IndexError::CorruptIndex));
}

#[test]
fn test_open_tar_good() {
    let (mut disk, mut tar, header_len) = created();
    for name in ["a", "b"] {
        let member = tar.add_member(name.to_string(), 700).unwrap();
        disk.add_member(&member);
    }
    disk.close(&mut tar);
    let reopened = disk.open().unwrap();
    assert_eq!(paths(&reopened), vec!["a", "b"]);
    assert_eq!(reopened.index.pages[0].table_offset, header_len as u64);
    assert_eq!(reopened.end, tar.end);
    assert!(!reopened.need_flush && !reopened.need_closing);
    let a = reopened.index.get("a").unwrap();
    let b = reopened.index.get("b").unwrap();
    assert_eq!(a.meta.offset % 512, 0);
    assert_eq!(b.meta.offset, a.meta.offset + 1024 + 512);
    // a page of the plain kind, without an extended header before it
    let mut header = UstarHeader::for_file(".0.rhindex".to_string(), PAGE_SIZE);
    let mut bytes: Vec<u8> = Vec::new();
    header.save(&mut bytes);
    let mut stream = Stream::new(bytes);
    assert_eq!(Index::read_page_header(&mut stream), Ok(512));
}

#[test]
fn test_open_tar_corrupted() {
    let mut stream = Stream::new(vec![0xffu8; 2048]);
    assert_eq!(Index::read_page_header(&mut stream), Err(IndexError::CorruptIndex));
    let mut stream = Stream::new(Vec::new());
    assert_eq!(Index::read_page_header(&mut stream), Err(IndexError::CorruptIndex));
    // a page whose header declares another size
    let (disk, _, _) = created();
    let mut bytes = disk.bytes.clone();
    bytes.truncate(3 * 512);
    let mut wrong = bytes.clone();
    assert_eq!(&wrong[512..512 + 35], b"19 path=.0.rhindex\n16 size=1048576\n");
    wrong[512 + 33] = b'7';
    let mut stream = Stream::new(wrong);
    assert_eq!(Index::read_page_header(&mut stream), Err(IndexError::CorruptIndex));
    // a header that cannot be read
    let mut wrong = bytes.clone();
    wrong[1024 + 100] = b'9';
    let mut stream = Stream::new(wrong);
    assert_eq!(
        Index::read_page_header(&mut stream),
        Err(IndexError::Header(HeaderError::BadOctal))
    );
    // the header of the file is missing
    let mut short = bytes.clone();
    short.truncate(1024);
    let mut stream = Stream::new(short);
    assert_eq!(Index::read_page_header(&mut stream), Err(IndexError::CorruptIndex));
    // a table that lost rows
    let mut index = Index::new();
    assert_eq!(index.load_page(0, 1536, vec![Record::empty(); 50]), Err(IndexError::CorruptPage));
}

#[test]
fn test_ensure_index() {
    let (tar, page) = Tar::create_new().unwrap();
    assert_eq!(page.offset, 0);
    assert!(page.link.is_none());
    assert_eq!(page.table_offset, page.header.len() as u64);
    assert_eq!(tar.end, page.table_offset + PAGE_SIZE);
    assert!(tar.need_closing);
    assert!(!tar.need_flush);
    assert_eq!(tar.index.page_count(), 1);
    assert_eq!(tar.index.len(), 0);
    assert_eq!(tar.index.get(""), Some(&FileEntry::default()));
    assert!(tar.list().is_empty());
    assert_eq!(page_path(0), ".0.rhindex");
    assert_eq!(page_path(12), ".12.rhindex");
}

#[test]
fn test_auto_partition_fits() {
    let (_, mut tar, _) = created();
    let member = tar.add_member("m".to_string(), 10).unwrap();
    let end = tar.end;
    tar.need_closing = false;
    tar.need_flush = false;
    assert_eq!(tar.auto_partition(0, 0, 10, "m.1".to_string()), Ok(Partition::Fits));
    assert_eq!(tar.auto_partition(0, 4, 6, "m.1".to_string()), Ok(Partition::Fits));
    assert_eq!(tar.auto_partition(0, 0, 0, "m.1".to_string()), Ok(Partition::Fits));
    assert_eq!(tar.end, end);
    assert!(!tar.need_closing);
    assert!(!tar.need_flush);
    assert_eq!(tar.index.get("m").unwrap().meta.size, 10);
    assert_eq!(tar.index.len(), 1);
    assert_eq!(member.file.index, 0);
    assert_eq!(
        tar.auto_partition(1, 0, 1, "m.1".to_string()),
        Err(IndexError::OutOfBounds)
    );
    assert_eq!(
        tar.auto_partition(0, u64::MAX, 1, "m.1".to_string()),
        Err(IndexError::OutOfBounds)
    );
}

#[test]
fn test_auto_partition_append() {
    // the last member of the archive grows in place
    let (_, mut tar, _) = created();
    let member = tar.add_member("m".to_string(), 10).unwrap();
    tar.need_closing = false;
    assert_eq!(tar.end, member.file.pos + 512);
    assert_eq!(tar.auto_partition(0, 5, 600, "m.1".to_string()), Ok(Partition::Extended(605)));
    let entry = tar.index.get("m").unwrap();
    assert_eq!(entry.meta.size, 605);
    assert!(!entry.meta.parted);
    assert_eq!(entry.next_part, 0);
    assert_eq!(tar.index.len(), 1);
    assert_eq!(tar.end, member.file.pos + 1024);
    assert!(tar.need_closing);
    assert!(tar.need_flush);
    let writes = tar.flush().unwrap();
    assert_eq!(writes.len(), 1);
    assert_eq!(writes[0].slot, 1);
    assert_eq!(writes[0].row.size, 605);
}

#[test]
fn test_auto_partition_partition() {
    // a member that is not the last one gets a new part
    let (_, mut tar, _) = created();
    tar.add_member("m".to_string(), 10).unwrap();
    tar.add_member("n".to_string(), 10).unwrap();
    let end = tar.end;
    assert_eq!(
        tar.auto_partition(0, 12, 3, "m.1".to_string()),
        Ok(Partition::Split(0, SubFile { index: 2, pos: end }))
    );
    assert_eq!(tar.index.get("m.1").unwrap().meta.size, 3);
    assert_eq!(tar.index.get("m").unwrap().next_part, 3);
    // a path that is present is no path for a part
    assert_eq!(
        tar.auto_partition(1, 0, 11, "m".to_string()),
        Err(IndexError::Duplicate)
    );
    // a member that has a part behind it gets no other
    assert_eq!(
        tar.auto_partition(0, 0, 11, "m.2".to_string()),
        Err(IndexError::OutOfBounds)
    );
}

#[test]
fn add_member_refuses_a_path_that_is_present() {
    let (_, mut tar, _) = created();
    tar.add_member("m".to_string(), 10).unwrap();
    let end = tar.end;
    assert_eq!(tar.add_member("m".to_string(), 1).err(), Some(IndexError::Duplicate));
    assert_eq!(tar.add_member("big".to_string(), u64::MAX).err(), Some(IndexError::OutOfBounds));
    assert_eq!(tar.end, end);
    assert_eq!(tar.index.len(), 1);
}

#[test]
fn move_to_flushes_before_it_seeks() {
    let (_, mut tar, _) = created();
    let file = SubFile { index: 0, pos: 4096 };
    assert!(!tar.need_flush);
    assert_eq!(tar.move_to(4096, &file), Move { flush: false, seek: None });
    assert_eq!(tar.move_to(0, &file), Move { flush: false, seek: Some(4096) });
    let mut cursor = file;
    tar.inner_write(&mut cursor, 10);
    assert_eq!(cursor.pos, 4106);
    assert!(tar.need_flush);
    assert_eq!(tar.move_to(4106, &cursor), Move { flush: false, seek: None });
    assert!(tar.need_flush);
    assert_eq!(tar.move_to(0, &cursor), Move { flush: true, seek: Some(4106) });
    assert!(!tar.need_flush);
    tar.inner_read(&mut cursor, 6);
    assert_eq!(cursor.pos, 4112);
    assert!(!tar.need_flush);
}

#[test]
fn padding_and_trailer() {
    assert_eq!(BLOCK_SIZE, 512);
    assert_eq!(pad_zeroes(0), 0);
    assert_eq!(pad_zeroes(1), 511);
    assert_eq!(pad_zeroes(511), 1);
    assert_eq!(pad_zeroes(512), 0);
    assert_eq!(pad_zeroes(PAGE_SIZE), 0);
    assert_eq!(padded_size(0), Some(0));
    assert_eq!(padded_size(1), Some(512));
    assert_eq!(padded_size(513), Some(1024));
    assert_eq!(padded_size(u64::MAX), None);
    assert_eq!(padded_size(u64::MAX - 511), Some(u64::MAX - 511));
    assert_eq!(trailer(), vec![0u8; 1024]);
}

#[test]
fn auto_partition_says_why_it_fails() {
    let (_, mut tar, _) = created();
    tar.add_member("m".to_string(), 10).unwrap();
    tar.add_member("n".to_string(), 10).unwrap();
    let end = tar.end;
    // no such member
    assert_eq!(tar.auto_partition(7, 0, 11, "p".to_string()), Err(IndexError::OutOfBounds));
    // the write ends behind 64 bits
    assert_eq!(tar.auto_partition(0, u64::MAX, 1, "p".to_string()), Err(IndexError::OutOfBounds));
    // the path of the part is present
    assert_eq!(tar.auto_partition(0, 0, 11, "n".to_string()), Err(IndexError::Duplicate));
    // the part would end behind 64 bits
    assert_eq!(tar.auto_partition(0, 10, u64::MAX - 10, "p".to_string()), Err(IndexError::OutOfBounds));
    // the last member cannot grow behind 64 bits
    assert_eq!(tar.auto_partition(1, 1, u64::MAX - 1, "p".to_string()), Err(IndexError::OutOfBounds));
    assert_eq!(tar.end, end);
    assert_eq!(tar.index.len(), 2);
    // a write that does not fit into a member that is not the last one is
    // owed a part
    assert_eq!(
        tar.auto_partition(0, 0, 15, "m.1".to_string()),
        Ok(Partition::Split(10, SubFile { index: 2, pos: end }))
    );
    assert_eq!(tar.index.len(), 3);
    assert_eq!(tar.end, end + 512);
    let m = tar.index.get("m").unwrap();
    let part = tar.index.get("m.1").unwrap();
    assert_eq!((m.next_part, m.prev_part, m.meta.parted, m.meta.size), (3, 0, true, 10));
    assert_eq!((part.next_part, part.prev_part, part.meta.parted, part.meta.size), (0, 1, true, 5));
    assert_eq!(part.meta.offset, end);
    let n = tar.index.get("n").unwrap();
    assert_eq!((n.next_part, n.prev_part, n.meta.parted), (0, 0, false));
}

#[test]
fn rows_are_placed_fifty_to_a_page() {
    let at = |slot: usize| RowWrite { slot, row: Record::empty() }.place();
    assert_eq!(at(0), None);
    assert_eq!(at(1), Some((0, 1)));
    assert_eq!(at(50), Some((0, 50)));
    assert_eq!(at(51), Some((1, 1)));
    assert_eq!(at(100), Some((1, 50)));
    assert_eq!(at(101), Some((2, 1)));
}

#[test]
fn new_archive_has_a_header_of_three_blocks() {
    let (tar, page) = Tar::create_new().unwrap();
    assert_eq!(page.header.len(), 1536);
    assert_eq!(page.table_offset, 1536);
    assert_eq!(tar.end, 1536 + PAGE_SIZE);
    // what was written for the page is read back as the header of a page
    let mut bytes = page.header.clone();
    bytes.extend_from_slice(b"what follows");
    let mut stream = Stream::new(bytes);
    assert_eq!(Index::read_page_header(&mut stream), Ok(1536));
}

#[test]
fn second_page_stands_behind_the_first_where_no_member_has_bytes() {
    // fifty entries take the slots of page 0 without bytes in the archive
    let (mut disk, mut tar, header_len) = created();
    for i in 0..50 {
        let meta = rhtar::index::FileMeta {
            offset: 0,
            path: format!("e{}", i),
            parted: false,
            size: 0,
        };
        tar.index.append(meta, 0, 0).unwrap();
    }
    let end = tar.end;
    assert_eq!(end, PAGE_SIZE + header_len as u64);
    let member = tar.add_member("m".to_string(), 0).unwrap();
    disk.add_member(&member);
    let page = member.page.as_ref().unwrap();
    assert_eq!(page.offset, PAGE_SIZE + 3 * 512);
    let (at, row) = page.link.as_ref().unwrap();
    assert_eq!(*at, 0);
    assert_eq!(row.offset, PAGE_SIZE + 3 * 512);
    assert_eq!(row.path, ".1.rhindex");
    assert_eq!(tar.index.pages[0].rows[0].offset, PAGE_SIZE + 3 * 512);
    assert_eq!(tar.index.pages[0].rows[0].path, ".1.rhindex");
    assert_eq!(tar.index.page_count(), 2);
    assert_eq!(member.file.index, 50);
    assert_eq!(disk.tables[0][0].offset, PAGE_SIZE + 3 * 512);
}
