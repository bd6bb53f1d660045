use rhtar::error::IndexError;
use rhtar::index::{FileEntry, FileMeta, Index, Page, Record, PAGE_RECORD_COUNT, PAGE_SIZE};

fn record(offset: u64, path: &str, parted: bool, size: u64, next: u8, prev: u8) -> Record {
    Record { offset, path: path.to_string(), parted, size, next_part: next, prev_part: prev }
}

/// The three rows of the sample table: a member of two parts with another
/// member between them.
fn add_records() -> (Vec<Record>, Vec<FileEntry>) {
    let mut records = Vec::new();
    let mut offset = PAGE_SIZE;
    records.push(record(offset, "/path/to/recordA.0", true, 10, 3, 0));
    offset += 512 + 10;
    records.push(record(offset, "/path/to/recordB", false, 5, 0, 0));
    offset += 512 + 5;
    records.push(record(offset, "/path/to/recordA.1", true, 5, 0, 1));
    let entries = records.iter().map(FileEntry::from_record).collect();
    (records, entries)
}

/// The rows of a table of 51 rows that holds the sample rows, then `extra`
/// rows more of zeros than the table has.
fn table_rows(records: &[Record]) -> Vec<Record> {
    let mut rows = vec![Record::empty()];
    rows.extend(records.iter().map(|r| r.duplicate()));
    while rows.len() < 51 {
        rows.push(Record::empty());
    }
    rows
}

fn loaded_index() -> (Index, Vec<FileEntry>) {
    let (records, entries) = add_records();
    let mut index = Index::new();
    let next = index.load_page(0, 1536, table_rows(&records)).unwrap();
    assert_eq!(next, 0);
    (index, entries)
}

fn entry_at(index: &Index, slot: usize) -> FileEntry {
    index.get_index(slot - 1).unwrap().clone()
}

#[test]
fn new() {
    let page = Page::new();
    assert_eq!(page.rows.len() as u64, PAGE_RECORD_COUNT);
    assert!(page.rows.iter().all(|r| *r == Record::empty()));
    assert_eq!(page.offset, 0);
    assert_eq!(page.table_offset, 0);
    assert_eq!(page.used_rows(), 1);
    let index = Index::new();
    assert_eq!(index.slot_count(), 1);
    assert_eq!(index.len(), 0);
    assert_eq!(index.get(""), Some(&FileEntry::default()));
    assert_eq!(index.page_count(), 0);
}

#[test]
fn load() {
    let (index, entries) = loaded_index();
    assert_eq!(4, index.slot_count());
    assert_eq!(Some(&FileEntry::default()), index.get(""));
    assert_eq!(entries[0], entry_at(&index, 1));
    assert_eq!(entries[1], entry_at(&index, 2));
    assert_eq!(entries[2], entry_at(&index, 3));
    assert_eq!(index.page_count(), 1);
    assert_eq!(index.pages[0].offset, 0);
    assert_eq!(index.pages[0].table_offset, 1536);
}

#[test]
fn load_ignore_extra_records() {
    let (records, entries) = add_records();
    let mut rows = table_rows(&records);
    // a row behind the first unused one is not a member
    rows[10] = record(77, "/path/to/ghost", false, 1, 0, 0);
    let mut index = Index::new();
    index.load_page(0, 1536, rows).unwrap();
    assert_eq!(4, index.slot_count());
    assert_eq!(Some(&FileEntry::default()), index.get(""));
    assert_eq!(entries[0], entry_at(&index, 1));
    assert_eq!(entries[1], entry_at(&index, 2));
    assert_eq!(entries[2], entry_at(&index, 3));
    assert_eq!(index.get("/path/to/ghost"), None);
}

#[test]
fn load_refuses_a_table_of_another_size() {
    let mut index = Index::new();
    let rows = vec![Record::empty(); 8];
    assert_eq!(index.load_page(0, 1536, rows), Err(IndexError::CorruptPage));
    assert_eq!(index.page_count(), 0);
    assert_eq!(Page::load(vec![Record::empty(); 52]).err(), Some(IndexError::CorruptPage));
    assert!(Page::load(vec![Record::empty(); 51]).is_ok());
}

#[test]
fn load_follows_the_chain_link() {
    let mut rows = table_rows(&[]);
    rows[0] = record(4096, ".1.rhindex", false, 0, 0, 0);
    let mut index = Index::new();
    assert_eq!(index.load_page(0, 1536, rows), Ok(4096));
    let page = &index.pages[0];
    assert_eq!(page.iter()[0].path, ".1.rhindex");
    assert_eq!(page.iter().len(), 51);
}

#[test]
fn len() {
    let mut index = Index::new();
    assert_eq!(1, index.slot_count());
    assert_eq!(0, index.len());
    index.append(FileMeta { path: "testA".to_string(), ..FileMeta::default() }, 0, 0).unwrap();
    assert_eq!(2, index.slot_count());
    assert_eq!(1, index.len());
    index.append(FileMeta { path: "testB".to_string(), ..FileMeta::default() }, 0, 0).unwrap();
    assert_eq!(3, index.slot_count());
    assert_eq!(2, index.len());
}

#[test]
fn remove() {
    let (mut index, _) = loaded_index();
    assert_eq!(4, index.slot_count());
    assert_eq!(3, entry_at(&index, 1).next_part);
    assert_eq!(0, entry_at(&index, 1).prev_part);
    if let Err(e) = index.remove(2) {
        assert!(false, "Failed to remove entry: {}", e.message());
        return;
    }
    assert_eq!(3, index.slot_count());
    assert_eq!("", &index.get("").unwrap().meta.path);
    assert_eq!("/path/to/recordA.0", &entry_at(&index, 1).meta.path);
    assert_eq!(0, entry_at(&index, 1).next_part);
    assert_eq!(0, entry_at(&index, 1).prev_part);
    assert_eq!("/path/to/recordB", &entry_at(&index, 2).meta.path);
    if let Err(e) = index.remove(0) {
        assert!(false, "Failed to remove entry: {}", e.message());
        return;
    }
    assert_eq!(2, index.slot_count());
    assert_eq!("", &index.get("").unwrap().meta.path);
    assert_eq!("/path/to/recordB", &entry_at(&index, 1).meta.path);
    if let Err(e) = index.remove(0) {
        assert!(false, "Failed to remove entry: {}", e.message());
        return;
    }
    assert_eq!(1, index.slot_count());
    assert_eq!("", &index.get("").unwrap().meta.path);
}

#[test]
fn remove_rearrange() {
    let (mut index, _) = loaded_index();
    assert_eq!(4, index.slot_count());
    assert_eq!(0, entry_at(&index, 3).next_part);
    assert_eq!(1, entry_at(&index, 3).prev_part);
    if let Err(e) = index.remove(0) {
        assert!(false, "Failed to remove entry: {}", e.message());
        return;
    }
    assert_eq!(3, index.slot_count());
    assert_eq!("", &index.get("").unwrap().meta.path);
    assert_eq!("/path/to/recordA.1", &entry_at(&index, 1).meta.path);
    assert_eq!(0, entry_at(&index, 1).next_part);
    assert_eq!(0, entry_at(&index, 1).prev_part);
    assert_eq!("/path/to/recordB", &entry_at(&index, 2).meta.path);
}

#[test]
fn remove_keeps_the_links_of_a_chain_of_three() {
    // A.0 <-> A.1 <-> A.2, then B: removing A.1 joins A.0 and A.2, and B
    // takes the free slot.
    let mut index = Index::new();
    let meta = |p: &str| FileMeta { path: p.to_string(), offset: 512, parted: false, size: 1 };
    index.append(meta("A.0"), 0, 0).unwrap();
    assert_eq!(index.link_part(0, meta("A.1")), Ok(1));
    assert_eq!(index.link_part(1, meta("A.2")), Ok(2));
    index.append(meta("B"), 0, 0).unwrap();
    index.remove(1).unwrap();
    assert_eq!(index.slot_count(), 4);
    let a0 = entry_at(&index, 1);
    let b = entry_at(&index, 2);
    let a2 = entry_at(&index, 3);
    assert_eq!((a0.meta.path.as_str(), a0.prev_part, a0.next_part), ("A.0", 0, 3));
    assert_eq!((b.meta.path.as_str(), b.prev_part, b.next_part), ("B", 0, 0));
    assert_eq!((a2.meta.path.as_str(), a2.prev_part, a2.next_part), ("A.2", 1, 0));
    // removing the first part moves the last entry, whose links follow it
    index.remove(0).unwrap();
    let a2 = entry_at(&index, 1);
    let b = entry_at(&index, 2);
    assert_eq!((a2.meta.path.as_str(), a2.prev_part, a2.next_part), ("A.2", 0, 0));
    assert_eq!((b.meta.path.as_str(), b.prev_part, b.next_part), ("B", 0, 0));
}

#[test]
fn remove_out_of_bounds() {
    let mut index = Index::new();
    match index.remove(99) {
        Ok(_) => assert!(false, "expected error but got success"),
        Err(e) => assert_eq!(e.message(), "index out of bounds"),
    }
    match index.remove(0) {
        Ok(_) => assert!(false, "expected error but got success"),
        Err(e) => assert_eq!(e.message(), "index out of bounds"),
    }
    assert_eq!(index.remove(usize::MAX), Err(IndexError::OutOfBounds));
}

#[test]
fn flush() {
    let (mut index, _) = loaded_index();
    assert_eq!(4, index.slot_count());
    if let Err(e) = index.remove(2) {
        assert!(false, "Failed to remove entry: {}", e.message());
        return;
    }
    assert_eq!(3, index.slot_count());
    assert_eq!("/path/to/recordA.0", &entry_at(&index, 1).meta.path);
    assert_eq!("/path/to/recordB", &entry_at(&index, 2).meta.path);
    let writes = index.flush();
    // row 1 loses its link to the part that was removed, and with it the
    // mark of a parted member; row 3 is cleared
    assert_eq!(writes.len(), 2);
    assert_eq!(writes[0].slot, 1);
    assert_eq!(writes[0].row, record(PAGE_SIZE, "/path/to/recordA.0", false, 10, 0, 0));
    assert_eq!(writes[1].slot, 3);
    assert_eq!(writes[1].row, Record::empty());
    // nothing is left to write
    assert!(index.flush().is_empty());
}

#[test]
fn append() {
    let (mut index, _) = loaded_index();
    let entry_meta =
        FileMeta { path: "/path/to/recordC".to_string(), offset: 0, size: 0, parted: false };
    let expected = FileEntry { meta: entry_meta.clone(), next_part: 3, prev_part: 2 };
    if let Err(e) = index.append(entry_meta.clone(), 2, 3) {
        assert!(false, "Failed to append entry: {}", e.message());
        return;
    }
    assert_eq!(5, index.slot_count());
    assert_eq!(expected, entry_at(&index, 4));
    assert_eq!(index.append(entry_meta, 0, 0), Err(IndexError::Duplicate));
    assert_eq!(index.append(entry_meta_of("x"), 0, 0), Ok(()));
    assert_eq!(index.position("x"), Some(5));
    let writes = index.flush();
    let slots: Vec<usize> = writes.iter().map(|w| w.slot).collect();
    assert_eq!(slots, vec![4, 5]);
    assert_eq!(writes[0].row.next_part, 3);
    assert_eq!(writes[0].row.prev_part, 2);
}

fn entry_meta_of(path: &str) -> FileMeta {
    FileMeta { path: path.to_string(), offset: 0, size: 0, parted: false }
}

#[test]
fn get() {
    let (index, _) = loaded_index();
    match index.get("/path/to/recordA.0") {
        Some(v) => assert_eq!(&entry_at(&index, 1), v),
        None => assert!(false, "expected entry recordA.0 but got not found"),
    }
    match index.get("/path/to/recordB") {
        Some(v) => assert_eq!(&entry_at(&index, 2), v),
        None => assert!(false, "expected entry recordB but got not found"),
    }
    match index.get("/path/to/recordA.1") {
        Some(v) => assert_eq!(&entry_at(&index, 3), v),
        None => assert!(false, "expected entry recordA.1 but got not found"),
    }
    assert_eq!(index.get("/path/to/none"), None);
}

#[test]
fn get_mut() {
    let (mut index, _) = loaded_index();
    let mut expected = entry_at(&index, 1);
    let entry = match index.get_mut("/path/to/recordA.0") {
        Some(v) => v,
        None => {
            assert!(false, "expected entry recordA.0 but got not found");
            return;
        }
    };
    assert_eq!(&mut expected, entry);
    entry.next_part = 99;
    assert_eq!(entry_at(&index, 1).next_part, 99);
    let mut expected = entry_at(&index, 2);
    match index.get_mut("/path/to/recordB") {
        Some(v) => assert_eq!(&mut expected, v),
        None => assert!(false, "expected entry recordB but got not found"),
    }
    let mut expected = entry_at(&index, 3);
    match index.get_mut("/path/to/recordA.1") {
        Some(v) => assert_eq!(&mut expected, v),
        None => assert!(false, "expected entry recordA.1 but got not found"),
    }
    assert!(index.get_mut("/path/to/none").is_none());
    let slots: Vec<usize> = index.flush().iter().map(|w| w.slot).collect();
    assert_eq!(slots, vec![1, 2, 3]);
}

#[test]
fn get_index() {
    let (index, entries) = loaded_index();
    match index.get_index(0) {
        Some(v) => assert_eq!(&entries[0], v),
        None => assert!(false, "expected entry recordA.0 but got not found"),
    }
    match index.get_index(1) {
        Some(v) => assert_eq!(&entries[1], v),
        None => assert!(false, "expected entry recordB but got not found"),
    }
    match index.get_index(2) {
        Some(v) => assert_eq!(&entries[2], v),
        None => assert!(false, "expected entry recordA.1 but got not found"),
    }
    assert_eq!(index.get_index(3), None);
    assert_eq!(index.get_index(usize::MAX), None);
}

#[test]
fn get_index_mut() {
    let (mut index, entries) = loaded_index();
    let mut expected = entries[0].clone();
    let entry = match index.get_index_mut(0) {
        Some(v) => v,
        None => {
            assert!(false, "expected entry recordA.0 but got not found");
            return;
        }
    };
    assert_eq!(&mut expected, entry);
    entry.next_part = 99;
    assert_eq!(entry_at(&index, 1).next_part, 99);
    let mut expected = entries[1].clone();
    match index.get_index_mut(1) {
        Some(v) => assert_eq!(&mut expected, v),
        None => assert!(false, "expected entry recordB but got not found"),
    }
    let mut expected = entries[2].clone();
    match index.get_index_mut(2) {
        Some(v) => assert_eq!(&mut expected, v),
        None => assert!(false, "expected entry recordA.1 but got not found"),
    }
    assert!(index.get_index_mut(3).is_none());
}

#[test]
fn records_and_entries() {
    let entry = FileEntry {
        meta: FileMeta { offset: 9, path: "p".to_string(), parted: true, size: 4 },
        next_part: 300,
        prev_part: 2,
    };
    let row = entry.as_record();
    assert_eq!(row, record(9, "p", true, 4, 44, 2));
    let back = FileEntry::from_record(&row);
    assert_eq!(back.next_part, 44);
    assert_eq!(back.meta, entry.meta);
    let mut other = FileEntry::default();
    other.copy_from(&entry);
    assert_eq!(other, entry);
    assert_eq!(other.duplicate(), entry);
    let mut meta = FileMeta::default();
    meta.copy_from(&entry.meta);
    assert_eq!(meta, entry.meta);
    assert_eq!(FileEntry::from_record(&Record::empty()), FileEntry::default());
}

#[test]
fn link_part_refuses_what_cannot_be_linked() {
    let mut index = Index::new();
    index.append(entry_meta_of("a"), 0, 0).unwrap();
    assert_eq!(index.link_part(0, entry_meta_of("a")), Err(IndexError::Duplicate));
    assert_eq!(index.link_part(5, entry_meta_of("b")), Err(IndexError::OutOfBounds));
    assert_eq!(index.link_part(0, entry_meta_of("b")), Ok(1));
    // the entry has a part behind it now
    assert_eq!(index.link_part(0, entry_meta_of("c")), Err(IndexError::OutOfBounds));
    let first = entry_at(&index, 1);
    let second = entry_at(&index, 2);
    assert!(first.meta.parted && second.meta.parted);
    assert_eq!((first.next_part, second.prev_part), (2, 1));
}

#[test]
fn is_full_counts_fifty_members_a_page() {
    let mut index = Index::new();
    assert!(index.is_full());
    index.add_page(0, ".0.rhindex").unwrap();
    assert!(!index.is_full());
    for i in 0..50 {
        index.append(entry_meta_of(&format!("m{}", i)), 0, 0).unwrap();
    }
    assert!(index.is_full());
    let page = index.add_page(1 << 30, ".1.rhindex").unwrap();
    assert!(!index.is_full());
    let (at, row) = page.link.unwrap();
    assert_eq!(at, 0);
    assert_eq!(row, record(1 << 30, ".1.rhindex", false, 0, 0, 0));
    assert_eq!(index.pages[0].rows[0], row);
    assert_eq!(index.pages[1].offset, 1 << 30);
    assert_eq!(index.pages[1].table_offset, page.table_offset);
    assert_eq!(page.table_offset, (1 << 30) + page.header.len() as u64);
    assert_eq!(index.add_page(u64::MAX - 5, ".2.rhindex").err(), Some(IndexError::OutOfBounds));
    assert_eq!(index.page_count(), 2);
}

#[test]
fn links_behind_what_a_row_can_name_are_refused() {
    let mut index = Index::new();
    assert_eq!(index.append(entry_meta_of("a"), 256, 0), Err(IndexError::OutOfBounds));
    assert_eq!(index.append(entry_meta_of("a"), 0, 256), Err(IndexError::OutOfBounds));
    assert_eq!(index.len(), 0);
    assert_eq!(index.append(entry_meta_of("a"), 255, 255), Ok(()));
    let row = entry_at(&index, 1).as_record();
    assert_eq!((row.next_part, row.prev_part), (255, 255));
    assert_eq!(FileEntry::from_record(&row), entry_at(&index, 1));

    let mut index = Index::new();
    for i in 0..253 {
        index.append(entry_meta_of(&format!("m{}", i)), 0, 0).unwrap();
    }
    // the part stands at slot 254, and the next one at slot 255
    assert_eq!(index.link_part(0, entry_meta_of("x.1")), Ok(253));
    assert_eq!(index.link_part(1, entry_meta_of("y.1")), Ok(254));
    // slot 256 is one that no row can name
    assert_eq!(index.link_part(2, entry_meta_of("z.1")), Err(IndexError::OutOfBounds));
    assert_eq!(index.len(), 255);
    assert_eq!(entry_at(&index, 2).next_part, 255);
    assert_eq!(entry_at(&index, 255).prev_part, 2);
    assert_eq!(entry_at(&index, 3).next_part, 0);
    // entries without links are still taken
    assert_eq!(index.append(entry_meta_of("q"), 0, 0), Ok(()));
}

#[test]
fn remove_unmarks_a_member_that_lost_its_only_part() {
    // A.0 at slot 1 names A.1 at slot 3; B stands between them
    let (mut index, _) = loaded_index();
    assert!(entry_at(&index, 1).meta.parted);
    index.remove(2).unwrap();
    let first = entry_at(&index, 1);
    assert_eq!((first.next_part, first.prev_part), (0, 0));
    assert!(!first.meta.parted);
    assert!(!entry_at(&index, 2).meta.parted);

    // the part that is left moves to slot 1 and is no part any more
    let (mut index, _) = loaded_index();
    index.remove(0).unwrap();
    let moved = entry_at(&index, 1);
    assert_eq!(moved.meta.path, "/path/to/recordA.1");
    assert_eq!((moved.next_part, moved.prev_part), (0, 0));
    assert!(!moved.meta.parted);

    // in a chain of three, the ends stay parted when the middle leaves
    let mut index = Index::new();
    index.append(entry_meta_of("a"), 0, 0).unwrap();
    index.link_part(0, entry_meta_of("a.1")).unwrap();
    index.link_part(1, entry_meta_of("a.2")).unwrap();
    index.remove(1).unwrap();
    let head = entry_at(&index, 1);
    let tail = entry_at(&index, 2);
    assert_eq!(tail.meta.path, "a.2");
    assert_eq!((head.next_part, head.prev_part, head.meta.parted), (2, 0, true));
    assert_eq!((tail.next_part, tail.prev_part, tail.meta.parted), (0, 1, true));
}
