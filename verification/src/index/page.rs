use vstd::prelude::*;
use crate::error::IndexError;
use super::file::{empty_record, Record, RecordView};

verus! {

/// The number of rows of a page's table: the chain link and 50 members.
pub const RECORD_COUNT: u64 = 51;

/// Represents a page of the index: where it stands in the archive, and the
/// rows of its table.
pub struct Page {
    /// Offset of the page's header in the archive.
    pub offset: u64,
    /// Offset of the page's table in the archive.
    pub table_offset: u64,
    /// The rows of the table. Row 0 is the chain link: its offset is that of
    /// the next page, or 0 at the end of the chain, and its path the path of
    /// the next page.
    pub rows: Vec<Record>,
}

/// The rows of a page as values.
pub open spec fn rows_of(rows: Seq<Record>) -> Seq<RecordView> {
    rows.map_values(|r: Record| r@)
}

/// A page as values.
pub ghost struct PageView {
    pub offset: u64,
    pub table_offset: u64,
    pub rows: Seq<RecordView>,
}

impl View for Page {
    type V = PageView;

    open spec fn view(&self) -> PageView {
        PageView {
            offset: self.offset,
            table_offset: self.table_offset,
            rows: rows_of(self.rows@),
        }
    }
}

/// The pages of a chain as values.
pub open spec fn pages_of(pages: Seq<Page>) -> Seq<PageView> {
    pages.map_values(|p: Page| p@)
}

/// The number of member rows in use: the rows from row 1 on, up to the
/// first one whose offset is 0.
pub open spec fn live_rows(rows: Seq<RecordView>, from: int) -> int
    decreases rows.len() - from,
{
    if from >= rows.len() {
        rows.len() as int
    } else if from >= 0 && rows[from].offset == 0 {
        from
    } else {
        live_rows(rows, from + 1)
    }
}

impl Page {
    /// True when the page has the rows of a table: 51 of them.
    pub open spec fn wf(&self) -> bool {
        self.rows@.len() == 51
    }

    /// Creates a new page, whose table holds 51 rows of zeros.
    pub fn new() -> (page: Self)
        ensures
            page.wf(),
            page.offset == 0,
            page.table_offset == 0,
            forall|i: int| 0 <= i < 51 ==> (#[trigger] page.rows@[i])@ == empty_record(),
    {
        let mut rows: Vec<Record> = Vec::new();
        let mut i: usize = 0;
        while i < 51
            invariant
                i <= 51,
                rows@.len() == i,
                forall|j: int| 0 <= j < i ==> (#[trigger] rows@[j])@ == empty_record(),
            decreases 51 - i,
        {
            rows.push(Record::empty());
            i += 1;
        }
        Page { offset: 0, table_offset: 0, rows }
    }

    /// Makes a page of the rows that were read from a table. A table that
    /// does not hold 51 rows is refused.
    pub fn load(rows: Vec<Record>) -> (r: Result<Self, IndexError>)
        ensures
            match r {
                Ok(page) => rows@.len() == 51 && page.rows@ == rows@ && page.offset == 0
                    && page.table_offset == 0,
                Err(e) => rows@.len() != 51 && e == IndexError::CorruptPage,
            },
    {
        if rows.len() != 51 {
            return Err(IndexError::CorruptPage);
        }
        Ok(Page { offset: 0, table_offset: 0, rows })
    }

    /// Returns the rows in their order, starting with row 0.
    pub fn iter(&self) -> (rows: &[Record])
        ensures
            rows@ == self.rows@,
    {
        self.rows.as_slice()
    }

    /// The number of rows up to the first member row whose offset is 0: the
    /// chain link and the members in use.
    pub fn used_rows(&self) -> (n: usize)
        requires
            self.rows@.len() >= 1,
        ensures
            n == live_rows(rows_of(self.rows@), 1),
            1 <= n <= self.rows@.len(),
    {
        let mut n: usize = 1;
        while n < self.rows.len() && self.rows[n].offset != 0
            invariant
                1 <= n <= self.rows@.len(),
                live_rows(rows_of(self.rows@), 1) == live_rows(rows_of(self.rows@), n as int),
            decreases self.rows@.len() - n,
        {
            n += 1;
        }
        n
    }
}

} // verus!
