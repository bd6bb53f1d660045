use vstd::prelude::*;
use crate::stream::padded_len;
use super::file::{FileEntryView, FileMetaView};
use super::{
    compact, lemma_compact_entry, lemma_settle_entry, lemma_unlink_entry, linked, new_place,
    removable, remove_slot, settle, unlink,
};

verus! {

/// True when every member ends, in whole blocks, at `end` or before it.
pub open spec fn members_within(entries: Seq<(Seq<char>, FileEntryView)>, end: u64) -> bool {
    forall|i: int|
        1 <= i < entries.len() ==> (#[trigger] entries[i]).1.meta.offset + padded_len(
            entries[i].1.meta.size as nat,
        ) <= end
}

/// More bytes take no fewer blocks.
pub proof fn lemma_padded_len_grows(a: nat, b: nat)
    requires
        a <= b,
    ensures
        padded_len(a) <= padded_len(b),
        padded_len(a) % 512 == 0,
        a <= padded_len(a),
{
}

/// Removing an entry leaves every member where it ends.
pub proof fn lemma_remove_keeps_members(
    entries: Seq<(Seq<char>, FileEntryView)>,
    slot: int,
    end: u64,
)
    requires
        removable(entries, slot),
        members_within(entries, end),
    ensures
        members_within(remove_slot(entries, slot), end),
{
    let last = entries.len() - 1;
    let joined = unlink(entries, slot);
    let moved = compact(joined, slot);
    let p = new_place(entries[slot].1.next_part, slot, last);
    let q = new_place(entries[slot].1.prev_part, slot, last);
    let first = settle(moved, p);
    let result = remove_slot(entries, slot);
    lemma_unlink_entry(entries, slot, 0);
    lemma_compact_entry(joined, slot, 0);
    lemma_settle_entry(moved, p, 0);
    lemma_settle_entry(first, q, 0);
    assert forall|j: int| 1 <= j < result.len() implies (#[trigger] result[j]).1.meta.offset
        + padded_len(result[j].1.meta.size as nat) <= end by {
        lemma_compact_entry(joined, slot, j);
        let from = if j == slot {
            last
        } else {
            j
        };
        lemma_unlink_entry(entries, slot, from);
        lemma_settle_entry(moved, p, j);
        lemma_settle_entry(first, q, j);
        assert(moved[j].1.meta == entries[from].1.meta);
    }
}

/// A member that ends at `end` or before it can be appended.
pub proof fn lemma_push_keeps_members(
    entries: Seq<(Seq<char>, FileEntryView)>,
    pair: (Seq<char>, FileEntryView),
    before: u64,
    end: u64,
)
    requires
        members_within(entries, before),
        before <= end,
        pair.1.meta.offset + padded_len(pair.1.meta.size as nat) <= end,
    ensures
        members_within(entries.push(pair), end),
{
    let result = entries.push(pair);
    assert forall|i: int| 1 <= i < result.len() implies (#[trigger] result[i]).1.meta.offset
        + padded_len(result[i].1.meta.size as nat) <= end by {
        if i < entries.len() {
            assert(result[i] == entries[i]);
        }
    }
}

/// A part that ends at `end` or before it can be linked behind a member.
pub proof fn lemma_link_keeps_members(
    entries: Seq<(Seq<char>, FileEntryView)>,
    slot: int,
    part: FileMetaView,
    before: u64,
    end: u64,
)
    requires
        members_within(entries, before),
        before <= end,
        1 <= slot < entries.len(),
        part.offset + padded_len(part.size as nat) <= end,
    ensures
        members_within(linked(entries, slot, part), end),
{
    let result = linked(entries, slot, part);
    assert forall|i: int| 1 <= i < result.len() implies (#[trigger] result[i]).1.meta.offset
        + padded_len(result[i].1.meta.size as nat) <= end by {
        if i < entries.len() {
            assert(result[i].1.meta.offset == entries[i].1.meta.offset);
            assert(result[i].1.meta.size == entries[i].1.meta.size);
        }
    }
}

/// A member whose new size ends at `end` or before it can take that size.
pub proof fn lemma_resize_keeps_members(
    entries: Seq<(Seq<char>, FileEntryView)>,
    slot: int,
    size: u64,
    before: u64,
    end: u64,
)
    requires
        members_within(entries, before),
        before <= end,
        1 <= slot < entries.len(),
        entries[slot].1.meta.offset + padded_len(size as nat) <= end,
    ensures
        members_within(
            entries.update(
                slot,
                (
                    entries[slot].0,
                    FileEntryView {
                        meta: FileMetaView { size, ..entries[slot].1.meta },
                        ..entries[slot].1
                    },
                ),
            ),
            end,
        ),
{
    let result = entries.update(
        slot,
        (
            entries[slot].0,
            FileEntryView { meta: FileMetaView { size, ..entries[slot].1.meta }, ..entries[slot].1 },
        ),
    );
    assert forall|i: int| 1 <= i < result.len() implies (#[trigger] result[i]).1.meta.offset
        + padded_len(result[i].1.meta.size as nat) <= end by {
        if i != slot {
            assert(result[i] == entries[i]);
        }
    }
}

} // verus!
