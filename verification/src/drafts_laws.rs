//! What holds of drafts over several operations.
//!
//! The laws speak of the content of a draft's data file beside what the store says of the draft. What the
//! store says is written down before and after each change; the bytes are those of [`crate::datafile`].

use vstd::prelude::*;

use crate::drafts::{DraftMeta, DraftState, DraftView, ScannedDraft};

verus! {

/// Whether a draft's recorded size is the size of its data file.
pub open spec fn holds(d: DraftView, content: Seq<u8>) -> bool {
    d.size == content.len()
}

/// What a read of a draft returns, given the bytes of its data file: as many as the store says.
pub open spec fn read_of(d: DraftView, content: Seq<u8>, offset: u64, len: u32) -> Seq<u8> {
    crate::datafile::read_from(
        content,
        offset as int,
        crate::drafts::readable_len(d.size, offset, len),
    )
}

/// What is written to a draft reads back at its place, and the recorded size stays that of the file.
pub proof fn a_write_reads_back(
    d: DraftView,
    content: Seq<u8>,
    offset: u64,
    data: Seq<u8>,
    now: i64,
    stamp: u64,
)
    requires
        holds(d, content),
        0 < data.len() <= u32::MAX,
        offset + data.len() <= u64::MAX,
    ensures
        ({
            let size = crate::drafts::size_after_write(d.size, offset, data.len() as int) as u64;
            let e = crate::drafts::edited(d, size, now, stamp);
            let after = crate::datafile::written_at(content, offset as int, data);
            &&& holds(e, after)
            &&& read_of(e, after, offset, data.len() as u32) == data
        }),
{
    crate::datafile::write_reads_back(content, offset as int, data);
}

/// A write leaves what it does not cover: every byte of the old content outside of it reads as before,
/// and a gap between the old end and the write reads as zeros.
pub proof fn a_write_keeps_the_rest(
    d: DraftView,
    content: Seq<u8>,
    offset: u64,
    data: Seq<u8>,
    i: int,
)
    requires
        holds(d, content),
        data.len() > 0,
        offset + data.len() <= u64::MAX,
        0 <= i < crate::datafile::written_at(content, offset as int, data).len(),
        i < offset || i >= offset + data.len(),
    ensures
        crate::datafile::written_at(content, offset as int, data)[i] == (if i < d.size {
            content[i]
        } else {
            0u8
        }),
{
}

/// Resizing a draft keeps the recorded size that of the file, keeps what fits, and fills up with zeros.
pub proof fn resizing_cuts_or_fills(d: DraftView, content: Seq<u8>, size: u64, now: i64, stamp: u64)
    requires
        holds(d, content),
    ensures
        holds(
            crate::drafts::edited(d, size, now, stamp),
            crate::datafile::resized(content, size as int),
        ),
        forall|i: int|
            0 <= i < size ==> crate::datafile::resized(content, size as int)[i] == (if i < d.size {
                content[i]
            } else {
                0u8
            }),
{
}

/// A read gets what is there: nothing at or past the end, and no more than there is before it.
pub proof fn reads_stop_at_the_end(d: DraftView, content: Seq<u8>, offset: u64, len: u32)
    requires
        holds(d, content),
    ensures
        read_of(d, content, offset, len) == crate::datafile::read_from(
            content,
            offset as int,
            len as int,
        ),
{
    assert(read_of(d, content, offset, len) =~= crate::datafile::read_from(
        content,
        offset as int,
        len as int,
    ));
}

/// A restart brings a draft back as it was recorded, except that one whose upload was under way waits
/// again: whether the server got it is not known.
pub proof fn drafts_survive_a_restart(meta: DraftMeta, d: DraftView)
    requires
        crate::drafts::records(meta, d),
    ensures
        crate::drafts::restored(meta) == (DraftView {
            state: crate::drafts::state_after_restart(d.state),
            stamp: 0,
            ..d
        }),
        crate::drafts::is_waiting(d.state) ==> crate::drafts::restored(meta).state
            == DraftState::Pending,
{
}

/// A draft that is moved to another path and back is as it was, and so are all others, where the other
/// path had no draft.
pub proof fn renaming_back_restores(
    drafts: Map<Seq<char>, DraftView>,
    from: Seq<char>,
    to: Seq<char>,
)
    requires
        drafts.contains_key(crate::drafts::path_hash(from)),
        drafts[crate::drafts::path_hash(from)].remote_path == from,
        !drafts.contains_key(crate::drafts::path_hash(to)),
    ensures
        renamed(renamed(drafts, from, to), to, from) == drafts,
{
    assert(renamed(renamed(drafts, from, to), to, from) =~= drafts);
}

/// The drafts after the one at `from` was moved to `to`.
pub open spec fn renamed(drafts: Map<Seq<char>, DraftView>, from: Seq<char>, to: Seq<char>) -> Map<
    Seq<char>,
    DraftView,
> {
    drafts.remove(crate::drafts::path_hash(from)).insert(
        crate::drafts::path_hash(to),
        (DraftView { remote_path: to, ..drafts[crate::drafts::path_hash(from)] }),
    )
}

/// Removing a draft twice is removing it once, and takes no other draft along.
pub proof fn removing_is_idempotent(
    drafts: Map<Seq<char>, DraftView>,
    path: Seq<char>,
    k: Seq<char>,
)
    ensures
        ({
            let h = crate::drafts::path_hash(path);
            let once = drafts.remove(h);
            &&& once.remove(h) == once
            &&& !once.contains_key(h)
            &&& k != h ==> (once.contains_key(k) <==> drafts.contains_key(k))
            &&& k != h && drafts.contains_key(k) ==> once[k] == drafts[k]
        }),
{
    let h = crate::drafts::path_hash(path);
    assert(drafts.remove(h).remove(h) =~= drafts.remove(h));
}

/// A draft waits for its upload if and only if it is not being edited; after a restart none is being
/// uploaded, and one that was not is as it was.
pub proof fn after_a_restart_nothing_is_being_uploaded(state: DraftState)
    ensures
        crate::drafts::is_waiting(state) <==> state != DraftState::Editing,
        crate::drafts::state_after_restart(state) != DraftState::Uploading,
        state != DraftState::Uploading ==> crate::drafts::state_after_restart(state) == state,
        crate::drafts::is_waiting(crate::drafts::state_after_restart(state)) <==> crate::drafts::is_waiting(
            state,
        ),
{
}

/// A restart brings back every draft whose record could be read, as it was recorded, and no other.
pub proof fn a_restart_brings_back_what_was_recorded(
    entries: Map<Seq<char>, DraftView>,
    scanned: Seq<ScannedDraft>,
    i: int,
    k: Seq<char>,
)
    requires
        crate::drafts::loaded_from_scan(entries, scanned, scanned.len() as int),
        0 <= i < scanned.len(),
    ensures
        scanned[i].meta matches Some(m) ==> {
            let d = entries[scanned[i].hash@];
            &&& entries.contains_key(scanned[i].hash@)
            &&& d.remote_path == m.remote_path@
            &&& d.base_etag == m.base_etag@
            &&& d.size == m.size
            &&& d.last_write_unix == m.last_write_unix
            &&& m.state == DraftState::Editing ==> d.state == DraftState::Editing
            &&& m.state != DraftState::Editing ==> d.state == DraftState::Pending
        },
        entries.contains_key(k) ==> exists|j: int|
            0 <= j < scanned.len() && (#[trigger] scanned[j]).meta is Some && scanned[j].hash@ == k,
{
}

proof fn lemma_pushed(before: Seq<Seq<char>>, x: Seq<char>, k: Seq<char>)
    ensures
        before.push(x).contains(k) <==> before.contains(k) || x == k,
{
    let all = before.push(x);
    if before.contains(k) {
        let i = choose|i: int| 0 <= i < before.len() && before[i] == k;
        assert(all[i] == k);
    }
    assert(all[before.len() as int] == x);
    if all.contains(k) && x != k {
        let i = choose|i: int| 0 <= i < all.len() && all[i] == k;
        assert(before[i] == k);
    }
}

/// The directories that are to be deleted after a restart are those whose record could not be read, and
/// the records that are to be written anew are those of drafts that were being uploaded.
pub proof fn a_restart_deletes_what_it_cannot_read(scanned: Seq<ScannedDraft>, n: int, k: Seq<char>)
    requires
        0 <= n <= scanned.len(),
    ensures
        crate::drafts::orphan_names(scanned, n).contains(k) <==> exists|i: int|
            0 <= i < n && (#[trigger] scanned[i]).meta is None && scanned[i].hash@ == k,
        crate::drafts::demoted_names(scanned, n).contains(k) <==> exists|i: int|
            0 <= i < n && ((#[trigger] scanned[i]).meta matches Some(m) && m.state
                == DraftState::Uploading) && scanned[i].hash@ == k,
    decreases n,
{
    if n > 0 {
        a_restart_deletes_what_it_cannot_read(scanned, n - 1, k);
        lemma_pushed(crate::drafts::orphan_names(scanned, n - 1), scanned[n - 1].hash@, k);
        lemma_pushed(crate::drafts::demoted_names(scanned, n - 1), scanned[n - 1].hash@, k);
    }
}

/// What waits is found whole: a path is listed if and only if a draft of it is not being edited.
pub proof fn every_draft_that_is_not_edited_is_listed(
    drafts: Map<Seq<char>, DraftView>,
    paths: Seq<Seq<char>>,
    p: Seq<char>,
)
    requires
        crate::drafts::lists_waiting(drafts, paths),
    ensures
        paths.contains(p) <==> exists|k: Seq<char>| #[trigger]
            drafts.contains_key(k) && drafts[k].remote_path == p && drafts[k].state
                != DraftState::Editing,
{
    crate::drafts::lemma_lists_waiting(drafts, paths);
    if exists|k: Seq<char>| #[trigger]
        drafts.contains_key(k) && drafts[k].remote_path == p && drafts[k].state
            != DraftState::Editing {
        let k = choose|k: Seq<char>| #[trigger]
            drafts.contains_key(k) && drafts[k].remote_path == p && drafts[k].state
                != DraftState::Editing;
        assert(drafts.contains_key(k));
        assert(crate::drafts::is_waiting(drafts[k].state));
    }
    if paths.contains(p) {
        let k = choose|k: Seq<char>| #[trigger]
            drafts.contains_key(k) && drafts[k].remote_path == p && crate::drafts::is_waiting(
                drafts[k].state,
            );
        assert(drafts.contains_key(k));
    }
}

} // verus!
