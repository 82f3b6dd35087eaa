//! What holds of every bundle: what is written is read back, whatever
//! precedes it, and a bundle whose entries are cut short is never read as
//! a whole one.
//!
//! The format carries no checksum. A stream that loses its tail, footer
//! included, is read by whatever its last twelve bytes then spell: such a
//! cut is detected wherever those bytes name no footer or the entries they
//! point at cannot be read, and not otherwise.

use vstd::prelude::*;
use vstd::utf8::*;
use crate::encoder::Encoder;
use crate::entry::{lemma_entry_layout, Entry};
use crate::format::{
    all_fit, bundle_stream, cut_bundle, decode, entries_bytes, entries_size, read_entries,
    read_entry, read_footer, restored, with_prefix, DecodeError, Footer, FOOTER_LEN,
};
use crate::wire::{
    be32, be32_value, be64, lemma_be32_of_value, lemma_be32_value_of, lemma_be64_value_of,
};

verus! {

/// Where `whole` lies in `stream` from `at` on, each part of `whole` lies
/// in `stream` at the matching place.
proof fn lemma_part_of_stream(stream: Seq<u8>, at: int, whole: Seq<u8>, a: int, b: int)
    requires
        0 <= at,
        at + whole.len() <= stream.len(),
        stream.subrange(at, at + whole.len()) == whole,
        0 <= a <= b <= whole.len(),
    ensures
        stream.subrange(at + a, at + b) == whole.subrange(a, b),
{
    assert(stream.subrange(at + a, at + b) =~= stream.subrange(at, at + whole.len()).subrange(
        a,
        b,
    ));
}

/// An entry that lies whole before `limit` is read back as it was written.
pub proof fn lemma_read_entry_written(stream: Seq<u8>, at: int, limit: int, entry: Entry)
    requires
        entry.fits(),
        0 <= at,
        at + entry.size() <= limit <= stream.len(),
        stream.subrange(at, at + entry.size()) == entry.bytes(),
    ensures
        read_entry(stream, at, limit) == Ok::<(Entry, int), DecodeError>(
            (entry, at + entry.size()),
        ),
{
    let n = entry.path_bytes().len() as int;
    let w = entry.bytes();
    lemma_entry_layout(entry);
    lemma_part_of_stream(stream, at, w, 0, 4);
    lemma_part_of_stream(stream, at, w, 4, 4 + n);
    lemma_part_of_stream(stream, at, w, 4 + n, 8 + n);
    lemma_part_of_stream(stream, at, w, 8 + n, entry.size() as int);
    lemma_be32_value_of(n as u32);
    lemma_be32_value_of(entry.data.len() as u32);
    encode_utf8_valid_utf8(entry.path);
    encode_utf8_decode_utf8(entry.path);
}

/// Entries that lie whole before `limit`, one after the other, are read
/// back as they were written, and the walk ends just behind the last.
pub proof fn lemma_read_entries_written(stream: Seq<u8>, start: int, limit: int, entries: Seq<Entry>)
    requires
        all_fit(entries),
        0 <= start,
        start + entries_bytes(entries).len() <= limit <= stream.len(),
        stream.subrange(start, start + entries_bytes(entries).len()) == entries_bytes(entries),
    ensures
        read_entries(stream, start, limit, entries.len()) == Ok::<(Seq<Entry>, int), DecodeError>(
            (entries, start + entries_bytes(entries).len()),
        ),
    decreases entries.len(),
{
    if entries.len() == 0 {
        assert(entries =~= Seq::<Entry>::empty());
    } else {
        let init = entries.drop_last();
        let last = entries.last();
        let whole = entries_bytes(entries);
        let m = entries_bytes(init).len() as int;
        lemma_entry_layout(last);
        lemma_part_of_stream(stream, start, whole, 0, m);
        lemma_part_of_stream(stream, start, whole, m, whole.len() as int);
        assert(whole.subrange(0, m) =~= entries_bytes(init));
        assert(whole.subrange(m, whole.len() as int) =~= last.bytes());
        lemma_read_entries_written(stream, start, limit, init);
        lemma_read_entry_written(stream, start + m, limit, last);
        assert(init.push(last) =~= entries);
    }
}

/// The bytes of a run of entries are as many as the sizes of the entries
/// add up to.
pub proof fn lemma_entries_size(entries: Seq<Entry>)
    requires
        all_fit(entries),
    ensures
        entries_bytes(entries).len() == entries_size(entries),
    decreases entries.len(),
{
    if entries.len() > 0 {
        lemma_entries_size(entries.drop_last());
        lemma_entry_layout(entries.last());
    }
}

/// The footer of a bundle lies where the entries end: at the start offset
/// plus the sizes of all entries. Nothing lies between the entries, and
/// nothing between the last of them and the footer.
pub proof fn lemma_footer_offset(prefix: Seq<u8>, entries: Seq<Entry>)
    requires
        all_fit(entries),
    ensures
        bundle_stream(prefix, entries).len() - FOOTER_LEN == prefix.len() + entries_size(entries),
{
    lemma_entries_size(entries);
    lemma_be64_value_of(prefix.len() as u64);
    lemma_be32_value_of(entries.len() as u32);
}

/// The footer of a bundle is read back from its last twelve bytes: it
/// holds the length of what preceded the first entry and the number of
/// entries.
pub proof fn lemma_footer_read_back(prefix: Seq<u8>, entries: Seq<Entry>)
    requires
        prefix.len() <= u64::MAX,
        entries.len() <= u32::MAX,
    ensures
        read_footer(bundle_stream(prefix, entries)) == Ok::<Footer, DecodeError>(
            Footer { start_offset: prefix.len() as u64, entry_count: entries.len() as u32 },
        ),
{
    let footer = Footer { start_offset: prefix.len() as u64, entry_count: entries.len() as u32 };
    let stream = bundle_stream(prefix, entries);
    let at = stream.len() - FOOTER_LEN;
    lemma_be64_value_of(footer.start_offset);
    lemma_be32_value_of(footer.entry_count);
    assert(stream.subrange(at, at + 8) =~= be64(footer.start_offset));
    assert(stream.subrange(at + 8, at + 12) =~= be32(footer.entry_count));
}

/// Whatever an encoder has written since `begin`, the footer that `finish`
/// appends is read back as the length of the stream at `begin` and the
/// number of entries written since.
pub proof fn lemma_finished_footer(
    encoder: Encoder,
    prefix: Seq<u8>,
    entries: Seq<Entry>,
    stream: Seq<u8>,
)
    requires
        encoder.wrote(prefix, entries, stream),
    ensures
        read_footer(stream + encoder.footer().bytes()) == Ok::<Footer, DecodeError>(
            Footer { start_offset: prefix.len() as u64, entry_count: entries.len() as u32 },
        ),
{
    lemma_footer_read_back(prefix, entries);
    assert(stream + encoder.footer().bytes() =~= bundle_stream(prefix, entries));
}

/// The walk over a bundle reads exactly the bytes between the start
/// offset and the footer: it ends where the footer begins.
pub proof fn lemma_walk_ends_at_footer(prefix: Seq<u8>, entries: Seq<Entry>)
    requires
        all_fit(entries),
        prefix.len() <= u64::MAX,
        entries.len() <= u32::MAX,
    ensures
        read_entries(
            bundle_stream(prefix, entries),
            prefix.len() as int,
            bundle_stream(prefix, entries).len() - FOOTER_LEN,
            entries.len(),
        ) == Ok::<(Seq<Entry>, int), DecodeError>(
            (entries, bundle_stream(prefix, entries).len() - FOOTER_LEN),
        ),
{
    let stream = bundle_stream(prefix, entries);
    let start = prefix.len() as int;
    assert(stream.subrange(start, start + entries_bytes(entries).len()) =~= entries_bytes(entries));
    lemma_read_entries_written(stream, start, stream.len() - FOOTER_LEN, entries);
}

/// Decoding a bundle gives the entries that were written, in order,
/// whatever the prefix is.
pub proof fn lemma_decode_bundle(prefix: Seq<u8>, entries: Seq<Entry>)
    requires
        all_fit(entries),
        prefix.len() <= u64::MAX,
        entries.len() <= u32::MAX,
    ensures
        decode(bundle_stream(prefix, entries)) == Ok::<Seq<Entry>, DecodeError>(entries),
{
    lemma_footer_read_back(prefix, entries);
    lemma_walk_ends_at_footer(prefix, entries);
}

/// The result of reading one entry, with the offset behind it moved by `k`.
pub open spec fn moved_entry(r: Result<(Entry, int), DecodeError>, k: int) -> Result<
    (Entry, int),
    DecodeError,
> {
    match r {
        Ok((entry, next)) => Ok((entry, next + k)),
        Err(e) => Err(e),
    }
}

/// The result of reading a run of entries, with the offset behind it moved
/// by `k`.
pub open spec fn moved_entries(r: Result<(Seq<Entry>, int), DecodeError>, k: int) -> Result<
    (Seq<Entry>, int),
    DecodeError,
> {
    match r {
        Ok((entries, next)) => Ok((entries, next + k)),
        Err(e) => Err(e),
    }
}

/// Where two streams hold the same bytes between `at` and `limit`, the
/// second `k` bytes further on, they hold the same bytes in every part of
/// that range.
proof fn lemma_same_part(s1: Seq<u8>, s2: Seq<u8>, at: int, limit: int, k: int, a: int, b: int)
    requires
        0 <= at <= limit <= s1.len(),
        0 <= at + k,
        limit + k <= s2.len(),
        s2.subrange(at + k, limit + k) == s1.subrange(at, limit),
        at <= a <= b <= limit,
    ensures
        s2.subrange(a + k, b + k) == s1.subrange(a, b),
{
    assert(s2.subrange(a + k, b + k) =~= s2.subrange(at + k, limit + k).subrange(a - at, b - at));
    assert(s1.subrange(a, b) =~= s1.subrange(at, limit).subrange(a - at, b - at));
}

/// Reading an entry depends only on the bytes between where it begins and
/// the limit, not on where in the stream they lie.
pub proof fn lemma_read_entry_moved(s1: Seq<u8>, s2: Seq<u8>, at: int, limit: int, k: int)
    requires
        0 <= at <= limit <= s1.len(),
        0 <= at + k,
        limit + k <= s2.len(),
        s2.subrange(at + k, limit + k) == s1.subrange(at, limit),
    ensures
        read_entry(s2, at + k, limit + k) == moved_entry(read_entry(s1, at, limit), k),
{
    if at + 4 <= limit {
        lemma_same_part(s1, s2, at, limit, k, at, at + 4);
        let path_len = be32_value(s1.subrange(at, at + 4));
        let path_end = at + 4 + path_len;
        if path_end <= limit {
            lemma_same_part(s1, s2, at, limit, k, at + 4, path_end);
            if path_end + 4 <= limit {
                lemma_same_part(s1, s2, at, limit, k, path_end, path_end + 4);
                let data_len = be32_value(s1.subrange(path_end, path_end + 4));
                let data_end = path_end + 4 + data_len;
                if data_end <= limit {
                    lemma_same_part(s1, s2, at, limit, k, path_end + 4, data_end);
                }
            }
        }
    }
}

/// A walk that succeeds ends between its start and the limit, and has read
/// as many entries as were asked for.
pub proof fn lemma_read_entries_bounds(stream: Seq<u8>, start: int, limit: int, count: nat)
    requires
        start <= limit,
        read_entries(stream, start, limit, count) is Ok,
    ensures
        start <= read_entries(stream, start, limit, count)->Ok_0.1 <= limit,
        read_entries(stream, start, limit, count)->Ok_0.0.len() == count,
    decreases count,
{
    if count > 0 {
        lemma_read_entries_bounds(stream, start, limit, (count - 1) as nat);
    }
}

/// Reading a run of entries depends only on the bytes between where it
/// begins and the limit, not on where in the stream they lie.
pub proof fn lemma_read_entries_moved(
    s1: Seq<u8>,
    s2: Seq<u8>,
    start: int,
    limit: int,
    k: int,
    count: nat,
)
    requires
        0 <= start <= limit <= s1.len(),
        0 <= start + k,
        limit + k <= s2.len(),
        s2.subrange(start + k, limit + k) == s1.subrange(start, limit),
    ensures
        read_entries(s2, start + k, limit + k, count) == moved_entries(
            read_entries(s1, start, limit, count),
            k,
        ),
    decreases count,
{
    if count > 0 {
        let before = (count - 1) as nat;
        lemma_read_entries_moved(s1, s2, start, limit, k, before);
        if read_entries(s1, start, limit, before) is Ok {
            lemma_read_entries_bounds(s1, start, limit, before);
            let at = read_entries(s1, start, limit, before)->Ok_0.1;
            lemma_same_part(s1, s2, start, limit, k, at, limit);
            lemma_read_entry_moved(s1, s2, at, limit, k);
        }
    }
}

/// Bytes put before a stream do not change what is decoded from it, as
/// long as the start offset in the footer is still counted from the first
/// byte: the same entries come out, or the same error.
pub proof fn lemma_prefix_independence(extra: Seq<u8>, stream: Seq<u8>)
    requires
        read_footer(stream) is Ok,
        read_footer(stream)->Ok_0.start_offset + extra.len() <= u64::MAX,
    ensures
        decode(with_prefix(extra, stream)) == decode(stream),
{
    let footer = read_footer(stream)->Ok_0;
    let k = extra.len() as int;
    let start = footer.start_offset as int;
    let limit = stream.len() - FOOTER_LEN;
    let moved = Footer { start_offset: (start + k) as u64, entry_count: footer.entry_count };
    let longer = with_prefix(extra, stream);
    lemma_be64_value_of(moved.start_offset);
    lemma_be32_value_of(moved.entry_count);
    assert(longer.subrange(limit + k, limit + k + 8) =~= be64(moved.start_offset));
    assert(longer.subrange(limit + k + 8, limit + k + 12) =~= be32(moved.entry_count));
    lemma_be32_of_value(stream.subrange(limit + 8, limit + 12));
    assert(read_footer(longer) == Ok::<Footer, DecodeError>(moved));
    assert(longer.subrange(start + k, limit + k) =~= stream.subrange(start, limit));
    lemma_read_entries_moved(stream, longer, start, limit, k, footer.entry_count as nat);
}

/// A stream with fewer bytes than a footer is never read as a bundle.
pub proof fn lemma_short_stream_rejected(stream: Seq<u8>)
    requires
        stream.len() < FOOTER_LEN,
    ensures
        decode(stream) == Err::<Seq<Entry>, DecodeError>(DecodeError::MissingFooter),
{
}

/// An entry that does not lie whole before `limit` cannot be read: the
/// bytes before the limit are those that were written, but they end too
/// early.
proof fn lemma_read_entry_cut(stream: Seq<u8>, at: int, limit: int, entry: Entry)
    requires
        entry.fits(),
        0 <= at <= limit <= stream.len(),
        limit < at + entry.size(),
        stream.subrange(at, limit) == entry.bytes().subrange(0, limit - at),
    ensures
        read_entry(stream, at, limit) == Err::<(Entry, int), DecodeError>(DecodeError::Truncated),
{
    let n = entry.path_bytes().len() as int;
    let w = entry.bytes();
    let part = w.subrange(0, limit - at);
    lemma_entry_layout(entry);
    if at + 4 <= limit {
        lemma_part_of_stream(stream, at, part, 0, 4);
        assert(part.subrange(0, 4) =~= w.subrange(0, 4));
        lemma_be32_value_of(n as u32);
        if at + 4 + n <= limit {
            lemma_part_of_stream(stream, at, part, 4, 4 + n);
            assert(part.subrange(4, 4 + n) =~= w.subrange(4, 4 + n));
            encode_utf8_valid_utf8(entry.path);
            if at + 8 + n <= limit {
                lemma_part_of_stream(stream, at, part, 4 + n, 8 + n);
                assert(part.subrange(4 + n, 8 + n) =~= w.subrange(4 + n, 8 + n));
                lemma_be32_value_of(entry.data.len() as u32);
            }
        }
    }
}

/// A run of entries that does not lie whole before `limit` cannot be read:
/// the walk fails at the entry that the limit cuts.
proof fn lemma_read_entries_cut(stream: Seq<u8>, start: int, limit: int, entries: Seq<Entry>)
    requires
        all_fit(entries),
        0 <= start <= limit <= stream.len(),
        limit < start + entries_bytes(entries).len(),
        stream.subrange(start, limit) == entries_bytes(entries).subrange(0, limit - start),
    ensures
        read_entries(stream, start, limit, entries.len()) == Err::<(Seq<Entry>, int), DecodeError>(
            DecodeError::Truncated,
        ),
    decreases entries.len(),
{
    let init = entries.drop_last();
    let last = entries.last();
    let whole = entries_bytes(entries);
    let m = entries_bytes(init).len() as int;
    let kept = whole.subrange(0, limit - start);
    if limit < start + m {
        assert(kept =~= entries_bytes(init).subrange(0, limit - start));
        lemma_read_entries_cut(stream, start, limit, init);
    } else {
        lemma_entry_layout(last);
        lemma_part_of_stream(stream, start, kept, 0, m);
        assert(kept.subrange(0, m) =~= entries_bytes(init));
        lemma_read_entries_written(stream, start, limit, init);
        lemma_part_of_stream(stream, start, kept, m, limit - start);
        assert(kept.subrange(m, limit - start) =~= last.bytes().subrange(0, limit - start - m));
        lemma_read_entry_cut(stream, start + m, limit, last);
    }
}

/// A bundle whose entries were cut short is never read as a whole one:
/// whatever number of bytes is missing before the footer, decoding fails
/// because the stream ends too early.
pub proof fn lemma_cut_bundle_rejected(prefix: Seq<u8>, entries: Seq<Entry>, keep: int)
    requires
        all_fit(entries),
        prefix.len() <= u64::MAX,
        entries.len() <= u32::MAX,
        0 <= keep < entries_bytes(entries).len(),
    ensures
        decode(cut_bundle(prefix, entries, keep)) == Err::<Seq<Entry>, DecodeError>(
            DecodeError::Truncated,
        ),
{
    let footer = Footer { start_offset: prefix.len() as u64, entry_count: entries.len() as u32 };
    let stream = cut_bundle(prefix, entries, keep);
    let start = prefix.len() as int;
    let limit = start + keep;
    lemma_be64_value_of(footer.start_offset);
    lemma_be32_value_of(footer.entry_count);
    assert(stream.subrange(limit, limit + 8) =~= be64(footer.start_offset));
    assert(stream.subrange(limit + 8, limit + 12) =~= be32(footer.entry_count));
    assert(read_footer(stream) == Ok::<Footer, DecodeError>(footer));
    assert(stream.subrange(start, limit) =~= entries_bytes(entries).subrange(0, keep));
    lemma_read_entries_cut(stream, start, limit, entries);
}

/// The last entry with a given path decides what the destination holds at
/// that path.
pub proof fn lemma_last_write_wins(entries: Seq<Entry>, i: int)
    requires
        0 <= i < entries.len(),
        forall|j: int| i < j < entries.len() ==> (#[trigger] entries[j]).path != entries[i].path,
    ensures
        restored(entries).dom().contains(entries[i].path),
        restored(entries)[entries[i].path] == entries[i].data,
    decreases entries.len(),
{
    if i < entries.len() - 1 {
        let init = entries.drop_last();
        assert(entries.last() == entries[entries.len() - 1]);
        assert forall|j: int| i < j < init.len() implies (#[trigger] init[j]).path
            != init[i].path by {
            assert(init[j] == entries[j]);
        }
        lemma_last_write_wins(init, i);
    }
}

/// The destination holds a file at a path exactly if some entry has that
/// path.
pub proof fn lemma_restored_paths(entries: Seq<Entry>, path: Seq<char>)
    ensures
        restored(entries).dom().contains(path) <==> exists|i: int|
            0 <= i < entries.len() && (#[trigger] entries[i]).path == path,
    decreases entries.len(),
{
    if entries.len() > 0 {
        let init = entries.drop_last();
        lemma_restored_paths(init, path);
        if restored(entries).dom().contains(path) {
            if entries.last().path == path {
                assert(entries[entries.len() - 1].path == path);
            } else {
                let i = choose|i: int| 0 <= i < init.len() && (#[trigger] init[i]).path == path;
                assert(entries[i].path == path);
            }
        }
        if exists|i: int| 0 <= i < entries.len() && (#[trigger] entries[i]).path == path {
            let i = choose|i: int| 0 <= i < entries.len() && (#[trigger] entries[i]).path == path;
            if i < init.len() {
                assert(init[i].path == path);
            }
        }
    }
}

/// Bundling files with distinct paths and restoring the bundle to an empty
/// destination gives back every file, byte for byte, at its path, and no
/// other file.
pub proof fn lemma_round_trip(prefix: Seq<u8>, entries: Seq<Entry>)
    requires
        all_fit(entries),
        prefix.len() <= u64::MAX,
        entries.len() <= u32::MAX,
        forall|i: int, j: int|
            0 <= i < j < entries.len() ==> (#[trigger] entries[i]).path != (
            #[trigger] entries[j]).path,
    ensures
        decode(bundle_stream(prefix, entries)) == Ok::<Seq<Entry>, DecodeError>(entries),
        forall|i: int|
            0 <= i < entries.len() ==> restored(entries).dom().contains(
                (#[trigger] entries[i]).path,
            ) && restored(entries)[entries[i].path] == entries[i].data,
        forall|path: Seq<char>| #[trigger]
            restored(entries).dom().contains(path) ==> exists|i: int|
                0 <= i < entries.len() && (#[trigger] entries[i]).path == path,
{
    lemma_decode_bundle(prefix, entries);
    assert forall|i: int| 0 <= i < entries.len() implies restored(entries).dom().contains(
        (#[trigger] entries[i]).path,
    ) && restored(entries)[entries[i].path] == entries[i].data by {
        lemma_last_write_wins(entries, i);
    }
    assert forall|path: Seq<char>| #[trigger]
        restored(entries).dom().contains(path) implies exists|i: int|
        0 <= i < entries.len() && (#[trigger] entries[i]).path == path by {
        lemma_restored_paths(entries, path);
    }
}

/// Bundling two files with the same path and restoring the bundle leaves
/// the contents of the later one at that path.
pub proof fn lemma_duplicate_path_overwrites(prefix: Seq<u8>, first: Entry, second: Entry)
    requires
        first.fits(),
        second.fits(),
        first.path == second.path,
        prefix.len() <= u64::MAX,
    ensures
        decode(bundle_stream(prefix, seq![first, second])) == Ok::<Seq<Entry>, DecodeError>(
            seq![first, second],
        ),
        restored(seq![first, second])[first.path] == second.data,
{
    let entries = seq![first, second];
    lemma_decode_bundle(prefix, entries);
    lemma_last_write_wins(entries, 1);
}

} // verus!
