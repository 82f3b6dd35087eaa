//! The layout of a bundle inside its carrier stream.
//!
//! ```text
//! [prefix: any bytes]
//! entry 0: path length (u32, big-endian) | path (UTF-8) | data length (u32, big-endian) | data
//! ...
//! footer:  start offset (u64, big-endian) | entry count (u32, big-endian)
//! ```
//!
//! The footer is always the last twelve bytes of the stream. The start
//! offset is counted from the first byte of the stream, so the prefix may
//! have any length and any contents.

use vstd::prelude::*;
use vstd::utf8::*;
use crate::entry::Entry;
use crate::wire::{be32, be32_value, be64, be64_value};

verus! {

/// The number of bytes of a footer.
pub const FOOTER_LEN: usize = 12;

/// The trailer of a bundle: where its first entry begins, counted from the
/// start of the carrier stream, and how many entries it holds.
#[derive(Clone, Copy, Debug, PartialEq, Eq, Structural)]
pub struct Footer {
    pub start_offset: u64,
    pub entry_count: u32,
}

impl Footer {
    /// The footer as it lies at the end of a stream.
    pub open spec fn bytes(self) -> Seq<u8> {
        be64(self.start_offset) + be32(self.entry_count)
    }
}

/// Why a stream cannot be read as a bundle. All four are faults of the
/// stream's contents, not of the device that holds it.
#[derive(Clone, Copy, Debug, PartialEq, Eq, Structural)]
pub enum DecodeError {
    /// The stream is shorter than a footer.
    MissingFooter,
    /// The footer names a start offset beyond its own first byte, where no
    /// entry can begin.
    StartOutOfRange,
    /// A length or the bytes it announces reach past the last byte before
    /// the footer.
    Truncated,
    /// The bytes of a path are not UTF-8.
    PathNotUtf8,
}

/// The bytes of `entries`, one entry after the other.
pub open spec fn entries_bytes(entries: Seq<Entry>) -> Seq<u8>
    decreases entries.len(),
{
    if entries.len() == 0 {
        Seq::empty()
    } else {
        entries_bytes(entries.drop_last()) + entries.last().bytes()
    }
}

/// The number of bytes that `entries` take in a bundle: the sum of their
/// sizes.
pub open spec fn entries_size(entries: Seq<Entry>) -> nat
    decreases entries.len(),
{
    if entries.len() == 0 {
        0
    } else {
        entries_size(entries.drop_last()) + entries.last().size()
    }
}

/// Every entry fits the length fields of the format.
pub open spec fn all_fit(entries: Seq<Entry>) -> bool {
    forall|i: int| 0 <= i < entries.len() ==> (#[trigger] entries[i]).fits()
}

/// The stream that results when `entries` are bundled behind `prefix`:
/// the prefix untouched, the entries, and a footer that records the length
/// of the prefix and the number of entries.
pub open spec fn bundle_stream(prefix: Seq<u8>, entries: Seq<Entry>) -> Seq<u8> {
    prefix + entries_bytes(entries) + (Footer {
        start_offset: prefix.len() as u64,
        entry_count: entries.len() as u32,
    }).bytes()
}

/// The footer that the last twelve bytes of `stream` spell, if the stream
/// is long enough and the start offset lies at or before the footer.
pub open spec fn read_footer(stream: Seq<u8>) -> Result<Footer, DecodeError> {
    if stream.len() < FOOTER_LEN {
        Err(DecodeError::MissingFooter)
    } else {
        let at = stream.len() - FOOTER_LEN;
        let start = be64_value(stream.subrange(at, at + 8));
        let count = be32_value(stream.subrange(at + 8, at + 12));
        if start > at {
            Err(DecodeError::StartOutOfRange)
        } else {
            Ok(Footer { start_offset: start as u64, entry_count: count as u32 })
        }
    }
}

/// The entry whose first byte is `stream[at]`, and the offset of the byte
/// behind it. Nothing at or behind `limit` belongs to an entry.
pub open spec fn read_entry(stream: Seq<u8>, at: int, limit: int) -> Result<
    (Entry, int),
    DecodeError,
> {
    if at + 4 > limit {
        Err(DecodeError::Truncated)
    } else {
        let path_len = be32_value(stream.subrange(at, at + 4));
        let path_end = at + 4 + path_len;
        if path_end > limit {
            Err(DecodeError::Truncated)
        } else if !valid_utf8(stream.subrange(at + 4, path_end)) {
            Err(DecodeError::PathNotUtf8)
        } else if path_end + 4 > limit {
            Err(DecodeError::Truncated)
        } else {
            let data_len = be32_value(stream.subrange(path_end, path_end + 4));
            let data_end = path_end + 4 + data_len;
            if data_end > limit {
                Err(DecodeError::Truncated)
            } else {
                Ok(
                    (
                        Entry {
                            path: decode_utf8(stream.subrange(at + 4, path_end)),
                            data: stream.subrange(path_end + 4, data_end),
                        },
                        data_end,
                    ),
                )
            }
        }
    }
}

/// The first `count` entries from `stream[start]` on, each beginning at the
/// byte behind its predecessor, and the offset of the byte behind the last
/// of them. The first entry that cannot be read decides the error.
pub open spec fn read_entries(stream: Seq<u8>, start: int, limit: int, count: nat) -> Result<
    (Seq<Entry>, int),
    DecodeError,
>
    decreases count,
{
    if count == 0 {
        Ok((Seq::empty(), start))
    } else {
        match read_entries(stream, start, limit, (count - 1) as nat) {
            Err(e) => Err(e),
            Ok((entries, at)) => match read_entry(stream, at, limit) {
                Err(e) => Err(e),
                Ok((entry, next)) => Ok((entries.push(entry), next)),
            },
        }
    }
}

/// Once an entry cannot be read, no longer walk succeeds: the error of the
/// first `k` entries is the error of the first `count`.
pub proof fn lemma_read_entries_error(stream: Seq<u8>, start: int, limit: int, k: nat, count: nat)
    requires
        k <= count,
        read_entries(stream, start, limit, k) is Err,
    ensures
        read_entries(stream, start, limit, count) == read_entries(stream, start, limit, k),
    decreases count,
{
    if count > k {
        lemma_read_entries_error(stream, start, limit, k, (count - 1) as nat);
    }
}

/// The entries of the bundle at the tail of `stream`, in the order in which
/// they were written.
pub open spec fn decode(stream: Seq<u8>) -> Result<Seq<Entry>, DecodeError> {
    match read_footer(stream) {
        Err(e) => Err(e),
        Ok(footer) => match read_entries(
            stream,
            footer.start_offset as int,
            stream.len() - FOOTER_LEN,
            footer.entry_count as nat,
        ) {
            Err(e) => Err(e),
            Ok((entries, _)) => Ok(entries),
        },
    }
}

/// What a destination that was empty holds once `entries` have been
/// restored to it in order: for each path the contents of the last entry
/// with that path, since a later file overwrites an earlier one.
pub open spec fn restored(entries: Seq<Entry>) -> Map<Seq<char>, Seq<u8>>
    decreases entries.len(),
{
    if entries.len() == 0 {
        Map::empty()
    } else {
        restored(entries.drop_last()).insert(entries.last().path, entries.last().data)
    }
}

/// The stream that results when `extra` is put before `stream` and the
/// start offset in the footer is raised by the length of `extra`, so that
/// it is still counted from the first byte.
pub open spec fn with_prefix(extra: Seq<u8>, stream: Seq<u8>) -> Seq<u8>
    recommends
        read_footer(stream) is Ok,
{
    let footer = read_footer(stream)->Ok_0;
    extra + stream.subrange(0, stream.len() - FOOTER_LEN) + (Footer {
        start_offset: (footer.start_offset + extra.len()) as u64,
        entry_count: footer.entry_count,
    }).bytes()
}

/// The stream that results when a bundle loses the tail of its entries:
/// only the first `keep` bytes of the entries are left between the prefix
/// and the footer.
pub open spec fn cut_bundle(prefix: Seq<u8>, entries: Seq<Entry>, keep: int) -> Seq<u8>
    recommends
        0 <= keep <= entries_bytes(entries).len(),
{
    prefix + entries_bytes(entries).subrange(0, keep) + (Footer {
        start_offset: prefix.len() as u64,
        entry_count: entries.len() as u32,
    }).bytes()
}

} // verus!
