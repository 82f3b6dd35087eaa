//! Writing a bundle: entries are appended in one forward pass, and the
//! footer is written last.

use vstd::prelude::*;
use crate::entry::{lemma_entry_layout, length_error, views, EncodeError, Entry, ScriptFile};
use crate::format::{all_fit, bundle_stream, entries_bytes, Footer};
use crate::wire::{put_be32, put_be64};

verus! {

/// The state of a bundle that is being written: where it began and how many
/// entries it holds so far. The count belongs to the encoder alone and is
/// read once, when the footer is written.
#[derive(Clone, Copy, Debug, PartialEq, Eq, Structural)]
pub struct Encoder {
    pub start_offset: u64,
    pub entry_count: u32,
}

/// What stands in the way of one more entry with the given path and
/// contents when `entry_count` entries are already written, if anything.
pub open spec fn write_error(entry: Entry, entry_count: u32) -> Option<EncodeError> {
    match length_error(entry.path_bytes().len(), entry.data.len()) {
        Some(e) => Some(e),
        None => if entry_count == u32::MAX {
            Some(EncodeError::TooManyEntries)
        } else {
            None
        },
    }
}

impl Encoder {
    /// The encoder has written `entries` behind `prefix`, and `stream` is
    /// the result so far.
    pub open spec fn wrote(self, prefix: Seq<u8>, entries: Seq<Entry>, stream: Seq<u8>) -> bool {
        &&& self.start_offset == prefix.len()
        &&& self.entry_count == entries.len()
        &&& all_fit(entries)
        &&& stream == prefix + entries_bytes(entries)
    }

    /// The footer that `finish` will write.
    pub open spec fn footer(self) -> Footer {
        Footer { start_offset: self.start_offset, entry_count: self.entry_count }
    }

    /// Starts a bundle at the end of `stream`: the start offset is the
    /// length of the stream as it is now, and no entry is written yet.
    pub fn begin(stream: &Vec<u8>) -> (encoder: Encoder)
        ensures
            encoder.start_offset == stream@.len(),
            encoder.entry_count == 0,
            encoder.wrote(stream@, Seq::empty(), stream@),
    {
        assert(stream@ =~= stream@ + entries_bytes(Seq::empty()));
        Encoder { start_offset: stream.len() as u64, entry_count: 0 }
    }

    /// Appends the bytes of `file` to `stream` and counts the entry. Where
    /// the count is exhausted, neither the stream nor the encoder changes.
    pub fn write_file(&mut self, stream: &mut Vec<u8>, file: &ScriptFile) -> (r: Result<
        (),
        EncodeError,
    >)
        requires
            file.wf(),
        ensures
            match r {
                Ok(()) => {
                    &&& old(self).entry_count < u32::MAX
                    &&& final(stream)@ == old(stream)@ + file@.bytes()
                    &&& final(stream)@.len() == old(stream)@.len() + file@.size()
                    &&& final(self).start_offset == old(self).start_offset
                    &&& final(self).entry_count == old(self).entry_count + 1
                    &&& forall|prefix: Seq<u8>, entries: Seq<Entry>| #[trigger]
                        old(self).wrote(prefix, entries, old(stream)@) ==> final(self).wrote(
                            prefix,
                            entries.push(file@),
                            final(stream)@,
                        )
                },
                Err(e) => {
                    &&& old(self).entry_count == u32::MAX
                    &&& e == EncodeError::TooManyEntries
                    &&& final(stream)@ == old(stream)@
                    &&& *final(self) == *old(self)
                },
            },
    {
        if self.entry_count == u32::MAX {
            return Err(EncodeError::TooManyEntries);
        }
        let mut header = file.header.to_bytes();
        stream.append(&mut header);
        let ghost with_header = stream@;
        stream.extend_from_slice(file.data.as_slice());
        assert(stream@ =~= with_header + file.data@);
        self.entry_count = self.entry_count + 1;
        proof {
            assert(stream@ =~= old(stream)@ + file@.bytes());
            lemma_entry_layout(file@);
            assert forall|prefix: Seq<u8>, entries: Seq<Entry>| #[trigger]
                old(self).wrote(prefix, entries, old(stream)@) implies self.wrote(
                prefix,
                entries.push(file@),
                stream@,
            ) by {
                let more = entries.push(file@);
                assert(more.drop_last() =~= entries);
                assert(stream@ =~= prefix + entries_bytes(more));
            }
        }
        Ok(())
    }

    /// Appends the entry for `path` and `data` to `stream` and counts it.
    /// Both lengths are checked before any byte is written: where the entry
    /// cannot be written, neither the stream nor the encoder changes.
    pub fn write_entry(&mut self, stream: &mut Vec<u8>, path: String, data: Vec<u8>) -> (r: Result<
        (),
        EncodeError,
    >)
        ensures
            ({
                let entry = Entry { path: path@, data: data@ };
                match r {
                    Ok(()) => {
                        &&& write_error(entry, old(self).entry_count) is None
                        &&& final(stream)@ == old(stream)@ + entry.bytes()
                        &&& final(stream)@.len() == old(stream)@.len() + entry.size()
                        &&& final(self).start_offset == old(self).start_offset
                        &&& final(self).entry_count == old(self).entry_count + 1
                        &&& forall|prefix: Seq<u8>, entries: Seq<Entry>| #[trigger]
                            old(self).wrote(prefix, entries, old(stream)@) ==> final(self).wrote(
                                prefix,
                                entries.push(entry),
                                final(stream)@,
                            )
                    },
                    Err(e) => {
                        &&& write_error(entry, old(self).entry_count) == Some(e)
                        &&& final(stream)@ == old(stream)@
                        &&& *final(self) == *old(self)
                    },
                }
            }),
    {
        match ScriptFile::new(path, data) {
            Ok(file) => self.write_file(stream, &file),
            Err(e) => Err(e),
        }
    }

    /// Writes the footer as the last twelve bytes of `stream` and returns
    /// it: the start offset that `begin` recorded and the number of entries
    /// written since.
    pub fn finish(self, stream: &mut Vec<u8>) -> (footer: Footer)
        ensures
            footer == self.footer(),
            final(stream)@ == old(stream)@ + footer.bytes(),
            forall|prefix: Seq<u8>, entries: Seq<Entry>| #[trigger]
                self.wrote(prefix, entries, old(stream)@) ==> final(stream)@ == bundle_stream(
                    prefix,
                    entries,
                ),
    {
        put_be64(stream, self.start_offset);
        put_be32(stream, self.entry_count);
        let footer = Footer { start_offset: self.start_offset, entry_count: self.entry_count };
        assert(stream@ =~= old(stream)@ + footer.bytes());
        footer
    }
}

/// Bundles `files` at the end of `stream`: the entries in order, then the
/// footer. The footer records the length that the stream had before and the
/// number of files. More files than a 32-bit count can record are refused
/// before any byte is written.
pub fn bundle(stream: &mut Vec<u8>, files: &Vec<ScriptFile>) -> (r: Result<Footer, EncodeError>)
    requires
        forall|i: int| 0 <= i < files@.len() ==> (#[trigger] files@[i]).wf(),
    ensures
        match r {
            Ok(footer) => {
                &&& files@.len() <= u32::MAX
                &&& footer.start_offset == old(stream)@.len()
                &&& footer.entry_count == files@.len()
                &&& final(stream)@ == bundle_stream(old(stream)@, views(files@))
            },
            Err(e) => {
                &&& files@.len() > u32::MAX
                &&& e == EncodeError::TooManyEntries
                &&& final(stream)@ == old(stream)@
            },
        },
{
    if files.len() > 0xffff_ffff {
        return Err(EncodeError::TooManyEntries);
    }
    let mut encoder = Encoder::begin(stream);
    let mut i: usize = 0;
    while i < files.len()
        invariant
            i <= files@.len() <= u32::MAX,
            forall|k: int| 0 <= k < files@.len() ==> (#[trigger] files@[k]).wf(),
            encoder.wrote(old(stream)@, views(files@).take(i as int), stream@),
        decreases files@.len() - i,
    {
        match encoder.write_file(stream, &files[i]) {
            Ok(()) => {},
            Err(e) => {
                return Err(e);
            },
        }
        proof {
            assert(views(files@).take(i + 1) =~= views(files@).take(i as int).push(files@[i as int]@));
        }
        i = i + 1;
    }
    proof {
        assert(views(files@).take(i as int) =~= views(files@));
    }
    Ok(encoder.finish(stream))
}

} // verus!
