//! One bundled file: its path, its contents, and the bytes that carry both.

use vstd::prelude::*;
use vstd::utf8::*;
use crate::wire::{be32, put_be32};

verus! {

/// What one bundled file is: a relative path and the file's contents.
pub struct Entry {
    pub path: Seq<char>,
    pub data: Seq<u8>,
}

impl Entry {
    /// The path as it is stored: its UTF-8 bytes.
    pub open spec fn path_bytes(self) -> Seq<u8> {
        encode_utf8(self.path)
    }

    /// Both lengths fit the 32-bit fields of the format.
    pub open spec fn fits(self) -> bool {
        &&& self.path_bytes().len() <= u32::MAX
        &&& self.data.len() <= u32::MAX
    }

    /// The entry as it lies in a bundle: the length of the path, the path,
    /// the length of the contents, the contents.
    pub open spec fn bytes(self) -> Seq<u8> {
        be32(self.path_bytes().len() as u32) + self.path_bytes() + be32(self.data.len() as u32)
            + self.data
    }

    /// The number of bytes the entry takes in a bundle.
    pub open spec fn size(self) -> nat {
        8 + self.path_bytes().len() + self.data.len()
    }
}

/// The bytes of an entry are as many as its size says, and its four parts
/// lie in them one after the other.
pub proof fn lemma_entry_layout(entry: Entry)
    requires
        entry.fits(),
    ensures
        ({
            let n = entry.path_bytes().len() as int;
            let w = entry.bytes();
            &&& w.len() == entry.size()
            &&& w.subrange(0, 4) == be32(n as u32)
            &&& w.subrange(4, 4 + n) == entry.path_bytes()
            &&& w.subrange(4 + n, 8 + n) == be32(entry.data.len() as u32)
            &&& w.subrange(8 + n, entry.size() as int) == entry.data
        }),
{
    let n = entry.path_bytes().len() as int;
    let w = entry.bytes();
    assert(w.subrange(0, 4) =~= be32(n as u32));
    assert(w.subrange(4, 4 + n) =~= entry.path_bytes());
    assert(w.subrange(4 + n, 8 + n) =~= be32(entry.data.len() as u32));
    assert(w.subrange(8 + n, entry.size() as int) =~= entry.data);
}

/// Why a file cannot become an entry of a bundle.
#[derive(Clone, Copy, Debug, PartialEq, Eq, Structural)]
pub enum EncodeError {
    /// The path takes more bytes than a 32-bit length can record.
    PathTooLong,
    /// The contents take more bytes than a 32-bit length can record.
    DataTooLong,
    /// The bundle already holds as many entries as a 32-bit count can record.
    TooManyEntries,
}

/// What stands in the way of an entry with a path of `path_len` bytes and
/// contents of `data_len` bytes, if anything. The path is looked at first.
pub open spec fn length_error(path_len: nat, data_len: nat) -> Option<EncodeError> {
    if path_len > u32::MAX {
        Some(EncodeError::PathTooLong)
    } else if data_len > u32::MAX {
        Some(EncodeError::DataTooLong)
    } else {
        None
    }
}

/// Checks both lengths of a prospective entry against the 32-bit fields of
/// the format and returns them as the fields will hold them.
pub fn entry_lengths(path_len: usize, data_len: usize) -> (r: Result<(u32, u32), EncodeError>)
    ensures
        match r {
            Ok((p, d)) => length_error(path_len as nat, data_len as nat) is None && p == path_len
                && d == data_len,
            Err(e) => length_error(path_len as nat, data_len as nat) == Some(e),
        },
{
    if path_len > 0xffff_ffff {
        Err(EncodeError::PathTooLong)
    } else if data_len > 0xffff_ffff {
        Err(EncodeError::DataTooLong)
    } else {
        Ok((path_len as u32, data_len as u32))
    }
}

/// What precedes the contents of an entry: the path, and how long the
/// contents are.
#[derive(Clone, Debug, PartialEq, Eq)]
pub struct Header {
    pub path: String,
    pub data_len: u32,
}

impl Header {
    /// The path is short enough for its length field.
    pub open spec fn wf(&self) -> bool {
        encode_utf8(self.path@).len() <= u32::MAX
    }

    /// The header as it lies in a bundle.
    pub open spec fn bytes(&self) -> Seq<u8> {
        be32(encode_utf8(self.path@).len() as u32) + encode_utf8(self.path@) + be32(self.data_len)
    }

    /// A header for contents of `data_len` bytes to be restored at `path`.
    pub fn new(path: String, data_len: u32) -> (header: Header)
        requires
            encode_utf8(path@).len() <= u32::MAX,
        ensures
            header.path@ == path@,
            header.data_len == data_len,
            header.wf(),
    {
        Header { path, data_len }
    }

    /// The bytes of the header: the length of the path, the path, the length
    /// of the contents.
    pub fn to_bytes(&self) -> (output: Vec<u8>)
        requires
            self.wf(),
        ensures
            output@ == self.bytes(),
    {
        let mut output: Vec<u8> = Vec::new();
        let path = self.path.as_str().as_bytes();
        put_be32(&mut output, path.len() as u32);
        let ghost before = output@;
        output.extend_from_slice(path);
        assert(output@ =~= before + encode_utf8(self.path@));
        put_be32(&mut output, self.data_len);
        output
    }
}

/// A file on its way into a bundle or out of one.
#[derive(Clone, Debug, PartialEq, Eq)]
pub struct ScriptFile {
    pub header: Header,
    pub data: Vec<u8>,
}

impl View for ScriptFile {
    type V = Entry;

    open spec fn view(&self) -> Entry {
        Entry { path: self.header.path@, data: self.data@ }
    }
}

impl ScriptFile {
    /// The header is well formed and records the true length of the
    /// contents.
    pub open spec fn wf(&self) -> bool {
        &&& self.header.wf()
        &&& self.header.data_len == self.data@.len()
    }

    /// The file at `path` with contents `data`, unless one of the two is too
    /// long for the format.
    pub fn new(path: String, data: Vec<u8>) -> (r: Result<ScriptFile, EncodeError>)
        ensures
            match r {
                Ok(file) => {
                    &&& length_error(encode_utf8(path@).len(), data@.len()) is None
                    &&& file@ == (Entry { path: path@, data: data@ })
                    &&& file@.fits()
                    &&& file.wf()
                },
                Err(e) => length_error(encode_utf8(path@).len(), data@.len()) == Some(e),
            },
    {
        match entry_lengths(path.as_str().as_bytes().len(), data.len()) {
            Ok((_, data_len)) => Ok(ScriptFile { header: Header::new(path, data_len), data }),
            Err(e) => Err(e),
        }
    }

    /// The entry as it lies in a bundle: the header, then the contents.
    pub fn to_bytes(self) -> (output: Vec<u8>)
        requires
            self.wf(),
        ensures
            output@ == self@.bytes(),
    {
        let mut output = self.header.to_bytes();
        let mut data = self.data;
        output.append(&mut data);
        output
    }
}

/// What each of `files` is, in order.
pub open spec fn views(files: Seq<ScriptFile>) -> Seq<Entry> {
    files.map_values(|file: ScriptFile| file@)
}

} // verus!
