//! Reading a bundle back: the footer is found at a fixed distance from the
//! end of the stream, and the entries are walked forward from the offset
//! that it records.

use vstd::prelude::*;
use vstd::utf8::*;
use crate::entry::{views, Entry, Header, ScriptFile};
use crate::format::{
    decode, lemma_read_entries_error, read_entries, read_entry, read_footer, DecodeError, Footer,
    FOOTER_LEN,
};
use crate::wire::{get_be32, get_be64, lemma_be32_of_value};

verus! {

/// `FromUtf8Error` of std: what `String::from_utf8` says against bytes
/// that are not UTF-8.
#[verifier::external_type_specification]
#[verifier::external_body]
pub struct ExFromUtf8Error(std::string::FromUtf8Error);

/// `String::from_utf8` of std: the string that `bytes` spell, if they are
/// UTF-8, and an error if they are not.
#[verifier::external_body]
fn string_from_utf8(bytes: Vec<u8>) -> (r: Result<String, std::string::FromUtf8Error>)
    ensures
        r is Ok <==> valid_utf8(bytes@),
        r matches Ok(s) ==> s@ == decode_utf8(bytes@),
{
    String::from_utf8(bytes)
}

/// A buffer of `len` zero bytes.
pub fn new_buf(len: u32) -> (out: Vec<u8>)
    ensures
        out@ == Seq::new(len as nat, |i: int| 0u8),
{
    let mut out: Vec<u8> = Vec::with_capacity(len as usize);
    let mut i: u32 = 0;
    while i < len
        invariant
            i <= len,
            out@ == Seq::new(i as nat, |k: int| 0u8),
        decreases len - i,
    {
        out.push(0u8);
        i = i + 1;
        assert(out@ =~= Seq::new(i as nat, |k: int| 0u8));
    }
    out
}

/// Reads exactly `len` bytes of `stream` from `at` on into a buffer of that
/// size, or nothing where fewer than `len` bytes lie before `limit`.
pub fn read_exact(stream: &[u8], at: usize, limit: usize, len: u32) -> (r: Option<Vec<u8>>)
    requires
        at <= limit <= stream@.len(),
    ensures
        r is Some <==> at + len <= limit,
        r matches Some(buf) ==> buf@ == stream@.subrange(at as int, at + len),
{
    if len as usize > limit - at {
        return None;
    }
    let mut buf = new_buf(len);
    let mut i: usize = 0;
    while i < len as usize
        invariant
            i <= len,
            at + len <= limit <= stream@.len(),
            buf@.len() == len,
            forall|k: int| 0 <= k < i ==> buf@[k] == stream@[at + k],
        decreases len - i,
    {
        buf.set(i, stream[at + i]);
        i = i + 1;
    }
    assert(buf@ =~= stream@.subrange(at as int, at + len));
    Some(buf)
}

/// Reads the footer from the last twelve bytes of `stream`.
pub fn open_bundle(stream: &[u8]) -> (r: Result<Footer, DecodeError>)
    ensures
        r == read_footer(stream@),
{
    let len = stream.len();
    if len < FOOTER_LEN {
        return Err(DecodeError::MissingFooter);
    }
    let at = len - FOOTER_LEN;
    let start_offset = get_be64(stream, at);
    let entry_count = get_be32(stream, at + 8);
    proof {
        lemma_be32_of_value(stream@.subrange(at + 8, at + 12));
    }
    if start_offset > at as u64 {
        Err(DecodeError::StartOutOfRange)
    } else {
        Ok(Footer { start_offset, entry_count })
    }
}

/// Reads the entry whose first byte is `stream[at]` and returns it with the
/// offset of the byte behind it. Nothing at or behind `limit` is read.
pub fn read_file(stream: &[u8], at: usize, limit: usize) -> (r: Result<
    (ScriptFile, usize),
    DecodeError,
>)
    requires
        at <= limit <= stream@.len(),
    ensures
        match r {
            Ok((file, next)) => read_entry(stream@, at as int, limit as int) == Ok::<
                (Entry, int),
                DecodeError,
            >((file@, next as int)) && file.wf() && file@.fits() && at + 8 <= next <= limit,
            Err(e) => read_entry(stream@, at as int, limit as int) == Err::<
                (Entry, int),
                DecodeError,
            >(e),
        },
{
    if limit - at < 4 {
        return Err(DecodeError::Truncated);
    }
    let path_len = get_be32(stream, at);
    let path_bytes = match read_exact(stream, at + 4, limit, path_len) {
        Some(bytes) => bytes,
        None => {
            return Err(DecodeError::Truncated);
        },
    };
    let path_end = at + 4 + path_len as usize;
    let path = match string_from_utf8(path_bytes) {
        Ok(path) => path,
        Err(_) => {
            return Err(DecodeError::PathNotUtf8);
        },
    };
    if limit - path_end < 4 {
        return Err(DecodeError::Truncated);
    }
    let data_len = get_be32(stream, path_end);
    let data = match read_exact(stream, path_end + 4, limit, data_len) {
        Some(bytes) => bytes,
        None => {
            return Err(DecodeError::Truncated);
        },
    };
    proof {
        decode_utf8_encode_utf8(stream@.subrange(at + 4, path_end as int));
    }
    let file = ScriptFile { header: Header::new(path, data_len), data };
    Ok((file, path_end + 4 + data_len as usize))
}

/// What a decoder knows: the stream it walks, the footer of that stream,
/// how many entries it has read, and where the last of them ended.
pub struct Walk {
    pub stream: Seq<u8>,
    pub footer: Footer,
    pub position: int,
    pub entries_read: nat,
}

impl Walk {
    /// Where the footer begins: nothing at or behind it belongs to an entry.
    pub open spec fn limit(self) -> int {
        self.stream.len() - FOOTER_LEN
    }

    /// The footer is the one of the stream, and the entries read so far
    /// end where the decoder stands.
    pub open spec fn wf(self) -> bool {
        &&& read_footer(self.stream) == Ok::<Footer, DecodeError>(self.footer)
        &&& self.entries_read <= self.footer.entry_count
        &&& self.position <= self.limit()
        &&& read_entries(
            self.stream,
            self.footer.start_offset as int,
            self.limit(),
            self.entries_read,
        ) matches Ok((_, at)) && at == self.position
    }

    /// The entries read so far.
    pub open spec fn entries(self) -> Seq<Entry> {
        read_entries(
            self.stream,
            self.footer.start_offset as int,
            self.limit(),
            self.entries_read,
        )->Ok_0.0
    }

    /// Every entry that the footer counts has been read.
    pub open spec fn done(self) -> bool {
        self.entries_read == self.footer.entry_count
    }
}

/// A walk over the entries of a bundle. Once the footer is read, the
/// decoder reads one entry after the other, each from the byte behind its
/// predecessor, until it has read as many as the footer counts or one
/// cannot be read.
#[derive(Clone, Copy, Debug, PartialEq, Eq)]
pub struct Decoder<'a> {
    stream: &'a [u8],
    footer: Footer,
    position: usize,
    entries_read: u32,
}

impl<'a> View for Decoder<'a> {
    type V = Walk;

    closed spec fn view(&self) -> Walk {
        Walk {
            stream: self.stream@,
            footer: self.footer,
            position: self.position as int,
            entries_read: self.entries_read as nat,
        }
    }
}

impl<'a> Decoder<'a> {
    #[verifier::type_invariant]
    spec fn well_formed(self) -> bool {
        self@.wf()
    }

    /// Reads the footer of `stream` and stands at the start offset that it
    /// records, before the first entry.
    pub fn open(stream: &'a [u8]) -> (r: Result<Decoder<'a>, DecodeError>)
        ensures
            match r {
                Ok(decoder) => {
                    &&& decoder@.stream == stream@
                    &&& read_footer(stream@) == Ok::<Footer, DecodeError>(decoder@.footer)
                    &&& decoder@.position == decoder@.footer.start_offset
                    &&& decoder@.entries_read == 0
                    &&& decoder@.wf()
                },
                Err(e) => read_footer(stream@) == Err::<Footer, DecodeError>(e),
            },
    {
        match open_bundle(stream) {
            Ok(footer) => {
                assert(footer.start_offset <= stream.len());
                Ok(
                    Decoder {
                        stream,
                        footer,
                        position: footer.start_offset as usize,
                        entries_read: 0,
                    },
                )
            },
            Err(e) => Err(e),
        }
    }

    /// The footer of the stream.
    pub fn footer(&self) -> (r: Footer)
        ensures
            r == self@.footer,
            self@.wf(),
    {
        proof {
            use_type_invariant(self);
        }
        self.footer
    }

    /// The offset of the byte behind the last entry read, or the start
    /// offset where none is read yet.
    pub fn position(&self) -> (r: usize)
        ensures
            r == self@.position,
            self@.wf(),
    {
        proof {
            use_type_invariant(self);
        }
        self.position
    }

    /// The number of entries read so far.
    pub fn entries_read(&self) -> (r: u32)
        ensures
            r == self@.entries_read,
            self@.wf(),
    {
        proof {
            use_type_invariant(self);
        }
        self.entries_read
    }

    /// Tells whether the walk is over and ended exactly where the footer
    /// begins, as it does on every bundle that an encoder wrote: a check
    /// that a caller may make once the last entry is read.
    pub fn ends_at_footer(&self) -> (r: bool)
        ensures
            r == (self@.done() && self@.position == self@.limit()),
            self@.wf(),
    {
        proof {
            use_type_invariant(self);
        }
        self.entries_read == self.footer.entry_count && self.position == self.stream.len()
            - FOOTER_LEN
    }

    /// Reads the next entry, or nothing once every entry has been read.
    /// Where the entry cannot be read the decoder stays where it is, and no
    /// later entry can be read either.
    pub fn next_entry(&mut self) -> (r: Result<Option<ScriptFile>, DecodeError>)
        ensures
            old(self)@.wf(),
            final(self)@.wf(),
            final(self)@.stream == old(self)@.stream,
            final(self)@.footer == old(self)@.footer,
            match r {
                Ok(None) => old(self)@.done() && final(self)@ == old(self)@,
                Ok(Some(file)) => {
                    &&& !old(self)@.done()
                    &&& read_entry(
                        old(self)@.stream,
                        old(self)@.position,
                        old(self)@.limit(),
                    ) == Ok::<(Entry, int), DecodeError>((file@, final(self)@.position))
                    &&& final(self)@.entries_read == old(self)@.entries_read + 1
                    &&& final(self)@.entries() == old(self)@.entries().push(file@)
                    &&& file.wf()
                },
                Err(e) => {
                    &&& !old(self)@.done()
                    &&& read_entry(
                        old(self)@.stream,
                        old(self)@.position,
                        old(self)@.limit(),
                    ) == Err::<(Entry, int), DecodeError>(e)
                    &&& decode(old(self)@.stream) == Err::<Seq<Entry>, DecodeError>(e)
                    &&& final(self)@ == old(self)@
                },
            },
    {
        proof {
            use_type_invariant(&*self);
        }
        if self.entries_read == self.footer.entry_count {
            return Ok(None);
        }
        let stream = self.stream;
        let limit = stream.len() - FOOTER_LEN;
        match read_file(stream, self.position, limit) {
            Ok((file, next)) => {
                *self = Decoder {
                    stream,
                    footer: self.footer,
                    position: next,
                    entries_read: self.entries_read + 1,
                };
                Ok(Some(file))
            },
            Err(e) => {
                proof {
                    lemma_read_entries_error(
                        stream@,
                        self.footer.start_offset as int,
                        limit as int,
                        (self.entries_read + 1) as nat,
                        self.footer.entry_count as nat,
                    );
                }
                Err(e)
            },
        }
    }
}

/// Reads every entry of the bundle at the tail of `stream`, in the order in
/// which they were written. The first entry that cannot be read fails the
/// whole bundle.
pub fn extract_all(stream: &[u8]) -> (r: Result<Vec<ScriptFile>, DecodeError>)
    ensures
        match r {
            Ok(files) => {
                &&& decode(stream@) == Ok::<Seq<Entry>, DecodeError>(views(files@))
                &&& forall|i: int| 0 <= i < files@.len() ==> (#[trigger] files@[i]).wf()
            },
            Err(e) => decode(stream@) == Err::<Seq<Entry>, DecodeError>(e),
        },
{
    let mut decoder = match Decoder::open(stream) {
        Ok(decoder) => decoder,
        Err(e) => {
            return Err(e);
        },
    };
    let mut files: Vec<ScriptFile> = Vec::new();
    loop
        invariant
            decoder@.wf(),
            decoder@.stream == stream@,
            views(files@) == decoder@.entries(),
            forall|i: int| 0 <= i < files@.len() ==> (#[trigger] files@[i]).wf(),
        decreases decoder@.footer.entry_count - decoder@.entries_read,
    {
        match decoder.next_entry() {
            Ok(Some(file)) => {
                proof {
                    assert(views(files@.push(file)) =~= views(files@).push(file@));
                }
                files.push(file);
            },
            Ok(None) => {
                return Ok(files);
            },
            Err(e) => {
                return Err(e);
            },
        }
    }
}

} // verus!
