//! The streaming archive writer: a state machine that hands the caller the
//! exact byte chunks of a USTAR archive, in order.
//!
//! The packer never touches a sink itself.  Each operation returns the bytes
//! to push next: `add_dir` a directory header, `add_file_stream` a file
//! header (after which the caller streams exactly the declared number of
//! body bytes), `end_file` the zero padding that closes the file's last
//! 512-byte block, and `finish` the two all-zero terminator blocks.  A ghost
//! record of the entries written so far models the archive produced.
use vstd::prelude::*;
use vstd::arithmetic::div_mod::{
    lemma_add_mod_noop, lemma_fundamental_div_mod, lemma_mod_multiples_basic, lemma_small_mod,
};
use crate::TarError;
use crate::bytes::zeros_vec;
use crate::bytes::zeros;
use crate::header::{
    EntryType, TarAddOpts, HeaderBlock, spec_dir_header, spec_file_header, cksum_ok,
    lemma_dir_header_fields, lemma_file_header_fields,
};

verus! {

/// The zero fill that rounds a body of `n` bytes up to the next 512-byte
/// block boundary; zero when `n` is already block aligned.
pub open spec fn pad_len(n: nat) -> nat {
    ((512int - (n % 512)) % 512) as nat
}

/// Law: padding is always less than one block, and body plus padding is
/// always a whole number of 512-byte blocks.
pub proof fn lemma_pad_aligns(n: nat)
    ensures
        pad_len(n) < 512,
        (n + pad_len(n)) % 512 == 0,
{
    let r = n % 512;
    if r == 0 {
        assert(pad_len(n) == 0);
    } else {
        lemma_small_mod((512 - r) as nat, 512);
        assert(pad_len(n) == 512 - r);
        lemma_fundamental_div_mod(n as int, 512);
        let q = n as int / 512;
        assert(n + pad_len(n) == 512 * (q + 1));
        lemma_mod_multiples_basic(q + 1, 512);
    }
}

/// Computes `pad_len` in executable code.
pub fn padding_len(size: u32) -> (r: usize)
    ensures
        r as nat == pad_len(size as nat),
{
    let rem: u32 = size % 512;
    let r: u32 = (512 - rem) % 512;
    r as usize
}

/// One archive entry as the ghost model records it: the 512 header bytes
/// and the declared body size (0 for directories).
pub ghost struct EntryRecord {
    pub header: Seq<u8>,
    pub size: nat,
}

/// The bytes an entry occupies in the archive: one header block, the body,
/// and the body's padding.
pub open spec fn entry_len(e: EntryRecord) -> nat {
    512 + e.size + pad_len(e.size)
}

/// The bytes a sequence of entries occupies in the archive.
pub open spec fn stream_len(s: Seq<EntryRecord>) -> nat
    decreases s.len(),
{
    if s.len() == 0 {
        0
    } else {
        stream_len(s.drop_last()) + entry_len(s.last())
    }
}

/// Law: any sequence of complete entries occupies a whole number of
/// 512-byte blocks.
pub proof fn lemma_stream_len_aligned(s: Seq<EntryRecord>)
    ensures
        stream_len(s) % 512 == 0,
    decreases s.len(),
{
    if s.len() > 0 {
        lemma_stream_len_aligned(s.drop_last());
        let e = s.last();
        lemma_pad_aligns(e.size);
        lemma_add_mod_noop((e.size + pad_len(e.size)) as int, 512, 512);
        assert(entry_len(e) % 512 == 0);
        lemma_add_mod_noop(stream_len(s.drop_last()) as int, entry_len(e) as int, 512);
    }
}

/// The bytes one entry contributes to the archive: its header block, its
/// body, and the body's zero padding, in that order.
pub open spec fn entry_stream(e: EntryRecord, body: Seq<u8>) -> Seq<u8>
    recommends
        body.len() == e.size,
{
    e.header + body + zeros(pad_len(e.size))
}

/// The bytes a sequence of entries contributes: each entry's header, body
/// and padding, in request order, with nothing interleaved.
pub open spec fn stream_bytes(entries: Seq<EntryRecord>, bodies: Seq<Seq<u8>>) -> Seq<u8>
    recommends
        entries.len() == bodies.len(),
    decreases entries.len(),
{
    if entries.len() == 0 {
        Seq::empty()
    } else {
        stream_bytes(entries.drop_last(), bodies.drop_last()) + entry_stream(
            entries.last(),
            bodies.last(),
        )
    }
}

/// Law: when every body has its declared size, the archive's byte layout
/// occupies exactly the modeled length — each entry in request order as
/// header, body, padding, with nothing interleaved.
pub proof fn lemma_stream_bytes_len(entries: Seq<EntryRecord>, bodies: Seq<Seq<u8>>)
    requires
        entries.len() == bodies.len(),
        forall|i: int| 0 <= i < entries.len() ==> #[trigger] entries[i].header.len() == 512,
        forall|i: int| 0 <= i < entries.len() ==> #[trigger] bodies[i].len() == entries[i].size,
    ensures
        stream_bytes(entries, bodies).len() == stream_len(entries),
    decreases entries.len(),
{
    if entries.len() > 0 {
        lemma_stream_bytes_len(entries.drop_last(), bodies.drop_last());
    }
}

/// Law: a zero-size file entry contributes no body and no padding bytes —
/// its stream is exactly its 512-byte header, so an archive of one such
/// entry is that header followed immediately by the 1024-byte terminator.
pub proof fn lemma_zero_size_entry_stream(e: EntryRecord, body: Seq<u8>)
    requires
        e.size == 0,
        body.len() == 0,
    ensures
        entry_stream(e, body) == e.header,
{
    assert(pad_len(0) == 0);
    assert(entry_stream(e, body) =~= e.header);
}

/// Builds one archive incrementally, handing the caller each chunk of
/// archive bytes to push into the byte sink, in order.  The caller streams
/// each file body itself between the header from `add_file_stream` and the
/// padding from `end_file`; the declared size is trusted, as the format
/// offers no way to correct a header once emitted.
pub struct StreamingTarPacker {
    pending_padding: Option<usize>,
    entries: Ghost<Seq<EntryRecord>>,
    pending: Ghost<Option<EntryRecord>>,
}

impl StreamingTarPacker {
    /// The entries written in full so far, oldest first.
    pub closed spec fn done_entries(&self) -> Seq<EntryRecord> {
        self.entries@
    }

    /// The file entry whose header is out but whose padding is not.
    pub closed spec fn in_progress(&self) -> Option<EntryRecord> {
        self.pending@
    }

    pub closed spec fn wf(&self) -> bool {
        match (self.pending_padding, self.pending@) {
            (Option::None, Option::None) => true,
            (Option::Some(p), Option::Some(e)) => e.header.len() == 512 && p as nat == pad_len(
                e.size,
            ),
            _ => false,
        }
    }

    /// The archive bytes emitted so far under the model: every chunk this
    /// packer handed out plus the declared body bytes of each file entry.
    pub open spec fn emitted_len(&self) -> nat {
        stream_len(self.done_entries()) + match self.in_progress() {
            Some(e) => 512 + e.size,
            None => 0,
        }
    }

    /// A fresh packer with nothing emitted.
    pub fn new() -> (p: StreamingTarPacker)
        ensures
            p.wf(),
            p.done_entries() == Seq::<EntryRecord>::empty(),
            p.in_progress() is None,
    {
        StreamingTarPacker {
            pending_padding: None,
            entries: Ghost(Seq::empty()),
            pending: Ghost(None),
        }
    }

    /// Whether a file entry is waiting for its `end_file` padding.
    pub fn entry_in_progress(&self) -> (b: bool)
        requires
            self.wf(),
        ensures
            b == (self.in_progress() is Some),
    {
        self.pending_padding.is_some()
    }

    /// Adds a directory entry, returning its 512 header bytes — the only
    /// bytes a directory occupies; its size field holds an explicit zero.
    /// Fails, changing nothing, exactly when the path exceeds the 100-byte
    /// name field.
    pub fn add_dir(&mut self, path: &[u8], opts: &TarAddOpts, now_secs: u32) -> (r: Result<
        Vec<u8>,
        TarError,
    >)
        requires
            old(self).wf(),
            old(self).in_progress() is None,
            opts.wf(),
        ensures
            final(self).wf(),
            match r {
                Ok(h) => {
                    &&& path@.len() <= 100
                    &&& h@ == spec_dir_header(path@, *opts, now_secs)
                    &&& h@.len() == 512
                    &&& cksum_ok(h@)
                    &&& final(self).in_progress() is None
                    &&& final(self).done_entries() == old(self).done_entries().push(
                        EntryRecord { header: h@, size: 0 },
                    )
                },
                Err(e) => {
                    &&& e == TarError::PathTooLong
                    &&& path@.len() > 100
                    &&& *final(self) == *old(self)
                },
            },
    {
        let mut hb = HeaderBlock::new_ustar();
        match hb.set_path(path) {
            Ok(()) => {},
            Err(e) => {
                return Err(e);
            },
        }
        hb.set_size(0);
        opts.extend_header(EntryType::Directory, &mut hb, now_secs);
        let out = hb.into_bytes();
        proof {
            lemma_dir_header_fields(path@, *opts, now_secs);
            self.entries@ = self.entries@.push(EntryRecord { header: out@, size: 0 });
        }
        Ok(out)
    }

    /// Starts a file entry of declared body size `size`, returning its 512
    /// header bytes.  The caller must next push exactly `size` body bytes
    /// into the sink and then call `end_file` for the closing padding.
    /// Fails, changing nothing, exactly when the path exceeds the 100-byte
    /// name field.
    pub fn add_file_stream(
        &mut self,
        path: &[u8],
        opts: &TarAddOpts,
        size: u32,
        now_secs: u32,
    ) -> (r: Result<Vec<u8>, TarError>)
        requires
            old(self).wf(),
            old(self).in_progress() is None,
            opts.wf(),
        ensures
            final(self).wf(),
            match r {
                Ok(h) => {
                    &&& path@.len() <= 100
                    &&& h@ == spec_file_header(path@, *opts, size, now_secs)
                    &&& h@.len() == 512
                    &&& cksum_ok(h@)
                    &&& final(self).done_entries() == old(self).done_entries()
                    &&& final(self).in_progress() == Some(
                        EntryRecord { header: h@, size: size as nat },
                    )
                },
                Err(e) => {
                    &&& e == TarError::PathTooLong
                    &&& path@.len() > 100
                    &&& *final(self) == *old(self)
                },
            },
    {
        let mut hb = HeaderBlock::new_ustar();
        match hb.set_path(path) {
            Ok(()) => {},
            Err(e) => {
                return Err(e);
            },
        }
        hb.set_size(size);
        opts.extend_header(EntryType::Regular, &mut hb, now_secs);
        let out = hb.into_bytes();
        let pad = padding_len(size);
        self.pending_padding = Some(pad);
        proof {
            lemma_file_header_fields(path@, *opts, size, now_secs);
            self.pending@ = Some(EntryRecord { header: out@, size: size as nat });
        }
        Ok(out)
    }

    /// Closes the file entry in progress, returning the zero padding that
    /// rounds its body up to a whole 512-byte block — empty when the
    /// declared size is already block aligned.
    pub fn end_file(&mut self) -> (pad: Vec<u8>)
        requires
            old(self).wf(),
            old(self).in_progress() is Some,
        ensures
            final(self).wf(),
            final(self).in_progress() is None,
            old(self).in_progress() matches Some(e) ==> pad@ == zeros(pad_len(e.size))
                && final(self).done_entries() == old(self).done_entries().push(e),
    {
        let p = self.pending_padding.unwrap();
        let out = zeros_vec(p);
        self.pending_padding = None;
        proof {
            match self.pending@ {
                Some(e) => {
                    self.entries@ = self.entries@.push(e);
                },
                None => {},
            }
            self.pending@ = None;
        }
        out
    }

    /// Terminates the archive: consumes the packer and returns the two
    /// all-zero 512-byte end-of-archive blocks.  With them pushed, the
    /// modeled archive length is a whole number of 512-byte blocks.
    pub fn finish(self) -> (t: Vec<u8>)
        requires
            self.wf(),
            self.in_progress() is None,
        ensures
            t@ == zeros(1024),
            t@.len() == 1024,
            self.emitted_len() % 512 == 0,
            (self.emitted_len() + 1024) % 512 == 0,
    {
        proof {
            lemma_archive_block_aligned(&self);
        }
        zeros_vec(1024)
    }
}

/// Law: whenever no file entry is mid-stream, the archive bytes emitted so
/// far are a whole number of 512-byte blocks, and they remain one after
/// the 1024-byte terminator.
pub proof fn lemma_archive_block_aligned(p: &StreamingTarPacker)
    requires
        p.wf(),
        p.in_progress() is None,
    ensures
        p.emitted_len() % 512 == 0,
        (p.emitted_len() + 1024) % 512 == 0,
{
    lemma_stream_len_aligned(p.done_entries());
    lemma_add_mod_noop(p.emitted_len() as int, 1024, 512);
}

} // verus!
