//! USTAR header blocks: the 512-byte per-entry record, its field layout,
//! metadata defaults, and the format's checksum.
//!
//! Field offsets (all fields ASCII, numeric fields zero-padded octal ending
//! in a NUL byte): name 0..100, mode 100..108, uid 108..116, gid 116..124,
//! size 124..136, mtime 136..148, checksum 148..156, type flag 156, magic
//! `ustar\0` 257..263, version `00` 263..265; everything else is zero.
use vstd::prelude::*;
use crate::TarError;
use crate::bytes::{
    zeros, spaces, splice, sum_bytes, pow8, octal_digits, octal_field, octal_value, zeros_vec,
    write_octal, lemma_splice_len, lemma_splice_at, lemma_splice_keeps, lemma_splice_index,
    lemma_sum_bytes_bound, lemma_sum_bytes_step, lemma_octal_digits_index,
    lemma_octal_digits_zero, lemma_octal_roundtrip, lemma_octal_field_len, lemma_pow8_pos,
};

verus! {

/// The kind of archive entry a header describes.
#[derive(Clone, Copy, Debug, PartialEq, Eq)]
pub enum EntryType {
    /// A regular file, whose body follows the header.
    Regular,
    /// A directory; no body follows.
    Directory,
}

/// The USTAR type-flag byte for an entry kind: ASCII `0` for a regular
/// file, ASCII `5` for a directory.
pub open spec fn type_flag(t: EntryType) -> u8 {
    match t {
        EntryType::Regular => 0x30,
        EntryType::Directory => 0x35,
    }
}

/// Optional per-entry metadata supplied by the caller; absent fields get
/// format-mandated defaults when the header is built.
#[derive(Clone, Copy, Debug, PartialEq, Eq)]
pub struct TarAddOpts {
    /// File mode bits; defaults to 0o644 for files and 0o755 for directories.
    pub mode: Option<u32>,
    /// Modification time in whole seconds since the epoch; defaults to the
    /// injected current time.
    pub mtime: Option<u32>,
    /// Owning user id; when absent the field is left unset (all zero bytes).
    pub uid: Option<u32>,
    /// Owning group id; when absent the field is left unset (all zero bytes).
    pub gid: Option<u32>,
}

impl TarAddOpts {
    /// Supplied uid/gid values must fit the 8-byte octal USTAR fields
    /// (7 octal digits); larger values would need a non-USTAR extension.
    pub open spec fn wf(&self) -> bool {
        &&& match self.uid {
            Some(u) => u < 0x200000,
            None => true,
        }
        &&& match self.gid {
            Some(g) => g < 0x200000,
            None => true,
        }
    }
}

/// Metadata after defaults are applied: concrete mode and mtime, uid/gid
/// kept optional because an absent id leaves its header field unset.
#[derive(Clone, Copy, Debug, PartialEq, Eq)]
pub struct ResolvedMetadata {
    pub mode: u32,
    pub mtime: u32,
    pub uid: Option<u32>,
    pub gid: Option<u32>,
}

/// What metadata resolution returns: supplied values win; an absent mtime
/// becomes `now`; an absent mode becomes 0o644 (file) or 0o755 (directory);
/// absent uid/gid stay absent.
pub open spec fn spec_resolve(opts: TarAddOpts, ty: EntryType, now: u32) -> ResolvedMetadata {
    ResolvedMetadata {
        mode: match opts.mode {
            Some(m) => m,
            None => match ty {
                EntryType::Regular => 0o644,
                EntryType::Directory => 0o755,
            },
        },
        mtime: match opts.mtime {
            Some(t) => t,
            None => now,
        },
        uid: opts.uid,
        gid: opts.gid,
    }
}

/// Applies the format-mandated defaults to optional metadata.  The current
/// time is injected by the caller (`now_secs`) so the result is a pure
/// function of its arguments.
pub fn resolve_metadata(opts: &TarAddOpts, ty: EntryType, now_secs: u32) -> (r: ResolvedMetadata)
    ensures
        r == spec_resolve(*opts, ty, now_secs),
{
    ResolvedMetadata {
        mode: match opts.mode {
            Some(m) => m,
            None => match ty {
                EntryType::Regular => 0o644,
                EntryType::Directory => 0o755,
            },
        },
        mtime: match opts.mtime {
            Some(t) => t,
            None => now_secs,
        },
        uid: opts.uid,
        gid: opts.gid,
    }
}

/// Law: metadata resolution is a pure function of its inputs, and only the
/// mtime default consults the clock — with an explicit mtime the result
/// does not depend on the clock at all.
pub proof fn lemma_resolve_clock_independent(opts: TarAddOpts, ty: EntryType, n1: u32, n2: u32)
    requires
        opts.mtime is Some,
    ensures
        spec_resolve(opts, ty, n1) == spec_resolve(opts, ty, n2),
{
}

/// One byte of the blank USTAR header: zero everywhere except the magic,
/// the version, and an mtime field holding octal zero.
pub open spec fn template_byte(i: int) -> u8 {
    if 136 <= i < 147 {
        0x30  // mtime: eleven octal zero digits (NUL terminator at 147)
    } else if i == 257 {
        0x75  // 'u'
    } else if i == 258 {
        0x73  // 's'
    } else if i == 259 {
        0x74  // 't'
    } else if i == 260 {
        0x61  // 'a'
    } else if i == 261 {
        0x72  // 'r'
    } else if i == 263 || i == 264 {
        0x30  // version "00"
    } else {
        0
    }
}

/// The blank USTAR header block that every entry starts from.
pub open spec fn ustar_template() -> Seq<u8> {
    Seq::new(512, |i: int| template_byte(i))
}

/// The 100-byte name field: the path bytes followed by zero fill.
pub open spec fn name_field(p: Seq<u8>) -> Seq<u8>
    recommends
        p.len() <= 100,
{
    p + zeros((100 - p.len()) as nat)
}

/// The header bytes whose sum the checksum covers: the block with the
/// 8-byte checksum field read as ASCII spaces.
pub open spec fn cksum_input(h: Seq<u8>) -> Seq<u8> {
    splice(h, 148, spaces(8))
}

/// The checksum of a header block: the sum of its 512 bytes with the
/// checksum field itself counted as spaces.
pub open spec fn spec_cksum(h: Seq<u8>) -> nat {
    sum_bytes(cksum_input(h))
}

/// A header block carries a valid checksum: its checksum field holds the
/// octal encoding of the block's own checksum.
pub open spec fn cksum_ok(h: Seq<u8>) -> bool {
    &&& h.len() == 512
    &&& h.subrange(148, 156) == octal_field(spec_cksum(h), 7)
}

/// Rewriting the checksum field does not change what the checksum covers.
pub proof fn lemma_cksum_input_stable(h: Seq<u8>, r: Seq<u8>)
    requires
        h.len() == 512,
        r.len() == 8,
    ensures
        cksum_input(splice(h, 148, r)) == cksum_input(h),
{
    lemma_splice_len(h, 148, r);
    assert(cksum_input(splice(h, 148, r)) =~= cksum_input(h));
}

/// Useful concrete powers of eight: the capacity of a 7-digit and of an
/// 11-digit octal field.
pub proof fn lemma_pow8_values()
    ensures
        pow8(7) == 0x200000,
        pow8(11) == 0x200000000,
{
    reveal_with_fuel(pow8, 12);
}

/// A 512-byte USTAR header block under construction.
pub struct HeaderBlock {
    bytes: Vec<u8>,
}

impl View for HeaderBlock {
    type V = Seq<u8>;

    closed spec fn view(&self) -> Seq<u8> {
        self.bytes@
    }
}

impl HeaderBlock {
    pub open spec fn wf(&self) -> bool {
        self@.len() == 512
    }

    /// A blank USTAR header: all zero except magic, version, and an mtime
    /// field of octal zero.
    pub fn new_ustar() -> (h: HeaderBlock)
        ensures
            h.wf(),
            h@ == ustar_template(),
    {
        let mut bytes = zeros_vec(512);
        proof {
            lemma_pow8_pos(11);
            lemma_octal_field_len(0, 11);
        }
        write_octal(&mut bytes, 136, 11, 0);
        bytes.set(257, 0x75);
        bytes.set(258, 0x73);
        bytes.set(259, 0x74);
        bytes.set(260, 0x61);
        bytes.set(261, 0x72);
        bytes.set(263, 0x30);
        bytes.set(264, 0x30);
        proof {
            lemma_octal_digits_zero(11);
            assert(bytes@ =~= ustar_template());
        }
        HeaderBlock { bytes }
    }

    /// Writes the entry path into the 100-byte name field, zero filled.
    /// Fails, leaving the block unchanged, when the path is longer than
    /// the field.
    pub fn set_path(&mut self, path: &[u8]) -> (r: Result<(), TarError>)
        requires
            old(self).wf(),
        ensures
            final(self).wf(),
            path@.len() <= 100 ==> r is Ok && final(self)@ == splice(
                old(self)@,
                0,
                name_field(path@),
            ),
            path@.len() > 100 ==> r == Result::<(), TarError>::Err(TarError::PathTooLong)
                && final(self)@ == old(self)@,
    {
        if path.len() > 100 {
            return Err(TarError::PathTooLong);
        }
        let n = path.len();
        let mut i: usize = 0;
        while i < 100
            invariant
                i <= 100,
                n == path@.len() <= 100,
                self.bytes@.len() == 512,
                forall|j: int| 0 <= j < i ==> self.bytes@[j] == name_field(path@)[j],
                forall|j: int| i <= j < 512 ==> self.bytes@[j] == old(self)@[j],
            decreases 100 - i,
        {
            if i < n {
                self.bytes.set(i, path[i]);
            } else {
                self.bytes.set(i, 0);
            }
            i = i + 1;
        }
        proof {
            assert(self.bytes@ =~= splice(old(self)@, 0, name_field(path@)));
        }
        Ok(())
    }

    /// Writes the size field (11 octal digits and a NUL).
    pub fn set_size(&mut self, size: u32)
        requires
            old(self).wf(),
        ensures
            final(self).wf(),
            final(self)@ == splice(old(self)@, 124, octal_field(size as nat, 11)),
    {
        proof {
            lemma_pow8_values();
            lemma_octal_field_len(size as nat, 11);
        }
        write_octal(&mut self.bytes, 124, 11, size as u64);
    }

    /// Writes the mtime field (11 octal digits and a NUL).
    pub fn set_mtime(&mut self, mtime: u32)
        requires
            old(self).wf(),
        ensures
            final(self).wf(),
            final(self)@ == splice(old(self)@, 136, octal_field(mtime as nat, 11)),
    {
        proof {
            lemma_pow8_values();
            lemma_octal_field_len(mtime as nat, 11);
        }
        write_octal(&mut self.bytes, 136, 11, mtime as u64);
    }

    /// Writes the uid field (7 octal digits and a NUL).
    pub fn set_uid(&mut self, uid: u32)
        requires
            old(self).wf(),
            uid < 0x200000,
        ensures
            final(self).wf(),
            final(self)@ == splice(old(self)@, 108, octal_field(uid as nat, 7)),
    {
        proof {
            lemma_pow8_values();
            lemma_octal_field_len(uid as nat, 7);
        }
        write_octal(&mut self.bytes, 108, 7, uid as u64);
    }

    /// Writes the gid field (7 octal digits and a NUL).
    pub fn set_gid(&mut self, gid: u32)
        requires
            old(self).wf(),
            gid < 0x200000,
        ensures
            final(self).wf(),
            final(self)@ == splice(old(self)@, 116, octal_field(gid as nat, 7)),
    {
        proof {
            lemma_pow8_values();
            lemma_octal_field_len(gid as nat, 7);
        }
        write_octal(&mut self.bytes, 116, 7, gid as u64);
    }

    /// Writes the mode field (7 octal digits and a NUL); only the lowest
    /// 21 mode bits fit the field, higher bits are dropped.
    pub fn set_mode(&mut self, mode: u32)
        requires
            old(self).wf(),
        ensures
            final(self).wf(),
            final(self)@ == splice(old(self)@, 100, octal_field((mode % 0x200000) as nat, 7)),
    {
        proof {
            lemma_pow8_values();
            lemma_octal_field_len((mode % 0x200000) as nat, 7);
        }
        let low: u32 = mode % 0x200000;
        write_octal(&mut self.bytes, 100, 7, low as u64);
    }

    /// Writes the type-flag byte.
    pub fn set_entry_type(&mut self, ty: EntryType)
        requires
            old(self).wf(),
        ensures
            final(self).wf(),
            final(self)@ == splice(old(self)@, 156, seq![type_flag(ty)]),
    {
        let flag: u8 = match ty {
            EntryType::Regular => 0x30,
            EntryType::Directory => 0x35,
        };
        self.bytes.set(156, flag);
        proof {
            assert(self.bytes@ =~= splice(old(self)@, 156, seq![type_flag(ty)]));
        }
    }

    /// Computes the checksum over the current block contents (checksum
    /// field counted as spaces) and writes it into the checksum field,
    /// leaving the block with a valid checksum.
    pub fn set_cksum(&mut self)
        requires
            old(self).wf(),
        ensures
            final(self).wf(),
            final(self)@ == splice(old(self)@, 148, octal_field(spec_cksum(old(self)@), 7)),
            cksum_ok(final(self)@),
    {
        proof {
            lemma_splice_len(old(self)@, 148, spaces(8));
        }
        let ghost input = cksum_input(old(self)@);
        let mut acc: u32 = 0;
        let mut i: usize = 0;
        while i < 512
            invariant
                i <= 512,
                self.bytes@ == old(self)@,
                self.bytes@.len() == 512,
                input == cksum_input(old(self)@),
                input.len() == 512,
                acc as nat == sum_bytes(input.take(i as int)),
            decreases 512 - i,
        {
            let b: u8 = if 148 <= i && i < 156 {
                0x20
            } else {
                self.bytes[i]
            };
            proof {
                assert(input[i as int] == b);
                lemma_sum_bytes_step(input, i as int);
                lemma_sum_bytes_bound(input.take(i as int));
            }
            acc = acc + b as u32;
            i = i + 1;
        }
        proof {
            assert(input.take(512) =~= input);
            lemma_pow8_values();
            lemma_sum_bytes_bound(input);
        }
        write_octal(&mut self.bytes, 148, 7, acc as u64);
        proof {
            let field = octal_field(spec_cksum(old(self)@), 7);
            lemma_octal_digits_index(spec_cksum(old(self)@), 7);
            lemma_cksum_input_stable(old(self)@, field);
            lemma_splice_at(old(self)@, 148, field);
            lemma_splice_len(old(self)@, 148, field);
        }
    }

    /// The finished 512 bytes of the header.
    pub fn as_bytes(&self) -> (r: &Vec<u8>)
        ensures
            r@ == self@,
    {
        &self.bytes
    }

    /// Consumes the block, yielding its 512 bytes.
    pub fn into_bytes(self) -> (r: Vec<u8>)
        ensures
            r@ == self@,
    {
        self.bytes
    }
}

/// The header bytes after optional metadata, entry type, and checksum are
/// applied to a block: mtime, uid/gid where supplied, the type flag, the
/// mode, and finally the checksum of the result.
pub open spec fn spec_extend(h: Seq<u8>, opts: TarAddOpts, ty: EntryType, now: u32) -> Seq<u8> {
    let m = spec_resolve(opts, ty, now);
    let h1 = splice(h, 136, octal_field(m.mtime as nat, 11));
    let h2 = match m.uid {
        Some(u) => splice(h1, 108, octal_field(u as nat, 7)),
        None => h1,
    };
    let h3 = match m.gid {
        Some(g) => splice(h2, 116, octal_field(g as nat, 7)),
        None => h2,
    };
    let h4 = splice(h3, 156, seq![type_flag(ty)]);
    let h5 = splice(h4, 100, octal_field((m.mode % 0x200000) as nat, 7));
    splice(h5, 148, octal_field(spec_cksum(h5), 7))
}

impl TarAddOpts {
    /// Applies resolved metadata to a header block in the format's order —
    /// mtime, uid/gid when supplied, type flag, mode — and seals the block
    /// with its checksum.
    pub fn extend_header(&self, entry_type: EntryType, header: &mut HeaderBlock, now_secs: u32)
        requires
            old(header).wf(),
            self.wf(),
        ensures
            final(header).wf(),
            final(header)@ == spec_extend(old(header)@, *self, entry_type, now_secs),
            cksum_ok(final(header)@),
    {
        let m = resolve_metadata(self, entry_type, now_secs);
        header.set_mtime(m.mtime);
        if let Some(u) = m.uid {
            header.set_uid(u);
        }
        if let Some(g) = m.gid {
            header.set_gid(g);
        }
        header.set_entry_type(entry_type);
        header.set_mode(m.mode);
        header.set_cksum();
    }
}

/// The complete header block for a directory entry: the blank USTAR block
/// with the name and an explicit zero size written, then metadata and
/// checksum applied.
pub open spec fn spec_dir_header(path: Seq<u8>, opts: TarAddOpts, now: u32) -> Seq<u8> {
    spec_extend(
        splice(
            splice(ustar_template(), 0, name_field(path)),
            124,
            octal_field(0, 11),
        ),
        opts,
        EntryType::Directory,
        now,
    )
}

/// The complete header block for a regular-file entry of declared size
/// `size`: name and size written, then metadata and checksum applied.
pub open spec fn spec_file_header(path: Seq<u8>, opts: TarAddOpts, size: u32, now: u32) -> Seq<u8> {
    spec_extend(
        splice(
            splice(ustar_template(), 0, name_field(path)),
            124,
            octal_field(size as nat, 11),
        ),
        opts,
        EntryType::Regular,
        now,
    )
}

/// How `spec_extend` relates to the block it starts from: it has the same
/// length, carries a valid checksum, holds the resolved mode, mtime and
/// type flag, and leaves the name and size fields of the base block alone.
pub proof fn lemma_extend_fields(h: Seq<u8>, opts: TarAddOpts, ty: EntryType, now: u32)
    requires
        h.len() == 512,
    ensures
        ({
            let r = spec_extend(h, opts, ty, now);
            let m = spec_resolve(opts, ty, now);
            &&& r.len() == 512
            &&& cksum_ok(r)
            &&& r.subrange(0, 100) == h.subrange(0, 100)
            &&& r.subrange(124, 136) == h.subrange(124, 136)
            &&& r[156] == type_flag(ty)
            &&& r.subrange(100, 108) == octal_field((m.mode % 0x200000) as nat, 7)
            &&& r.subrange(136, 148) == octal_field(m.mtime as nat, 11)
        }),
{
    let m = spec_resolve(opts, ty, now);
    let f_mtime = octal_field(m.mtime as nat, 11);
    let f_mode = octal_field((m.mode % 0x200000) as nat, 7);
    lemma_octal_digits_index(m.mtime as nat, 11);
    lemma_octal_digits_index((m.mode % 0x200000) as nat, 7);
    let h1 = splice(h, 136, f_mtime);
    lemma_splice_len(h, 136, f_mtime);
    lemma_splice_keeps(h, 136, f_mtime, 0, 100);
    lemma_splice_keeps(h, 136, f_mtime, 124, 136);
    lemma_splice_at(h, 136, f_mtime);
    let h2 = match m.uid {
        Some(u) => splice(h1, 108, octal_field(u as nat, 7)),
        None => h1,
    };
    if let Some(u) = m.uid {
        let f = octal_field(u as nat, 7);
        lemma_octal_digits_index(u as nat, 7);
        lemma_splice_len(h1, 108, f);
        lemma_splice_keeps(h1, 108, f, 0, 100);
        lemma_splice_keeps(h1, 108, f, 124, 136);
        lemma_splice_keeps(h1, 108, f, 136, 148);
    }
    let h3 = match m.gid {
        Some(g) => splice(h2, 116, octal_field(g as nat, 7)),
        None => h2,
    };
    if let Some(g) = m.gid {
        let f = octal_field(g as nat, 7);
        lemma_octal_digits_index(g as nat, 7);
        lemma_splice_len(h2, 116, f);
        lemma_splice_keeps(h2, 116, f, 0, 100);
        lemma_splice_keeps(h2, 116, f, 124, 136);
        lemma_splice_keeps(h2, 116, f, 136, 148);
    }
    let h4 = splice(h3, 156, seq![type_flag(ty)]);
    lemma_splice_len(h3, 156, seq![type_flag(ty)]);
    lemma_splice_keeps(h3, 156, seq![type_flag(ty)], 0, 100);
    lemma_splice_keeps(h3, 156, seq![type_flag(ty)], 124, 136);
    lemma_splice_keeps(h3, 156, seq![type_flag(ty)], 136, 148);
    lemma_splice_at(h3, 156, seq![type_flag(ty)]);
    let h5 = splice(h4, 100, f_mode);
    lemma_splice_len(h4, 100, f_mode);
    lemma_splice_keeps(h4, 100, f_mode, 0, 100);
    lemma_splice_keeps(h4, 100, f_mode, 124, 136);
    lemma_splice_keeps(h4, 100, f_mode, 136, 148);
    lemma_splice_index(h4, 100, f_mode, 156);
    lemma_splice_at(h4, 100, f_mode);
    let f_ck = octal_field(spec_cksum(h5), 7);
    let r = splice(h5, 148, f_ck);
    lemma_octal_digits_index(spec_cksum(h5), 7);
    lemma_splice_len(h5, 148, f_ck);
    lemma_splice_keeps(h5, 148, f_ck, 0, 100);
    lemma_splice_keeps(h5, 148, f_ck, 124, 136);
    lemma_splice_keeps(h5, 148, f_ck, 136, 148);
    lemma_splice_index(h5, 148, f_ck, 156);
    lemma_splice_keeps(h5, 148, f_ck, 100, 108);
    lemma_splice_at(h5, 148, f_ck);
    lemma_cksum_input_stable(h5, f_ck);
    assert(r.subrange(100, 108) == h5.subrange(100, 108));
    assert(h5.subrange(100, 108) == f_mode);
    assert(r[156] == h5[156]);
}

/// Law: every directory header the library builds has the directory type
/// flag, a size field holding octal zero, the resolved mode, and a
/// checksum that matches its own bytes.
pub proof fn lemma_dir_header_fields(path: Seq<u8>, opts: TarAddOpts, now: u32)
    requires
        path.len() <= 100,
    ensures
        ({
            let h = spec_dir_header(path, opts, now);
            let m = spec_resolve(opts, EntryType::Directory, now);
            &&& h.len() == 512
            &&& cksum_ok(h)
            &&& h.subrange(0, 100) == name_field(path)
            &&& h.subrange(124, 136) == octal_field(0, 11)
            &&& h[156] == 0x35u8
            &&& h.subrange(100, 108) == octal_field((m.mode % 0x200000) as nat, 7)
            &&& h.subrange(136, 148) == octal_field(m.mtime as nat, 11)
        }),
{
    let named = splice(ustar_template(), 0, name_field(path));
    lemma_splice_len(ustar_template(), 0, name_field(path));
    lemma_splice_at(ustar_template(), 0, name_field(path));
    let f_size = octal_field(0, 11);
    lemma_octal_digits_index(0, 11);
    let base = splice(named, 124, f_size);
    lemma_splice_len(named, 124, f_size);
    lemma_splice_keeps(named, 124, f_size, 0, 100);
    lemma_splice_at(named, 124, f_size);
    lemma_extend_fields(base, opts, EntryType::Directory, now);
}

/// Law: every file header the library builds has the regular-file type
/// flag, a size field holding exactly the declared size in octal, the
/// resolved mode, and a checksum that matches its own bytes.
pub proof fn lemma_file_header_fields(path: Seq<u8>, opts: TarAddOpts, size: u32, now: u32)
    requires
        path.len() <= 100,
    ensures
        ({
            let h = spec_file_header(path, opts, size, now);
            let m = spec_resolve(opts, EntryType::Regular, now);
            &&& h.len() == 512
            &&& cksum_ok(h)
            &&& h.subrange(0, 100) == name_field(path)
            &&& h.subrange(124, 136) == octal_field(size as nat, 11)
            &&& h[156] == 0x30u8
            &&& h.subrange(100, 108) == octal_field((m.mode % 0x200000) as nat, 7)
            &&& h.subrange(136, 148) == octal_field(m.mtime as nat, 11)
        }),
{
    let named = splice(ustar_template(), 0, name_field(path));
    lemma_splice_len(ustar_template(), 0, name_field(path));
    lemma_splice_at(ustar_template(), 0, name_field(path));
    let f_size = octal_field(size as nat, 11);
    lemma_octal_digits_index(size as nat, 11);
    let base = splice(named, 124, f_size);
    lemma_splice_len(named, 124, f_size);
    lemma_splice_keeps(named, 124, f_size, 0, 100);
    lemma_splice_at(named, 124, f_size);
    lemma_extend_fields(base, opts, EntryType::Regular, now);
}

/// Law: in any header block with a valid checksum, the stored checksum
/// digits decode to exactly the sum of the block's bytes recomputed with
/// the checksum field counted as spaces.
pub proof fn lemma_cksum_roundtrip(h: Seq<u8>)
    requires
        cksum_ok(h),
    ensures
        octal_value(h.subrange(148, 155)) == spec_cksum(h),
{
    lemma_splice_len(h, 148, spaces(8));
    lemma_sum_bytes_bound(cksum_input(h));
    lemma_pow8_values();
    lemma_octal_digits_index(spec_cksum(h), 7);
    assert(h.subrange(148, 155) =~= octal_digits(spec_cksum(h), 7)) by {
        assert(h.subrange(148, 156) == octal_field(spec_cksum(h), 7));
        assert(forall|i: int|
            0 <= i < 7 ==> h.subrange(148, 155)[i] == h.subrange(148, 156)[i]);
    }
    lemma_octal_roundtrip(spec_cksum(h), 7);
}

/// Law: the size field of a file header decodes back to the declared
/// size — the octal encoding loses nothing.
pub proof fn lemma_file_size_roundtrip(path: Seq<u8>, opts: TarAddOpts, size: u32, now: u32)
    requires
        path.len() <= 100,
    ensures
        octal_value(spec_file_header(path, opts, size, now).subrange(124, 135)) == size,
{
    let h = spec_file_header(path, opts, size, now);
    lemma_file_header_fields(path, opts, size, now);
    lemma_octal_digits_index(size as nat, 11);
    assert(h.subrange(124, 135) =~= octal_digits(size as nat, 11)) by {
        assert(h.subrange(124, 136) == octal_field(size as nat, 11));
        assert(forall|i: int|
            0 <= i < 11 ==> h.subrange(124, 135)[i] == h.subrange(124, 136)[i]);
    }
    lemma_pow8_values();
    lemma_octal_roundtrip(size as nat, 11);
}

} // verus!
