//! A minimal ZIP writer: stored entries, UTF-8 names, CRC-32 checksums.
use vstd::prelude::*;

verus! {

// ---- numbers as bytes -------------------------------------------------------

/// The two little-endian bytes of `x`.
pub open spec fn le16(x: u16) -> Seq<u8> {
    seq![(x % 256) as u8, (x / 256) as u8]
}

/// The four little-endian bytes of `x`.
pub open spec fn le32(x: u32) -> Seq<u8> {
    seq![
        (x % 256) as u8,
        (x / 256 % 256) as u8,
        (x / 65536 % 256) as u8,
        (x / 16777216) as u8,
    ]
}

/// The number that two little-endian bytes at position `i` stand for.
pub open spec fn read16(b: Seq<u8>, i: int) -> int {
    b[i] + 256 * b[i + 1]
}

/// The number that four little-endian bytes at position `i` stand for.
pub open spec fn read32(b: Seq<u8>, i: int) -> int {
    b[i] + 256 * b[i + 1] + 65536 * b[i + 2] + 16777216 * b[i + 3]
}

/// Appends the two little-endian bytes of `x`.
fn push16(out: &mut Vec<u8>, x: u16)
    ensures
        final(out)@ == old(out)@ + le16(x),
{
    out.push((x % 256) as u8);
    out.push((x / 256) as u8);
    assert(out@ =~= old(out)@ + le16(x));
}

/// Appends the four little-endian bytes of `x`.
fn push32(out: &mut Vec<u8>, x: u32)
    ensures
        final(out)@ == old(out)@ + le32(x),
{
    out.push((x % 256) as u8);
    out.push((x / 256 % 256) as u8);
    out.push((x / 65536 % 256) as u8);
    out.push((x / 16777216) as u8);
    assert(out@ =~= old(out)@ + le32(x));
}

/// Appends `part` to `out`.
pub fn push_bytes(out: &mut Vec<u8>, part: &[u8])
    ensures
        final(out)@ == old(out)@ + part@,
{
    let mut i: usize = 0;
    while i < part.len()
        invariant
            i <= part@.len(),
            out@ == old(out)@ + part@.take(i as int),
        decreases part@.len() - i,
    {
        out.push(part[i]);
        assert(part@.take(i + 1) =~= part@.take(i as int).push(part@[i as int]));
        i = i + 1;
    }
    assert(part@.take(part@.len() as int) =~= part@);
}

// ---- CRC-32 -----------------------------------------------------------------

/// One division step of the reflected CRC-32 polynomial.
pub open spec fn crc_bit(crc: u32) -> u32 {
    if crc & 1 == 1 {
        (crc >> 1) ^ 0xEDB8_8320
    } else {
        crc >> 1
    }
}

/// `n` division steps.
pub open spec fn crc_bits(crc: u32, n: nat) -> u32
    decreases n,
{
    if n == 0 {
        crc
    } else {
        crc_bit(crc_bits(crc, (n - 1) as nat))
    }
}

/// The CRC register after `data`.
pub open spec fn crc_register(data: Seq<u8>) -> u32
    decreases data.len(),
{
    if data.len() == 0 {
        0xFFFF_FFFF
    } else {
        crc_bits(crc_register(data.drop_last()) ^ (data.last() as u32), 8)
    }
}

/// The CRC-32 checksum of `data`.
pub open spec fn crc32_of(data: Seq<u8>) -> u32 {
    !crc_register(data)
}

/// The CRC-32 checksum of `data`.
pub fn crc32(data: &[u8]) -> (r: u32)
    ensures
        r == crc32_of(data@),
{
    let mut crc: u32 = 0xFFFF_FFFF;
    let mut i: usize = 0;
    while i < data.len()
        invariant
            i <= data@.len(),
            crc == crc_register(data@.take(i as int)),
        decreases data@.len() - i,
    {
        crc = crc ^ (data[i] as u32);
        let ghost start = crc;
        let mut k: u8 = 0;
        while k < 8
            invariant
                k <= 8,
                crc == crc_bits(start, k as nat),
            decreases 8 - k,
        {
            crc = if crc & 1 == 1 {
                (crc >> 1) ^ 0xEDB8_8320
            } else {
                crc >> 1
            };
            k = k + 1;
        }
        assert(data@.take(i + 1).drop_last() =~= data@.take(i as int));
        i = i + 1;
    }
    assert(data@.take(data@.len() as int) =~= data@);
    !crc
}

// ---- entries ----------------------------------------------------------------

/// One file of an archive: its name in UTF-8 and its bytes.
pub struct Entry {
    pub name: Seq<u8>,
    pub data: Seq<u8>,
}

/// The file with the given name and bytes.
pub open spec fn file_entry(name: Seq<char>, data: Seq<u8>) -> Entry {
    Entry { name: vstd::utf8::encode_utf8(name), data }
}

/// Signature of a local file header.
pub const LOCAL_SIGNATURE: u32 = 0x04034b50;

/// Signature of a central directory record.
pub const CENTRAL_SIGNATURE: u32 = 0x02014b50;

/// Signature of the end-of-central-directory record.
pub const END_SIGNATURE: u32 = 0x06054b50;

/// Version 2.0 of the format.
pub const ZIP_VERSION: u16 = 20;

/// Flag: the name is UTF-8.
pub const UTF8_FLAG: u16 = 0x800;

/// The first day that the format can express, 1980-01-01.
pub const FIRST_DAY: u16 = 0x21;

/// What local header and central record share: flags, method (stored), time,
/// date, checksum, both sizes, name length and an empty extra field.
#[verifier::opaque]
pub open spec fn entry_fields(e: Entry) -> Seq<u8> {
    le16(UTF8_FLAG) + le16(0) + le16(0) + le16(FIRST_DAY) + le32(crc32_of(e.data)) + le32(
        e.data.len() as u32,
    ) + le32(e.data.len() as u32) + le16(e.name.len() as u16) + le16(0)
}

/// The local part of an entry: header, name and data.
#[verifier::opaque]
pub open spec fn local_part(e: Entry) -> Seq<u8> {
    le32(LOCAL_SIGNATURE) + le16(ZIP_VERSION) + entry_fields(e) + e.name + e.data
}

/// The central directory record of an entry whose local part is at `offset`.
#[verifier::opaque]
pub open spec fn central_record(e: Entry, offset: u32) -> Seq<u8> {
    le32(CENTRAL_SIGNATURE) + le16(ZIP_VERSION) + le16(ZIP_VERSION) + entry_fields(e) + le16(0)
        + le16(0) + le16(0) + le32(0) + le32(offset) + e.name
}

/// The local parts of all entries.
pub open spec fn local_parts(es: Seq<Entry>) -> Seq<u8>
    decreases es.len(),
{
    if es.len() == 0 {
        Seq::empty()
    } else {
        local_parts(es.drop_last()) + local_part(es.last())
    }
}

/// The central directory of all entries.
pub open spec fn central_directory(es: Seq<Entry>) -> Seq<u8>
    decreases es.len(),
{
    if es.len() == 0 {
        Seq::empty()
    } else {
        central_directory(es.drop_last()) + central_record(
            es.last(),
            local_parts(es.drop_last()).len() as u32,
        )
    }
}

/// The record that ends an archive of `count` entries whose central directory
/// of `size` bytes begins at `offset`.
#[verifier::opaque]
pub open spec fn end_record(count: u16, size: u32, offset: u32) -> Seq<u8> {
    le32(END_SIGNATURE) + le16(0) + le16(0) + le16(count) + le16(count) + le32(size) + le32(offset)
        + le16(0)
}

/// The archive that holds the given entries, in order.
pub open spec fn archive_of(es: Seq<Entry>) -> Seq<u8> {
    local_parts(es) + central_directory(es) + end_record(
        es.len() as u16,
        central_directory(es).len() as u32,
        local_parts(es).len() as u32,
    )
}

/// Writes an archive entry by entry.
pub struct ZipWriter {
    out: Vec<u8>,
    central: Vec<u8>,
    count: u16,
    entries: Ghost<Seq<Entry>>,
}

impl View for ZipWriter {
    type V = Seq<Entry>;

    closed spec fn view(&self) -> Seq<Entry> {
        self.entries@
    }
}

impl ZipWriter {
    /// What is written so far belongs to the entries added so far.
    pub closed spec fn wf(&self) -> bool {
        &&& self.out@ == local_parts(self@)
        &&& self.central@ == central_directory(self@)
        &&& self.count == self@.len()
    }

    /// A writer with no entry.
    pub fn new() -> (w: ZipWriter)
        ensures
            w.wf(),
            w@ == Seq::<Entry>::empty(),
    {
        ZipWriter { out: Vec::new(), central: Vec::new(), count: 0, entries: Ghost(Seq::empty()) }
    }

    /// Adds the file `name` with the bytes `data`.
    pub fn add(&mut self, name: &str, data: &[u8])
        requires
            old(self).wf(),
            old(self)@.len() < 0xFFFF,
        ensures
            final(self).wf(),
            final(self)@ == old(self)@.push(file_entry(name@, data@)),
    {
        let crc = crc32(data);
        let offset = self.out.len() as u32;
        let ghost text = name@;
        let name = name.as_bytes();
        let ghost e = file_entry(text, data@);
        let mut fields: Vec<u8> = Vec::new();
        push16(&mut fields, UTF8_FLAG);
        push16(&mut fields, 0);
        push16(&mut fields, 0);
        push16(&mut fields, FIRST_DAY);
        push32(&mut fields, crc);
        push32(&mut fields, data.len() as u32);
        push32(&mut fields, data.len() as u32);
        push16(&mut fields, name.len() as u16);
        push16(&mut fields, 0);
        assert(fields@ =~= entry_fields(e)) by {
            reveal(entry_fields);
        }

        push32(&mut self.out, LOCAL_SIGNATURE);
        push16(&mut self.out, ZIP_VERSION);
        push_bytes(&mut self.out, &fields);
        push_bytes(&mut self.out, name);
        push_bytes(&mut self.out, data);
        assert(self.out@ =~= local_parts(old(self)@) + local_part(e)) by {
            reveal(local_part);
        }

        push32(&mut self.central, CENTRAL_SIGNATURE);
        push16(&mut self.central, ZIP_VERSION);
        push16(&mut self.central, ZIP_VERSION);
        push_bytes(&mut self.central, &fields);
        push16(&mut self.central, 0);
        push16(&mut self.central, 0);
        push16(&mut self.central, 0);
        push32(&mut self.central, 0);
        push32(&mut self.central, offset);
        push_bytes(&mut self.central, name);
        assert(self.central@ =~= central_directory(old(self)@) + central_record(e, offset)) by {
            reveal(central_record);
        }

        self.count = self.count + 1;
        self.entries = Ghost(self.entries@.push(e));
        assert(self@.drop_last() =~= old(self)@);
    }

    /// The finished archive.
    pub fn finish(self) -> (out: Vec<u8>)
        requires
            self.wf(),
        ensures
            out@ == archive_of(self@),
    {
        let cd_offset = self.out.len() as u32;
        let cd_size = self.central.len() as u32;
        let mut out: Vec<u8> = self.out;
        push_bytes(&mut out, &self.central);
        push32(&mut out, END_SIGNATURE);
        push16(&mut out, 0);
        push16(&mut out, 0);
        push16(&mut out, self.count);
        push16(&mut out, self.count);
        push32(&mut out, cd_size);
        push32(&mut out, cd_offset);
        push16(&mut out, 0);
        assert(out@ =~= archive_of(self@)) by {
            reveal(end_record);
        }
        out
    }
}

// ---- reading back -------------------------------------------------------------

/// The bytes of a stored entry whose local part is at `offset`, if a local
/// header stands there and `size` bytes follow it.
pub open spec fn stored_data(b: Seq<u8>, offset: int, size: int) -> Option<Seq<u8>> {
    if offset < 0 || offset + 30 > b.len() || read32(b, offset) != LOCAL_SIGNATURE {
        None
    } else {
        let start = offset + 30 + read16(b, offset + 26) + read16(b, offset + 28);
        if start + size > b.len() {
            None
        } else {
            Some(b.subrange(start, start + size))
        }
    }
}

/// The `n` entries that the central directory at `pos` lists, if each record
/// is well formed, its data is stored uncompressed and the checksum is right.
pub open spec fn listed_entries(b: Seq<u8>, pos: int, n: nat) -> Option<Seq<Entry>>
    decreases n,
{
    if n == 0 {
        Some(Seq::empty())
    } else if pos < 0 || pos + 46 > b.len() || read32(b, pos) != CENTRAL_SIGNATURE || read16(
        b,
        pos + 10,
    ) != 0 {
        None
    } else {
        let name_len = read16(b, pos + 28);
        let next = pos + 46 + name_len + read16(b, pos + 30) + read16(b, pos + 32);
        match stored_data(b, read32(b, pos + 42), read32(b, pos + 24)) {
            Some(data) if pos + 46 + name_len <= b.len() && crc32_of(data) == read32(b, pos + 16) => {
                match listed_entries(b, next, (n - 1) as nat) {
                    Some(rest) => Some(
                        seq![Entry { name: b.subrange(pos + 46, pos + 46 + name_len), data }] + rest,
                    ),
                    None => None,
                }
            },
            _ => None,
        }
    }
}

/// The entries of an archive without a comment, as a reader finds them: from
/// the end record through the central directory to the local parts.
pub open spec fn read_archive(b: Seq<u8>) -> Option<Seq<Entry>> {
    let end = b.len() - 22;
    if end < 0 || read32(b, end) != END_SIGNATURE {
        None
    } else {
        listed_entries(b, read32(b, end + 16), read16(b, end + 10) as nat)
    }
}

/// All numbers in the archive of `es` fit the fields that hold them.
pub open spec fn fits_format(es: Seq<Entry>) -> bool {
    &&& es.len() <= 0xFFFF
    &&& local_parts(es).len() <= 0xFFFF_FFFF
    &&& central_directory(es).len() <= 0xFFFF_FFFF
    &&& forall|i: int| 0 <= i < es.len() ==> (#[trigger] es[i]).name.len() <= 0xFFFF
}

proof fn lemma_le(x: u32, y: u16)
    ensures
        read32(le32(x), 0) == x,
        read16(le16(y), 0) == y,
{
}

/// Reading inside a part of a sequence.
proof fn lemma_read_inside(b: Seq<u8>, from: int, part: Seq<u8>, i: int)
    requires
        0 <= from,
        from + part.len() <= b.len(),
        b.subrange(from, from + part.len()) == part,
        0 <= i,
    ensures
        i + 2 <= part.len() ==> read16(b, from + i) == read16(part, i),
        i + 4 <= part.len() ==> read32(b, from + i) == read32(part, i),
{
    if i + 2 <= part.len() {
        assert(part[i] == b[from + i]);
        assert(part[i + 1] == b[from + i + 1]);
    }
    if i + 4 <= part.len() {
        assert(part[i + 2] == b[from + i + 2]);
        assert(part[i + 3] == b[from + i + 3]);
    }
}

proof fn lemma_fields(e: Entry)
    requires
        e.data.len() <= 0xFFFF_FFFF,
        e.name.len() <= 0xFFFF,
    ensures
        entry_fields(e).len() == 24,
        read16(entry_fields(e), 2) == 0,
        read32(entry_fields(e), 8) == crc32_of(e.data),
        read32(entry_fields(e), 16) == e.data.len(),
        read16(entry_fields(e), 20) == e.name.len(),
        read16(entry_fields(e), 22) == 0,
{
    reveal(entry_fields);
    let f = entry_fields(e);
    let c = crc32_of(e.data);
    let n = e.data.len() as u32;
    let m = e.name.len() as u16;
    lemma_le(c, m);
    lemma_le(n, 0);
    assert(f.subrange(2, 4) =~= le16(0));
    lemma_read_inside(f, 2, le16(0), 0);
    assert(f.subrange(8, 12) =~= le32(c));
    lemma_read_inside(f, 8, le32(c), 0);
    assert(f.subrange(16, 20) =~= le32(n));
    lemma_read_inside(f, 16, le32(n), 0);
    assert(f.subrange(20, 22) =~= le16(m));
    lemma_read_inside(f, 20, le16(m), 0);
    assert(f.subrange(22, 24) =~= le16(0));
    lemma_read_inside(f, 22, le16(0), 0);
}

proof fn lemma_local_part(e: Entry)
    requires
        e.data.len() <= 0xFFFF_FFFF,
        e.name.len() <= 0xFFFF,
    ensures
        local_part(e).len() == 30 + e.name.len() + e.data.len(),
        read32(local_part(e), 0) == LOCAL_SIGNATURE,
        read16(local_part(e), 26) == e.name.len(),
        read16(local_part(e), 28) == 0,
        local_part(e).subrange(30 + e.name.len() as int, local_part(e).len() as int) == e.data,
{
    reveal(local_part);
    let p = local_part(e);
    lemma_fields(e);
    lemma_le(LOCAL_SIGNATURE, 0);
    assert(p.subrange(0, 4) =~= le32(LOCAL_SIGNATURE));
    lemma_read_inside(p, 0, le32(LOCAL_SIGNATURE), 0);
    assert(p.subrange(6, 30) =~= entry_fields(e));
    lemma_read_inside(p, 6, entry_fields(e), 20);
    lemma_read_inside(p, 6, entry_fields(e), 22);
    assert(p.subrange(30 + e.name.len() as int, p.len() as int) =~= e.data);
}

proof fn lemma_central_record(e: Entry, offset: u32)
    requires
        e.data.len() <= 0xFFFF_FFFF,
        e.name.len() <= 0xFFFF,
    ensures
        central_record(e, offset).len() == 46 + e.name.len(),
        read32(central_record(e, offset), 0) == CENTRAL_SIGNATURE,
        read16(central_record(e, offset), 10) == 0,
        read32(central_record(e, offset), 16) == crc32_of(e.data),
        read32(central_record(e, offset), 24) == e.data.len(),
        read16(central_record(e, offset), 28) == e.name.len(),
        read16(central_record(e, offset), 30) == 0,
        read16(central_record(e, offset), 32) == 0,
        read32(central_record(e, offset), 42) == offset,
        central_record(e, offset).subrange(46, 46 + e.name.len() as int) == e.name,
{
    reveal(central_record);
    let p = central_record(e, offset);
    lemma_fields(e);
    lemma_le(CENTRAL_SIGNATURE, 0);
    lemma_le(offset, 0);
    assert(p.subrange(0, 4) =~= le32(CENTRAL_SIGNATURE));
    lemma_read_inside(p, 0, le32(CENTRAL_SIGNATURE), 0);
    assert(p.subrange(8, 32) =~= entry_fields(e));
    lemma_read_inside(p, 8, entry_fields(e), 2);
    lemma_read_inside(p, 8, entry_fields(e), 8);
    lemma_read_inside(p, 8, entry_fields(e), 16);
    lemma_read_inside(p, 8, entry_fields(e), 20);
    lemma_read_inside(p, 8, entry_fields(e), 22);
    assert(p.subrange(32, 34) =~= le16(0));
    lemma_read_inside(p, 32, le16(0), 0);
    assert(p.subrange(42, 46) =~= le32(offset));
    lemma_read_inside(p, 42, le32(offset), 0);
    assert(p.subrange(46, 46 + e.name.len() as int) =~= e.name);
}

/// Where the parts of entry `k` stand.
proof fn lemma_positions(es: Seq<Entry>, k: int)
    requires
        0 <= k < es.len(),
    ensures
        local_parts(es.take(k)).len() + local_part(es[k]).len() <= local_parts(es).len(),
        local_parts(es).subrange(
            local_parts(es.take(k)).len() as int,
            (local_parts(es.take(k)).len() + local_part(es[k]).len()) as int,
        ) == local_part(es[k]),
        central_directory(es.take(k + 1)).len() <= central_directory(es).len(),
        central_directory(es.take(k + 1)) == central_directory(es.take(k)) + central_record(
            es[k],
            local_parts(es.take(k)).len() as u32,
        ),
        central_directory(es).subrange(
            central_directory(es.take(k)).len() as int,
            central_directory(es.take(k + 1)).len() as int,
        ) == central_record(es[k], local_parts(es.take(k)).len() as u32),
    decreases es.len(),
{
    let l = local_parts(es.take(k));
    let part = local_part(es[k]);
    let c = central_directory(es.take(k));
    let rec = central_record(es[k], l.len() as u32);
    assert(es.take(k + 1).drop_last() =~= es.take(k));
    assert(es.take(k + 1).last() == es[k]);
    if k == es.len() - 1 {
        assert(es.take(k + 1) =~= es);
        assert(es.drop_last() =~= es.take(k));
        assert((l + part).subrange(l.len() as int, (l.len() + part.len()) as int) =~= part);
        assert((c + rec).subrange(c.len() as int, (c.len() + rec.len()) as int) =~= rec);
    } else {
        let shorter = es.drop_last();
        lemma_positions(shorter, k);
        assert(shorter.take(k) =~= es.take(k));
        assert(shorter.take(k + 1) =~= es.take(k + 1));
        assert(shorter[k] == es[k]);
        assert(local_parts(es).subrange(l.len() as int, (l.len() + part.len()) as int) =~= local_parts(
            shorter,
        ).subrange(l.len() as int, (l.len() + part.len()) as int));
        assert(central_directory(es).subrange(c.len() as int, (c.len() + rec.len()) as int)
            =~= central_directory(shorter).subrange(c.len() as int, (c.len() + rec.len()) as int));
    }
}

/// A record and a local part that belong together list one entry.
proof fn lemma_lists_one(b: Seq<u8>, off: int, pos: int, e: Entry, n: nat)
    requires
        e.data.len() <= 0xFFFF_FFFF,
        e.name.len() <= 0xFFFF,
        0 <= off <= 0xFFFF_FFFF,
        0 <= pos,
        off + local_part(e).len() <= b.len(),
        b.subrange(off, off + local_part(e).len()) == local_part(e),
        pos + central_record(e, off as u32).len() <= b.len(),
        b.subrange(pos, pos + central_record(e, off as u32).len()) == central_record(e, off as u32),
        n > 0,
    ensures
        central_record(e, off as u32).len() == 46 + e.name.len(),
        listed_entries(b, pos, n) == match listed_entries(
            b,
            pos + 46 + e.name.len(),
            (n - 1) as nat,
        ) {
            Some(rest) => Some(seq![e] + rest),
            None => None,
        },
{
    let part = local_part(e);
    let rec = central_record(e, off as u32);
    lemma_local_part(e);
    lemma_central_record(e, off as u32);
    lemma_read_inside(b, off, part, 0);
    lemma_read_inside(b, off, part, 26);
    lemma_read_inside(b, off, part, 28);
    lemma_read_inside(b, pos, rec, 0);
    lemma_read_inside(b, pos, rec, 10);
    lemma_read_inside(b, pos, rec, 16);
    lemma_read_inside(b, pos, rec, 24);
    lemma_read_inside(b, pos, rec, 28);
    lemma_read_inside(b, pos, rec, 30);
    lemma_read_inside(b, pos, rec, 32);
    lemma_read_inside(b, pos, rec, 42);
    assert(b.subrange(pos + 46, pos + 46 + e.name.len()) =~= rec.subrange(
        46,
        46 + e.name.len() as int,
    ));
    let start: int = off + 30 + e.name.len();
    assert(b.subrange(start, start + e.data.len()) =~= part.subrange(
        30 + e.name.len() as int,
        part.len() as int,
    ));
    assert(stored_data(b, off, e.data.len() as int) == Some(e.data));
}

proof fn lemma_listed(es: Seq<Entry>, k: nat)
    requires
        fits_format(es),
        k <= es.len(),
    ensures
        listed_entries(
            archive_of(es),
            (local_parts(es).len() + central_directory(es.take(k as int)).len()) as int,
            (es.len() - k) as nat,
        ) == Some(es.skip(k as int)),
    decreases es.len() - k,
{
    let b = archive_of(es);
    let all = local_parts(es);
    let dir = central_directory(es);
    if k == es.len() {
        assert(es.skip(k as int) =~= Seq::<Entry>::empty());
    } else {
        let e = es[k as int];
        let off = local_parts(es.take(k as int)).len() as int;
        let c = central_directory(es.take(k as int)).len() as int;
        let pos = all.len() as int + c;
        let part = local_part(e);
        let rec = central_record(e, off as u32);
        lemma_positions(es, k as int);
        assert(part.len() >= e.data.len()) by {
            reveal(local_part);
        }
        assert(b.subrange(off, off + part.len()) =~= all.subrange(off, off + part.len()));
        assert(b.subrange(pos, pos + rec.len()) =~= dir.subrange(c, c + rec.len()));
        lemma_lists_one(b, off, pos, e, (es.len() - k) as nat);
        lemma_listed(es, k + 1);
        assert(seq![e] + es.skip(k as int + 1) =~= es.skip(k as int));
    }
}

/// Reading back a finished archive gives the entries that were added to it,
/// names, bytes and order, as long as the sizes fit the format's fields.
pub proof fn law_archive_reads_back(es: Seq<Entry>)
    requires
        fits_format(es),
    ensures
        read_archive(archive_of(es)) == Some(es),
{
    let b = archive_of(es);
    let l = local_parts(es).len() as int;
    let c = central_directory(es).len() as int;
    reveal(end_record);
    let rec = end_record(es.len() as u16, c as u32, l as u32);
    lemma_le(END_SIGNATURE, es.len() as u16);
    lemma_le(l as u32, 0);
    assert(rec.len() == 22);
    assert(b.subrange(l + c, l + c + 22) =~= rec);
    assert(rec.subrange(0, 4) =~= le32(END_SIGNATURE));
    lemma_read_inside(rec, 0, le32(END_SIGNATURE), 0);
    assert(rec.subrange(10, 12) =~= le16(es.len() as u16));
    lemma_read_inside(rec, 10, le16(es.len() as u16), 0);
    assert(rec.subrange(16, 20) =~= le32(l as u32));
    lemma_read_inside(rec, 16, le32(l as u32), 0);
    lemma_read_inside(b, l + c, rec, 0);
    lemma_read_inside(b, l + c, rec, 10);
    lemma_read_inside(b, l + c, rec, 16);
    assert(es.take(0) =~= Seq::<Entry>::empty());
    lemma_listed(es, 0);
    assert(es.skip(0) =~= es);
}

// ---- what headers and checksums tell ------------------------------------------------

#[verifier::rlimit(50)]
proof fn lemma_every_field(e: Entry)
    requires
        e.name.len() <= 0xFFFF,
        e.data.len() <= 0xFFFF_FFFF,
    ensures
        ({
            let f = entry_fields(e);
            &&& f.len() == 24
            &&& read16(f, 0) == 0x800
            &&& read16(f, 2) == 0
            &&& read16(f, 4) == 0
            &&& read16(f, 6) == 0x21
            &&& read32(f, 8) == crc32_of(e.data)
            &&& read32(f, 12) == e.data.len()
            &&& read32(f, 16) == e.data.len()
            &&& read16(f, 20) == e.name.len()
            &&& read16(f, 22) == 0
        }),
{
    lemma_fields(e);
    lemma_le(0, UTF8_FLAG);
    lemma_le(0, FIRST_DAY);
    lemma_le(e.data.len() as u32, 0);
    let f = entry_fields(e);
    let flag = le16(UTF8_FLAG);
    let zero = le16(0);
    let day = le16(FIRST_DAY);
    let size = le32(e.data.len() as u32);
    assert(f.subrange(0, 2) =~= flag) by {
        reveal(entry_fields);
    }
    assert(f.subrange(4, 6) =~= zero) by {
        reveal(entry_fields);
    }
    assert(f.subrange(6, 8) =~= day) by {
        reveal(entry_fields);
    }
    assert(f.subrange(12, 16) =~= size) by {
        reveal(entry_fields);
    }
    lemma_read_inside(f, 0, flag, 0);
    lemma_read_inside(f, 4, zero, 0);
    lemma_read_inside(f, 6, day, 0);
    lemma_read_inside(f, 12, size, 0);
}

/// The header of a file tells of the file: that it is stored as it is and named
/// in UTF-8, its checksum, its size and the length of its name. The name and
/// the bytes of the file follow.
#[verifier::rlimit(50)]
pub proof fn law_header_tells_of_its_file(e: Entry)
    requires
        e.name.len() <= 0xFFFF,
        e.data.len() <= 0xFFFF_FFFF,
    ensures
        ({
            let h = local_part(e);
            let n = e.name.len() as int;
            &&& h.len() == 30 + n + e.data.len()
            &&& read32(h, 0) == 0x04034b50
            &&& read16(h, 4) == 20
            &&& read16(h, 6) == 0x800
            &&& read16(h, 8) == 0
            &&& read16(h, 10) == 0
            &&& read16(h, 12) == 0x21
            &&& read32(h, 14) == crc32_of(e.data)
            &&& read32(h, 18) == e.data.len()
            &&& read32(h, 22) == e.data.len()
            &&& read16(h, 26) == n
            &&& read16(h, 28) == 0
            &&& h.subrange(30, 30 + n) == e.name
            &&& h.skip(30 + n) == e.data
        }),
{
    reveal(local_part);
    lemma_every_field(e);
    lemma_le(LOCAL_SIGNATURE, ZIP_VERSION);
    let h = local_part(e);
    let f = entry_fields(e);
    let n = e.name.len() as int;
    let sign = le32(LOCAL_SIGNATURE);
    let version = le16(ZIP_VERSION);
    assert(h.subrange(0, 4) =~= sign);
    lemma_read_inside(h, 0, sign, 0);
    assert(h.subrange(4, 6) =~= version);
    lemma_read_inside(h, 4, version, 0);
    assert(h.subrange(6, 30) =~= f);
    lemma_read_inside(h, 6, f, 0);
    lemma_read_inside(h, 6, f, 2);
    lemma_read_inside(h, 6, f, 4);
    lemma_read_inside(h, 6, f, 6);
    lemma_read_inside(h, 6, f, 8);
    lemma_read_inside(h, 6, f, 12);
    lemma_read_inside(h, 6, f, 16);
    lemma_read_inside(h, 6, f, 20);
    lemma_read_inside(h, 6, f, 22);
    assert(h.subrange(30, 30 + n) =~= e.name);
    assert(h.skip(30 + n) =~= e.data);
}

/// The record of a file in the directory of the archive tells the same of it as
/// its header does, and where that stands.
#[verifier::rlimit(50)]
pub proof fn law_record_tells_of_its_file(e: Entry, offset: u32)
    requires
        e.name.len() <= 0xFFFF,
        e.data.len() <= 0xFFFF_FFFF,
    ensures
        ({
            let r = central_record(e, offset);
            let h = local_part(e);
            let n = e.name.len() as int;
            &&& r.len() == 46 + n
            &&& read32(r, 0) == 0x02014b50
            &&& read16(r, 4) == 20
            &&& r.subrange(6, 32) == h.subrange(4, 30)
            &&& r.subrange(32, 42) == Seq::new(10, |i: int| 0u8)
            &&& read32(r, 42) == offset
            &&& r.skip(46) == e.name
        }),
{
    reveal(central_record);
    reveal(local_part);
    lemma_every_field(e);
    lemma_le(CENTRAL_SIGNATURE, ZIP_VERSION);
    lemma_le(offset, 0);
    let r = central_record(e, offset);
    let h = local_part(e);
    let f = entry_fields(e);
    let sign = le32(CENTRAL_SIGNATURE);
    let version = le16(ZIP_VERSION);
    assert(r.subrange(0, 4) =~= sign);
    lemma_read_inside(r, 0, sign, 0);
    assert(r.subrange(4, 6) =~= version);
    lemma_read_inside(r, 4, version, 0);
    assert(r.subrange(6, 32) =~= version + f);
    assert(h.subrange(4, 30) =~= version + f);
    assert(r.subrange(32, 42) =~= Seq::new(10, |i: int| 0u8));
    assert(r.subrange(42, 46) =~= le32(offset));
    lemma_read_inside(r, 42, le32(offset), 0);
    assert(r.skip(46) =~= e.name);
}

/// The eight division steps for a byte.
spec fn crc_byte(x: u32) -> u32 {
    crc_bit(crc_bit(crc_bit(crc_bit(crc_bit(crc_bit(crc_bit(crc_bit(x))))))))
}

proof fn lemma_crc_byte(data: Seq<u8>, b: u8)
    ensures
        crc_register(data.push(b)) == crc_byte(crc_register(data) ^ (b as u32)),
{
    assert(data.push(b).drop_last() =~= data);
    reveal_with_fuel(crc_bits, 9);
}

/// The checksum of a file followed by its own checksum is the same number for
/// every file, as it is of every CRC-32.
pub proof fn law_checksum_checks_itself(data: Seq<u8>)
    ensures
        crc32_of(data + le32(crc32_of(data))) == 0x2144DF1C,
{
    let r = crc_register(data);
    let c = crc32_of(data);
    let b = le32(c);
    let d1 = data.push(b[0]);
    let d2 = d1.push(b[1]);
    let d3 = d2.push(b[2]);
    let d4 = d3.push(b[3]);
    assert(data + b =~= d4);
    lemma_crc_byte(data, b[0]);
    lemma_crc_byte(d1, b[1]);
    lemma_crc_byte(d2, b[2]);
    lemma_crc_byte(d3, b[3]);
    let b0 = b[0];
    let b1 = b[1];
    let b2 = b[2];
    let b3 = b[3];
    assert(b0 as u32 == !r & 0xff) by (bit_vector)
        requires
            b0 == (c % 256) as u8,
            c == !r,
    ;
    assert(b1 as u32 == (!r >> 8) & 0xff) by (bit_vector)
        requires
            b1 == (c / 256 % 256) as u8,
            c == !r,
    ;
    assert(b2 as u32 == (!r >> 16) & 0xff) by (bit_vector)
        requires
            b2 == (c / 65536 % 256) as u8,
            c == !r,
    ;
    assert(b3 as u32 == (!r >> 24) & 0xff) by (bit_vector)
        requires
            b3 == (c / 16777216) as u8,
            c == !r,
    ;
    assert(crc_byte(r ^ (!r & 0xff)) == (r >> 8) ^ 0x2D02EF8D) by (bit_vector);
    assert(crc_byte((r >> 8) ^ 0x2D02EF8D ^ ((!r >> 8) & 0xff)) == (r >> 16) ^ 0xBE2612FF) by (bit_vector);
    assert(crc_byte((r >> 16) ^ 0xBE2612FF ^ ((!r >> 16) & 0xff)) == (r >> 24) ^ 0x00BE2612) by (bit_vector);
    assert(crc_byte((r >> 24) ^ 0x00BE2612 ^ ((!r >> 24) & 0xff)) == 0xDEBB20E3) by (bit_vector);
    assert(!0xDEBB20E3u32 == 0x2144DF1Cu32) by (bit_vector);
}

/// A file that is added to an archive comes behind those that are there, with
/// its name in UTF-8 and its bytes, and a finished archive reads back as the
/// files that were added.
pub proof fn law_added_files_read_back(w: &mut ZipWriter, name: &str, data: &[u8], out: Vec<u8>)
    requires
        call_ensures(ZipWriter::add, (w, name, data), ()),
        call_ensures(ZipWriter::finish, (*final(w),), out),
        fits_format(final(w)@),
    ensures
        read_archive(out@) matches Some(files) && {
            &&& files.len() == old(w)@.len() + 1
            &&& files.drop_last() == old(w)@
            &&& files.last().name == vstd::utf8::encode_utf8(name@)
            &&& files.last().data == data@
        },
{
    law_archive_reads_back(final(w)@);
    assert(final(w)@.drop_last() =~= old(w)@);
}

} // verus!
