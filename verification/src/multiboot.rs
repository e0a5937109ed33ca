//! The boot information structure: a scanner that walks its self-delimiting
//! tag sequence to locate the memory-map tag, and a lazy decoder for the
//! fixed-stride memory-map records of that tag.
//!
//! The structure begins with an 8-byte header (a 4-byte total size and a
//! 4-byte reserved field), followed by tags. Each tag begins with a 4-byte
//! type code and a 4-byte length that includes those 8 header bytes; its
//! body is padded so that the next tag begins on an 8-byte boundary. Tag
//! type 0 terminates the sequence; tag type 6 is the memory map.

use crate::reader::align_up;
use crate::reader::le_int;
use crate::reader::lemma_align_up;
use crate::reader::ByteReader;
use vstd::arithmetic::div_mod::lemma_div_multiples_vanish;
use vstd::arithmetic::div_mod::lemma_fundamental_div_mod;
use vstd::arithmetic::power2::is_pow2;
use vstd::prelude::*;

verus! {

/// The type code of the tag that starts at byte `pos` of `s`.
pub open spec fn tag_type(s: Seq<u8>, pos: int) -> int {
    le_int(s, pos, 4)
}

/// The declared byte length of the tag that starts at `pos`, inclusive of
/// its own 8-byte (type, length) header.
pub open spec fn tag_size(s: Seq<u8>, pos: int) -> int {
    le_int(s, pos + 4, 4)
}

/// The start of the tag after the one at `pos`: the end of the declared
/// length, rounded up to the next 8-byte boundary.
pub open spec fn next_tag(s: Seq<u8>, pos: int) -> int {
    align_up(pos + tag_size(s, pos), 8)
}

/// The next tag begins after the current tag's declared bytes, within the
/// following 8-byte boundary, and on an 8-byte boundary.
pub proof fn lemma_next_tag_advances(s: Seq<u8>, pos: int)
    requires
        0 <= pos,
        tag_size(s, pos) >= 8,
    ensures
        pos + tag_size(s, pos) <= next_tag(s, pos),
        next_tag(s, pos) < pos + tag_size(s, pos) + 8,
        next_tag(s, pos) % 8 == 0,
{
    lemma_align_up(pos + tag_size(s, pos), 8);
}

/// The tag sequence starting at `pos` is well formed: each tag begins on an
/// 8-byte boundary after the structure header, declares a length of at
/// least its own 8-byte header, lies within `s` together with its padding,
/// and the sequence reaches a terminator tag (type 0).
pub open spec fn wf_tags(s: Seq<u8>, pos: int) -> bool
    decreases s.len() - pos,
    via wf_tags_decreases
{
    &&& 8 <= pos
    &&& pos % 8 == 0
    &&& pos + 8 <= s.len()
    &&& tag_size(s, pos) >= 8
    &&& next_tag(s, pos) <= s.len()
    &&& (tag_type(s, pos) != 0 ==> wf_tags(s, next_tag(s, pos)))
}

#[via_fn]
proof fn wf_tags_decreases(s: Seq<u8>, pos: int) {
    if 0 <= pos && tag_size(s, pos) >= 8 {
        lemma_next_tag_advances(s, pos);
    }
}

/// The start of the memory-map tag that a scan of the sequence at `pos`
/// records: the last tag of type 6 before the terminator, if any.
pub open spec fn find_memory_map(s: Seq<u8>, pos: int) -> Option<int>
    decreases s.len() - pos,
        when wf_tags(s, pos)
    via find_memory_map_decreases
{
    if tag_type(s, pos) == 0 {
        None
    } else {
        let rest = find_memory_map(s, next_tag(s, pos));
        if rest is Some {
            rest
        } else if tag_type(s, pos) == 6 {
            Some(pos)
        } else {
            None
        }
    }
}

#[via_fn]
proof fn find_memory_map_decreases(s: Seq<u8>, pos: int) {
    if wf_tags(s, pos) {
        lemma_next_tag_advances(s, pos);
    }
}

/// The per-entry stride that the memory-map tag at `t` declares.
pub open spec fn mmap_entry_size(s: Seq<u8>, t: int) -> int {
    le_int(s, t + 8, 4)
}

/// The number of entries of the memory-map tag at `t`: the bytes after its
/// 16-byte local header, divided by the declared stride.
pub open spec fn mmap_entry_count(s: Seq<u8>, t: int) -> int {
    (tag_size(s, t) - 16) / mmap_entry_size(s, t)
}

/// The memory-map tag at `t` is well formed: its declared size covers its
/// 16-byte local header, its stride covers the four decoded fields, and
/// the entries fill the bytes after the header exactly, within `s`.
pub open spec fn wf_mmap_tag(s: Seq<u8>, t: int) -> bool {
    &&& 0 <= t
    &&& tag_size(s, t) >= 16
    &&& mmap_entry_size(s, t) >= 24
    &&& (tag_size(s, t) - 16) % mmap_entry_size(s, t) == 0
    &&& t + tag_size(s, t) <= s.len()
}

/// `s` holds a well-formed boot information structure: a well-formed tag
/// sequence from byte 8, whose recorded memory-map tag, if present, is
/// itself well formed. The length bound leaves the final alignment step of
/// a scan free of address overflow.
pub open spec fn wf_structure(s: Seq<u8>) -> bool {
    &&& s.len() + 8 <= usize::MAX
    &&& wf_tags(s, 8)
    &&& (find_memory_map(s, 8) matches Some(t) ==> wf_mmap_tag(s, t))
}

/// One decoded memory-map record: a contiguous physical memory range and
/// its raw type code.
#[derive(Clone, Copy, Debug, PartialEq, Eq, Structural)]
pub struct MemoryArea {
    /// The physical address of the start of the area.
    pub base_addr: u64,
    /// The length of the area in bytes.
    pub length: u64,
    /// The raw 32-bit type code of the area.
    pub kind: u32,
    /// A reserved field, carried through unchanged.
    pub reserved: u32,
}

/// The classification of a memory area: usable for allocation, or not.
#[derive(Clone, Copy, Debug, PartialEq, Eq, Structural)]
pub enum MemoryAreaType {
    Usable,
    Unusable,
}

/// The record whose 24 interpreted bytes begin at `p`: an 8-byte base
/// address, an 8-byte length, a 4-byte type code and a 4-byte reserved
/// field, each little-endian.
pub open spec fn area_from(s: Seq<u8>, p: int) -> MemoryArea {
    MemoryArea {
        base_addr: le_int(s, p, 8) as u64,
        length: le_int(s, p + 8, 8) as u64,
        kind: le_int(s, p + 16, 4) as u32,
        reserved: le_int(s, p + 20, 4) as u32,
    }
}

/// The records of the memory-map tag at `t`, in order: entry `i` begins
/// `i` strides after the tag's 16-byte local header.
pub open spec fn mmap_areas(s: Seq<u8>, t: int) -> Seq<MemoryArea> {
    Seq::new(
        mmap_entry_count(s, t) as nat,
        |i: int| area_from(s, t + 16 + i * mmap_entry_size(s, t)),
    )
}

/// The records the structure `s` exposes: those of its recorded memory-map
/// tag, none where no such tag exists.
pub open spec fn areas_of(s: Seq<u8>) -> Seq<MemoryArea> {
    match find_memory_map(s, 8) {
        Some(t) => mmap_areas(s, t),
        None => Seq::empty(),
    }
}

/// Every tag of a well-formed sequence is read from an 8-byte boundary:
/// the tag at `pos` begins on one, and after its body is skipped and the
/// cursor aligned, the next tag's header again lies on one.
pub proof fn lemma_tags_eight_aligned(s: Seq<u8>, pos: int)
    requires
        wf_tags(s, pos),
    ensures
        pos % 8 == 0,
        tag_type(s, pos) != 0 ==> next_tag(s, pos) % 8 == 0,
{
    if tag_type(s, pos) != 0 {
        lemma_next_tag_advances(s, pos);
    }
}

/// A scan of a well-formed sequence stays within `s`: the header, declared
/// bytes and padding of the tag at `pos` all lie inside `s`.
pub proof fn lemma_scan_in_bounds(s: Seq<u8>, pos: int)
    requires
        wf_tags(s, pos),
    ensures
        pos + 8 <= s.len(),
        pos + tag_size(s, pos) <= s.len(),
        next_tag(s, pos) <= s.len(),
{
    lemma_next_tag_advances(s, pos);
}

/// A memory-map tag declaring a size of exactly `16 + n * stride` holds
/// exactly `n` records, whatever the stride.
pub proof fn lemma_entry_count(s: Seq<u8>, t: int, n: int)
    requires
        mmap_entry_size(s, t) > 0,
        n >= 0,
        tag_size(s, t) == 16 + n * mmap_entry_size(s, t),
    ensures
        mmap_entry_count(s, t) == n,
{
    let e = mmap_entry_size(s, t);
    lemma_div_multiples_vanish(n, e);
    assert(n * e == e * n) by (nonlinear_arith);
}

/// A structure without a memory-map tag exposes no records at all.
pub proof fn lemma_no_memory_map_no_areas(s: Seq<u8>)
    requires
        find_memory_map(s, 8) is None,
    ensures
        areas_of(s) == Seq::<MemoryArea>::empty(),
{
}

impl MemoryArea {
    /// Returns the address of the start of the memory area.
    pub fn base(&self) -> (r: u64)
        ensures
            r == self.base_addr,
    {
        self.base_addr
    }

    /// Returns the size of the memory area in bytes.
    pub fn size(&self) -> (r: u64)
        ensures
            r == self.length,
    {
        self.length
    }

    /// Returns the classification of the memory area: type code 1 means
    /// usable, every other code unusable.
    pub fn kind(&self) -> (r: MemoryAreaType)
        ensures
            r == (if self.kind == 1 {
                MemoryAreaType::Usable
            } else {
                MemoryAreaType::Unusable
            }),
    {
        if self.kind == 1 {
            MemoryAreaType::Usable
        } else {
            MemoryAreaType::Unusable
        }
    }
}

/// A handle on one boot information structure: the underlying bytes and
/// the recorded start of its memory-map tag, if one was found.
pub struct Multiboot<'a> {
    buf: &'a [u8],
    memory_map: Option<usize>,
}

impl<'a> Multiboot<'a> {
    /// The bytes of the structure.
    pub closed spec fn bytes(self) -> Seq<u8> {
        self.buf@
    }

    /// The recorded start of the memory-map tag.
    pub closed spec fn mmap_pos(self) -> Option<int> {
        match self.memory_map {
            Some(p) => Some(p as int),
            None => None,
        }
    }

    /// The handle is the result of a completed scan of a well-formed
    /// structure: it records exactly the tag the scan finds.
    pub open spec fn wf(self) -> bool {
        &&& wf_structure(self.bytes())
        &&& self.mmap_pos() == find_memory_map(self.bytes(), 8)
    }

    /// Creates a handle from the bytes of a well-formed boot information
    /// structure, scanning its tags once to record the memory-map tag.
    pub fn new(buf: &'a [u8]) -> (r: Multiboot<'a>)
        requires
            wf_structure(buf@),
        ensures
            r.bytes() == buf@,
            r.wf(),
    {
        let mut info = Multiboot { buf, memory_map: None };
        info.parse();
        info
    }

    /// Walks the tag sequence from the first tag to the terminator,
    /// recording the start of the last memory-map tag seen, if any.
    fn parse(&mut self)
        requires
            wf_structure(old(self).bytes()),
            old(self).memory_map is None,
        ensures
            final(self).bytes() == old(self).bytes(),
            final(self).mmap_pos() == find_memory_map(old(self).bytes(), 8),
    {
        let ghost s = self.buf@;
        let mut reader = ByteReader::new(self.buf);
        // The structure's own 8-byte header: total size, then a reserved
        // field; the scan relies on the terminator tag, not the size.
        let _total_size: u32 = reader.read_u32();
        let _reserved: u32 = reader.read_u32();
        loop
            invariant_except_break
                reader.bytes() == s,
                self.buf@ == s,
                wf_structure(s),
                wf_tags(s, reader.pos()),
                (match find_memory_map(s, reader.pos()) {
                    Some(t) => find_memory_map(s, 8) == Some(t),
                    None => find_memory_map(s, 8) == self.mmap_pos(),
                }),
            ensures
                self.buf@ == s,
                self.mmap_pos() == find_memory_map(s, 8),
            decreases s.len() - reader.pos(),
        {
            let ghost p = reader.pos();
            // The tag's own header: its start, type code and full length.
            let tag_start: usize = reader.position();
            let kind: u32 = reader.read_u32();
            let size: u32 = reader.read_u32();
            proof {
                lemma_next_tag_advances(s, p);
                assert(is_pow2(8)) by {
                    reveal_with_fuel(is_pow2, 5);
                }
            }
            // Skip the tag body (the length includes the 8 header bytes
            // just read), then realign for the next tag's header.
            reader.skip(size as usize - 8);
            reader.align(8);
            match kind {
                6 => self.memory_map = Some(tag_start),
                // The terminator tag is always the last one.
                0 => break,
                _ => {},
            }
        }
    }

    /// True when the scan found a memory-map tag.
    pub fn has_memory_map(&self) -> (r: bool)
        requires
            self.wf(),
        ensures
            r == (find_memory_map(self.bytes(), 8) is Some),
    {
        self.memory_map.is_some()
    }

    /// Returns a fresh iterator over the records of the memory map; the
    /// records of a structure without a memory-map tag are none.
    pub fn memory_areas(&self) -> (r: MemoryAreas<'a>)
        requires
            self.wf(),
        ensures
            r.wf(),
            r.areas() == areas_of(self.bytes()),
    {
        match self.memory_map {
            Some(t) => {
                let mut reader = ByteReader::new(self.buf);
                reader.skip(t);
                MemoryAreas::new(reader)
            },
            None => MemoryAreas {
                reader: ByteReader::new(self.buf),
                entry_size: 24,
                entry_count: 0,
                current_entry: 0,
            },
        }
    }

    /// Decodes every record of the structure's memory map at once, in
    /// order: the whole sequence a fresh iterator would produce.
    pub fn memory_area_vec(&self) -> (v: Vec<MemoryArea>)
        requires
            self.wf(),
        ensures
            v@ == areas_of(self.bytes()),
    {
        let ghost total = areas_of(self.bytes());
        let mut it = self.memory_areas();
        let mut v: Vec<MemoryArea> = Vec::new();
        loop
            invariant_except_break
                it.wf(),
                v@ + it.areas() == total,
            ensures
                v@ == total,
            decreases it.areas().len(),
        {
            match it.next() {
                Some(area) => {
                    v.push(area);
                    proof {
                        assert(v@ + it.areas() =~= total);
                    }
                },
                None => {
                    proof {
                        assert(v@ + it.areas() =~= v@);
                    }
                    break;
                },
            }
        }
        v
    }
}

/// An iterator over the records of one memory-map tag: a cursor at the
/// next record still to be decoded, the declared per-entry stride, and how
/// many of the tag's records have been produced so far.
pub struct MemoryAreas<'a> {
    reader: ByteReader<'a>,
    entry_size: u32,
    entry_count: usize,
    current_entry: usize,
}

impl<'a> MemoryAreas<'a> {
    /// The bytes of the structure.
    pub closed spec fn bytes(self) -> Seq<u8> {
        self.reader.bytes()
    }

    /// The cursor: the start of the next record to be decoded.
    pub closed spec fn pos(self) -> int {
        self.reader.pos()
    }

    /// The declared per-entry stride.
    pub closed spec fn stride(self) -> int {
        self.entry_size as int
    }

    /// How many records are still to be produced.
    pub closed spec fn remaining(self) -> int {
        self.entry_count - self.current_entry
    }

    /// The iterator is well formed: the records still to be produced lie
    /// within the underlying bytes, at a stride covering the four decoded
    /// fields.
    pub open spec fn wf(self) -> bool {
        &&& 0 <= self.pos()
        &&& 0 <= self.remaining()
        &&& self.stride() >= 24
        &&& self.pos() + self.remaining() * self.stride() <= self.bytes().len()
    }

    /// The records this iterator has yet to produce, in order.
    pub open spec fn areas(self) -> Seq<MemoryArea> {
        Seq::new(
            self.remaining() as nat,
            |i: int| area_from(self.bytes(), self.pos() + i * self.stride()),
        )
    }

    /// Creates an iterator from a reader positioned at the start of a
    /// well-formed memory-map tag, consuming the tag's 16-byte local
    /// header to derive the stride and the entry count.
    fn new(reader: ByteReader<'a>) -> (r: MemoryAreas<'a>)
        requires
            wf_mmap_tag(reader.bytes(), reader.pos()),
        ensures
            r.wf(),
            r.bytes() == reader.bytes(),
            r.areas() == mmap_areas(reader.bytes(), reader.pos()),
    {
        let ghost s = reader.bytes();
        let ghost t = reader.pos();
        let mut reader = reader;
        // The tag's local header: type code and size (as any tag), then
        // the per-entry size and an entry version, currently always 0.
        let _kind: u32 = reader.read_u32();
        let total_size: u32 = reader.read_u32();
        let entry_size: u32 = reader.read_u32();
        let _entry_version: u32 = reader.read_u32();
        // The records fill what the declared size leaves after the four
        // header fields just read.
        let entries_size: u32 = total_size - 16;
        let entry_count: u32 = entries_size / entry_size;
        let r = MemoryAreas {
            reader,
            entry_size,
            entry_count: entry_count as usize,
            current_entry: 0,
        };
        proof {
            let e = mmap_entry_size(s, t);
            let d = tag_size(s, t) - 16;
            lemma_fundamental_div_mod(d, e);
            assert(e * (d / e) == (d / e) * e) by (nonlinear_arith);
            assert(r.areas() =~= mmap_areas(s, t));
        }
        r
    }

    /// Produces the next record, or nothing once every record of the tag
    /// has been produced. A produced record is decoded from the four
    /// fields at the cursor; the cursor then advances by the declared
    /// stride, whatever trailing bytes the stride covers beyond them.
    pub fn next(&mut self) -> (r: Option<MemoryArea>)
        requires
            old(self).wf(),
        ensures
            final(self).wf(),
            final(self).bytes() == old(self).bytes(),
            match r {
                Some(area) => {
                    &&& old(self).areas().len() > 0
                    &&& area == old(self).areas()[0]
                    &&& final(self).areas() == old(self).areas().drop_first()
                },
                None => {
                    &&& old(self).areas().len() == 0
                    &&& final(self).areas() == old(self).areas()
                },
            },
    {
        if self.current_entry >= self.entry_count {
            return None;
        }
        let ghost s = self.bytes();
        let ghost p = self.pos();
        let ghost st = self.stride();
        let ghost rem = self.remaining();
        proof {
            self.reader.lemma_bytes_fit();
            assert(rem * st == (rem - 1) * st + st) by (nonlinear_arith);
            assert((rem - 1) * st >= 0) by (nonlinear_arith)
                requires
                    rem >= 1,
                    st >= 0,
            ;
        }
        self.current_entry = self.current_entry + 1;
        // Decode the four known fields, then advance by the declared
        // stride: a newer format may append fields, which are skipped.
        let base_addr: u64 = self.reader.read_u64();
        let length: u64 = self.reader.read_u64();
        let kind: u32 = self.reader.read_u32();
        let reserved: u32 = self.reader.read_u32();
        self.reader.skip(self.entry_size as usize - 24);
        let area = MemoryArea { base_addr, length, kind, reserved };
        proof {
            assert forall|i: int| 0 <= i < rem - 1 implies #[trigger] area_from(
                s,
                p + st + i * st,
            ) == area_from(s, p + (i + 1) * st) by {
                assert((i + 1) * st == i * st + st) by (nonlinear_arith);
            }
            assert(self.areas() =~= old(self).areas().drop_first());
        }
        Some(area)
    }
}

} // verus!
