//! The mapping table and its lookup.
//!
//! A table is a sorted index of ranges that partition the codepoints, an
//! array of mapping entries that the ranges point into, and one shared
//! string table that the entries with replacement text point into.

use vstd::prelude::*;
use vstd::slice::slice_subrange;

verus! {

/// In a packed value, the bit that says that the whole range shares one
/// mapping entry.
pub const SINGLE_MARKER: u16 = 0x8000;

/// The greatest codepoint.
pub const MAX_CODEPOINT: u32 = 0x10FFFF;

/// A reference to a replacement text in the string table: where it starts,
/// as a low and a high byte, and how many characters it has.
#[derive(Clone, Copy, Debug, PartialEq, Eq, Structural)]
pub struct StringTableSlice {
    pub start_lo: u8,
    pub start_hi: u8,
    pub len: u8,
}

/// What the table says of a codepoint. A table of the plain profile holds
/// `Valid`, `Ignored`, `Mapped` and `Disallowed` only; one of the richer
/// profile also tells deviations and the codepoints that are disallowed
/// under the STD3 rules or under IDNA 2008 apart.
#[derive(Clone, Copy, Debug, PartialEq, Eq, Structural)]
pub enum Mapping {
    Valid,
    Ignored,
    Mapped(StringTableSlice),
    Deviation,
    Disallowed,
    DisallowedStd3Valid,
    DisallowedStd3Mapped(StringTableSlice),
    DisallowedIdna2008,
}

/// One entry of the range index: the first codepoint of the range and the
/// packed reference to its mapping entries.
#[derive(Clone, Copy, Debug, PartialEq, Eq, Structural)]
pub struct RangeEntry {
    pub base: u32,
    pub packed: u16,
}

/// The mapping data: range index, mapping entries and string table.
pub struct MappingTable {
    ranges: Vec<RangeEntry>,
    mappings: Vec<Mapping>,
    strings: Vec<char>,
}

/// The codepoints that are mapped to themselves without a lookup: `.`, `-`,
/// the digits and the lower-case letters `a` to `z`.
pub open spec fn is_fast_path(c: char) -> bool {
    c == '.' || c == '-' || ('a' <= c && c <= 'z') || ('0' <= c && c <= '9')
}

impl StringTableSlice {
    /// Where the text starts in the string table.
    pub open spec fn start(self) -> int {
        self.start_hi as int * 256 + self.start_lo as int
    }

    /// The position after the text's last character.
    pub open spec fn end(self) -> int {
        self.start() + self.len as int
    }
}

impl Mapping {
    /// The reference to the replacement text, for the entries that have
    /// one.
    pub open spec fn slice(self) -> Option<StringTableSlice> {
        match self {
            Mapping::Mapped(s) => Some(s),
            Mapping::DisallowedStd3Mapped(s) => Some(s),
            _ => None,
        }
    }

    /// Whether the entry leaves the codepoint as it is.
    pub open spec fn keeps(self) -> bool {
        self == Mapping::Valid || self == Mapping::Deviation || self
            == Mapping::DisallowedStd3Valid || self == Mapping::DisallowedIdna2008
    }
}

impl RangeEntry {
    /// Whether every codepoint of the range shares one mapping entry.
    pub open spec fn single(self) -> bool {
        self.packed & SINGLE_MARKER != 0
    }

    /// Where the range's mapping entries start.
    pub open spec fn offset(self) -> int {
        (self.packed & !SINGLE_MARKER) as int
    }
}

/// The range index is not empty, starts at codepoint zero and ascends
/// strictly.
pub open spec fn ranges_partition(ranges: Seq<RangeEntry>) -> bool {
    &&& ranges.len() > 0
    &&& ranges[0].base == 0
    &&& forall|i: int, j: int| 0 <= i < j < ranges.len() ==> ranges[i].base < ranges[j].base
}

/// The last codepoint of range `i`: the one before the next range's first,
/// or the greatest codepoint.
pub open spec fn range_last(ranges: Seq<RangeEntry>, i: int) -> int {
    if i + 1 < ranges.len() {
        ranges[i + 1].base - 1
    } else {
        MAX_CODEPOINT as int
    }
}

/// The mapping entries that range `i` points at exist: one entry for a
/// single range, one for each codepoint up to the range's last otherwise.
pub open spec fn range_in_bounds(ranges: Seq<RangeEntry>, n_mappings: int, i: int) -> bool {
    if ranges[i].single() {
        ranges[i].offset() < n_mappings
    } else {
        ranges[i].base <= range_last(ranges, i) ==> ranges[i].offset() + (range_last(ranges, i)
            - ranges[i].base) < n_mappings
    }
}

/// The replacement text of a mapping entry lies inside the string table.
pub open spec fn mapping_in_bounds(m: Mapping, n_strings: int) -> bool {
    match m.slice() {
        Some(s) => s.end() <= n_strings,
        None => true,
    }
}

/// The range that holds codepoint `cp`: `i` is the range with the greatest
/// first codepoint that is not above `cp`.
pub open spec fn range_holds(ranges: Seq<RangeEntry>, i: int, cp: int) -> bool {
    &&& 0 <= i < ranges.len()
    &&& ranges[i].base <= cp
    &&& i + 1 < ranges.len() ==> cp < ranges[i + 1].base
}

/// The index of the range that holds `cp`.
pub open spec fn range_of(ranges: Seq<RangeEntry>, cp: int) -> int {
    choose|i: int| range_holds(ranges, i, cp)
}

/// The index of the mapping entry for `cp`: the range's offset for a single
/// range, the offset plus the codepoint's position in the range otherwise.
pub open spec fn entry_of(ranges: Seq<RangeEntry>, cp: int) -> int {
    let r = ranges[range_of(ranges, cp)];
    if r.single() {
        r.offset()
    } else {
        r.offset() + (cp - r.base)
    }
}

/// Every range's mapping entries exist.
pub open spec fn ranges_in_bounds(ranges: Seq<RangeEntry>, n_mappings: int) -> bool {
    forall|i: int| 0 <= i < ranges.len() ==> #[trigger] range_in_bounds(ranges, n_mappings, i)
}

/// Every replacement text lies inside the string table.
pub open spec fn mappings_in_bounds(mappings: Seq<Mapping>, n_strings: int) -> bool {
    forall|k: int| 0 <= k < mappings.len() ==> mapping_in_bounds(#[trigger] mappings[k], n_strings)
}

/// The table says of every fast-path codepoint that it is valid, so that
/// to skip the lookup for them changes nothing.
pub open spec fn fast_path_valid(ranges: Seq<RangeEntry>, mappings: Seq<Mapping>) -> bool {
    forall|c: char| #[trigger]
        is_fast_path(c) ==> mappings[entry_of(ranges, c as int)] == Mapping::Valid
}

/// What index, entries and string table must satisfy to make a table.
pub open spec fn parts_wf(
    ranges: Seq<RangeEntry>,
    mappings: Seq<Mapping>,
    strings: Seq<char>,
) -> bool {
    &&& ranges_partition(ranges)
    &&& ranges_in_bounds(ranges, mappings.len() as int)
    &&& mappings_in_bounds(mappings, strings.len() as int)
    &&& fast_path_valid(ranges, mappings)
}

/// In a strictly ascending index at most one range holds a codepoint.
pub proof fn lemma_range_unique(ranges: Seq<RangeEntry>, i: int, j: int, cp: int)
    requires
        ranges_partition(ranges),
        range_holds(ranges, i, cp),
        range_holds(ranges, j, cp),
    ensures
        i == j,
{
    if i < j {
        assert(ranges[i + 1].base <= ranges[j].base);
    }
    if j < i {
        assert(ranges[j + 1].base <= ranges[i].base);
    }
}

/// The range that holds a codepoint determines its mapping entry, and that
/// entry exists.
pub proof fn lemma_entry_of(ranges: Seq<RangeEntry>, n_mappings: int, i: int, cp: int)
    requires
        ranges_partition(ranges),
        range_holds(ranges, i, cp),
        range_in_bounds(ranges, n_mappings, i),
        cp <= MAX_CODEPOINT,
    ensures
        range_of(ranges, cp) == i,
        0 <= entry_of(ranges, cp) < n_mappings,
{
    lemma_range_unique(ranges, i, range_of(ranges, cp), cp);
    let x = ranges[i].packed;
    assert(x & !SINGLE_MARKER >= 0);
}

/// Some range holds each codepoint: the greatest of the first `n` ranges
/// whose first codepoint is not above `cp`, where range `n` starts above it.
pub proof fn lemma_range_exists(ranges: Seq<RangeEntry>, cp: int, n: int) -> (i: int)
    requires
        ranges_partition(ranges),
        0 <= cp,
        1 <= n <= ranges.len(),
        n < ranges.len() ==> cp < ranges[n].base,
    ensures
        range_holds(ranges, i, cp),
    decreases n,
{
    if ranges[n - 1].base <= cp {
        n - 1
    } else {
        lemma_range_exists(ranges, cp, n - 1)
    }
}

/// Finds the range that holds `cp` by binary search.
fn find_range(ranges: &Vec<RangeEntry>, cp: u32) -> (idx: usize)
    requires
        ranges_partition(ranges@),
    ensures
        range_holds(ranges@, idx as int, cp as int),
{
    let mut lo: usize = 0;
    let mut hi: usize = ranges.len();
    while hi - lo > 1
        invariant
            ranges_partition(ranges@),
            0 <= lo < hi <= ranges.len(),
            ranges[lo as int].base <= cp,
            hi < ranges.len() ==> cp < ranges[hi as int].base,
        decreases hi - lo,
    {
        let mid: usize = lo + (hi - lo) / 2;
        if ranges[mid].base <= cp {
            lo = mid;
        } else {
            hi = mid;
        }
    }
    lo
}

/// Looks up the mapping entry of `cp` in an index and its entries.
fn lookup_entry<'a>(ranges: &Vec<RangeEntry>, mappings: &'a Vec<Mapping>, cp: u32) -> (m: &'a Mapping)
    requires
        ranges_partition(ranges@),
        ranges_in_bounds(ranges@, mappings@.len() as int),
        cp <= MAX_CODEPOINT,
    ensures
        0 <= entry_of(ranges@, cp as int) < mappings@.len(),
        *m == mappings@[entry_of(ranges@, cp as int)],
{
    let idx: usize = find_range(ranges, cp);
    let base: u32 = ranges[idx].base;
    let x: u16 = ranges[idx].packed;
    let single: bool = (x & SINGLE_MARKER) != 0;
    let offset: u16 = !SINGLE_MARKER & x;
    proof {
        assert(range_in_bounds(ranges@, mappings@.len() as int, idx as int));
        lemma_entry_of(ranges@, mappings@.len() as int, idx as int, cp as int);
        assert(!SINGLE_MARKER & x == x & !SINGLE_MARKER) by (bit_vector);
    }
    if single {
        &mappings[offset as usize]
    } else {
        &mappings[offset as usize + (cp - base) as usize]
    }
}

/// Whether the index starts at codepoint zero and ascends strictly.
fn check_ranges(ranges: &Vec<RangeEntry>) -> (ok: bool)
    ensures
        ok == ranges_partition(ranges@),
{
    if ranges.len() == 0 || ranges[0].base != 0 {
        return false;
    }
    let mut i: usize = 1;
    while i < ranges.len()
        invariant
            1 <= i <= ranges.len(),
            ranges[0].base == 0,
            forall|a: int, b: int| 0 <= a < b < i ==> ranges[a].base < ranges[b].base,
        decreases ranges.len() - i,
    {
        if ranges[i - 1].base >= ranges[i].base {
            return false;
        }
        i = i + 1;
    }
    true
}

/// Whether every range's mapping entries exist among `n_mappings`.
fn check_range_bounds(ranges: &Vec<RangeEntry>, n_mappings: usize) -> (ok: bool)
    ensures
        ok == ranges_in_bounds(ranges@, n_mappings as int),
{
    let mut i: usize = 0;
    while i < ranges.len()
        invariant
            0 <= i <= ranges.len(),
            forall|a: int| 0 <= a < i ==> #[trigger] range_in_bounds(ranges@, n_mappings as int, a),
        decreases ranges.len() - i,
    {
        let base: u32 = ranges[i].base;
        let x: u16 = ranges[i].packed;
        let offset: u16 = x & !SINGLE_MARKER;
        let fits: bool = if (x & SINGLE_MARKER) != 0 {
            (offset as u64) < (n_mappings as u64)
        } else {
            let next: u64 = if i + 1 < ranges.len() {
                ranges[i + 1].base as u64
            } else {
                MAX_CODEPOINT as u64 + 1
            };
            next <= base as u64 || offset as u64 + (next - 1 - base as u64) < n_mappings as u64
        };
        if !fits {
            assert(!range_in_bounds(ranges@, n_mappings as int, i as int));
            return false;
        }
        assert(range_in_bounds(ranges@, n_mappings as int, i as int));
        i = i + 1;
    }
    true
}

/// Whether every replacement text lies among `n_strings` characters.
fn check_mappings(mappings: &Vec<Mapping>, n_strings: usize) -> (ok: bool)
    ensures
        ok == mappings_in_bounds(mappings@, n_strings as int),
{
    let mut k: usize = 0;
    while k < mappings.len()
        invariant
            0 <= k <= mappings.len(),
            forall|a: int| 0 <= a < k ==> mapping_in_bounds(#[trigger] mappings[a], n_strings as int),
        decreases mappings.len() - k,
    {
        match &mappings[k] {
            Mapping::Mapped(slice) | Mapping::DisallowedStd3Mapped(slice) => {
                let end: u64 = slice.start_hi as u64 * 256 + slice.start_lo as u64
                    + slice.len as u64;
                if end > n_strings as u64 {
                    assert(!mapping_in_bounds(mappings[k as int], n_strings as int));
                    return false;
                }
            },
            _ => {},
        }
        k = k + 1;
    }
    true
}

/// Whether the table says of every fast-path codepoint that it is valid.
fn check_fast_path(ranges: &Vec<RangeEntry>, mappings: &Vec<Mapping>) -> (ok: bool)
    requires
        ranges_partition(ranges@),
        ranges_in_bounds(ranges@, mappings@.len() as int),
    ensures
        ok == fast_path_valid(ranges@, mappings@),
{
    let mut code: u8 = 0;
    while code < 128
        invariant
            ranges_partition(ranges@),
            ranges_in_bounds(ranges@, mappings@.len() as int),
            code <= 128,
            forall|c: char| #[trigger]
                is_fast_path(c) && (c as u32) < code ==> mappings[entry_of(ranges@, c as int)]
                    == Mapping::Valid,
        decreases 128 - code,
    {
        let c: char = code as char;
        if is_fast_path_char(c) {
            let valid: bool = match lookup_entry(ranges, mappings, code as u32) {
                Mapping::Valid => true,
                _ => false,
            };
            if !valid {
                assert(is_fast_path(c) && mappings[entry_of(ranges@, c as int)] != Mapping::Valid);
                return false;
            }
        }
        code = code + 1;
    }
    true
}

impl MappingTable {
    /// The range index.
    pub closed spec fn ranges(&self) -> Seq<RangeEntry> {
        self.ranges@
    }

    /// The mapping entries.
    pub closed spec fn mappings(&self) -> Seq<Mapping> {
        self.mappings@
    }

    /// The string table.
    pub closed spec fn strings(&self) -> Seq<char> {
        self.strings@
    }

    /// The table's invariant: the ranges partition the codepoints, every
    /// codepoint has a mapping entry, every replacement text lies in the
    /// string table, and the fast-path codepoints are valid.
    pub open spec fn wf(&self) -> bool {
        parts_wf(self.ranges(), self.mappings(), self.strings())
    }

    /// Makes a table of a range index, mapping entries and a string table,
    /// if they fit together.
    pub fn new(ranges: Vec<RangeEntry>, mappings: Vec<Mapping>, strings: Vec<char>) -> (r: Option<
        MappingTable,
    >)
        ensures
            r is Some <==> parts_wf(ranges@, mappings@, strings@),
            r matches Some(t) ==> t.wf() && t.ranges() == ranges@ && t.mappings() == mappings@
                && t.strings() == strings@,
    {
        if check_ranges(&ranges) && check_range_bounds(&ranges, mappings.len()) && check_mappings(
            &mappings,
            strings.len(),
        ) && check_fast_path(&ranges, &mappings) {
            Some(MappingTable { ranges, mappings, strings })
        } else {
            None
        }
    }

    /// What the table says of `c`.
    pub open spec fn lookup(&self, c: char) -> Mapping {
        self.mappings()[entry_of(self.ranges(), c as int)]
    }

    /// The replacement text that `slice` refers to.
    pub open spec fn text(&self, slice: StringTableSlice) -> Seq<char> {
        self.strings().subrange(slice.start(), slice.end())
    }
}

/// Whether `c` is mapped to itself without a lookup.
pub fn is_fast_path_char(c: char) -> (b: bool)
    ensures
        b == is_fast_path(c),
{
    c == '.' || c == '-' || ('a' <= c && c <= 'z') || ('0' <= c && c <= '9')
}

/// Returns the replacement text that `slice` refers to, as a view into the
/// string table.
pub fn decode_slice<'a>(table: &'a MappingTable, slice: &StringTableSlice) -> (text: &'a [char])
    requires
        slice.end() <= table.strings().len(),
    ensures
        text@ == table.text(*slice),
{
    let lo: usize = slice.start_lo as usize;
    let hi: usize = slice.start_hi as usize;
    let start: usize = hi * 256 + lo;
    let len: usize = slice.len as usize;
    slice_subrange(table.strings.as_slice(), start, start + len)
}

/// Returns the mapping entry of `codepoint`: the range that holds it is
/// found by binary search, and its packed value says where the entry is.
pub fn find_char(table: &MappingTable, codepoint: char) -> (m: &Mapping)
    requires
        table.wf(),
    ensures
        *m == table.lookup(codepoint),
        is_fast_path(codepoint) ==> *m == Mapping::Valid,
        mapping_in_bounds(*m, table.strings().len() as int),
{
    lookup_entry(&table.ranges, &table.mappings, codepoint as u32)
}

/// A well-formed table has a mapping entry for every codepoint: some range
/// holds it, and the entry that the range points at exists.
pub proof fn lemma_lookup_defined(table: &MappingTable, c: char)
    requires
        table.wf(),
    ensures
        range_holds(table.ranges(), range_of(table.ranges(), c as int), c as int),
        0 <= entry_of(table.ranges(), c as int) < table.mappings().len(),
        mapping_in_bounds(table.lookup(c), table.strings().len() as int),
{
    let ranges = table.ranges();
    let i = lemma_range_exists(ranges, c as int, ranges.len() as int);
    assert(range_in_bounds(ranges, table.mappings().len() as int, i));
    lemma_entry_of(ranges, table.mappings().len() as int, i, c as int);
}

} // verus!
