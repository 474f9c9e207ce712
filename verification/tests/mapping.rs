use idna_mapping::mapper::{Mapper, REPLACEMENT_CHARACTER};
use idna_mapping::table::{
    decode_slice, find_char, is_fast_path_char, Mapping, MappingTable, RangeEntry,
    StringTableSlice, SINGLE_MARKER,
};

const DISALLOWED: u16 = 0;
const VALID: u16 = 1;
const UPPER: u16 = 2;
const IGNORED: u16 = 28;
const DOUBLE_S: u16 = 29;
const NOTHING: u16 = 30;
const ARROW: u16 = 31;

fn single(base: u32, entry: u16) -> RangeEntry {
    RangeEntry { base, packed: SINGLE_MARKER | entry }
}

fn text(start: u16, len: u8) -> Mapping {
    Mapping::Mapped(StringTableSlice {
        start_lo: (start & 0xff) as u8,
        start_hi: (start >> 8) as u8,
        len,
    })
}

fn folding_ranges() -> Vec<RangeEntry> {
    vec![
        single(0x0000, DISALLOWED),
        single(0x002d, VALID),
        single(0x002f, DISALLOWED),
        single(0x0030, VALID),
        single(0x003a, DISALLOWED),
        RangeEntry { base: 0x0041, packed: UPPER },
        single(0x005b, DISALLOWED),
        single(0x0061, VALID),
        single(0x007b, DISALLOWED),
        single(0x00ad, IGNORED),
        single(0x00ae, VALID),
        single(0x1e9e, DOUBLE_S),
        single(0x1e9f, VALID),
        single(0x2192, ARROW),
        single(0x2193, VALID),
        single(0xfe00, NOTHING),
        single(0xfe10, DISALLOWED),
    ]
}

fn folding_mappings() -> Vec<Mapping> {
    let mut mappings = vec![Mapping::Disallowed, Mapping::Valid];
    for i in 0..26u16 {
        mappings.push(text(i, 1));
    }
    mappings.push(Mapping::Ignored);
    mappings.push(text(26, 2));
    mappings.push(text(28, 0));
    mappings.push(text(28, 3));
    mappings
}

fn folding_strings() -> Vec<char> {
    "abcdefghijklmnopqrstuvwxyzss-\u{e9}>".chars().collect()
}

fn folding_table() -> MappingTable {
    MappingTable::new(folding_ranges(), folding_mappings(), folding_strings())
        .expect("the parts fit together")
}

fn map(input: &str, ignored_as_errors: bool) -> String {
    let table = folding_table();
    let mapper = Mapper::new(&table, input.chars().collect(), ignored_as_errors);
    mapper.collect().into_iter().collect()
}

#[test]
fn mapping_fast_path() {
    let table = folding_table();
    assert!(matches!(find_char(&table, '-'), &Mapping::Valid));
    assert!(matches!(find_char(&table, '.'), &Mapping::Valid));
    for c in &['0', '1', '2', '3', '4', '5', '6', '7', '8', '9'] {
        assert!(matches!(find_char(&table, *c), &Mapping::Valid));
    }
    for c in &[
        'a', 'b', 'c', 'd', 'e', 'f', 'g', 'h', 'i', 'j', 'k', 'l', 'm', 'n', 'o', 'p', 'q',
        'r', 's', 't', 'u', 'v', 'w', 'x', 'y', 'z',
    ] {
        assert!(matches!(find_char(&table, *c), &Mapping::Valid));
    }
}

#[test]
fn fast_path_set_is_exact() {
    let mut members = String::new();
    for code in 0..0x250u32 {
        let c = char::from_u32(code).unwrap();
        if is_fast_path_char(c) {
            members.push(c);
        }
    }
    assert_eq!(members, "-.0123456789abcdefghijklmnopqrstuvwxyz");
}

#[test]
fn fast_path_codepoints_are_emitted_unchanged() {
    let all = "-.0123456789abcdefghijklmnopqrstuvwxyz";
    assert_eq!(map(all, false), all);
    assert_eq!(map(all, true), all);
}

#[test]
fn lookup_is_defined_for_every_codepoint() {
    let table = folding_table();
    let mut seen: u32 = 0;
    for code in 0..=0x10ffffu32 {
        if let Some(c) = char::from_u32(code) {
            let expected_valid = matches!(code, 0x2d..=0x2e | 0x30..=0x39 | 0x61..=0x7a
                | 0xae..=0x1e9d | 0x1e9f..=0x2191 | 0x2193..=0xfdff);
            assert_eq!(matches!(find_char(&table, c), &Mapping::Valid), expected_valid);
            seen += 1;
        }
    }
    assert_eq!(seen, 0x110000 - 0x800);
}

#[test]
fn lookup_finds_the_containing_range() {
    let table = folding_table();
    assert_eq!(*find_char(&table, '\u{0}'), Mapping::Disallowed);
    assert_eq!(*find_char(&table, ','), Mapping::Disallowed);
    assert_eq!(*find_char(&table, '-'), Mapping::Valid);
    assert_eq!(*find_char(&table, '/'), Mapping::Disallowed);
    assert_eq!(*find_char(&table, '@'), Mapping::Disallowed);
    assert_eq!(*find_char(&table, '['), Mapping::Disallowed);
    assert_eq!(*find_char(&table, '\u{ac}'), Mapping::Disallowed);
    assert_eq!(*find_char(&table, '\u{ad}'), Mapping::Ignored);
    assert_eq!(*find_char(&table, '\u{ae}'), Mapping::Valid);
    assert_eq!(*find_char(&table, '\u{fe0f}'), text(28, 0));
    assert_eq!(*find_char(&table, '\u{fe10}'), Mapping::Disallowed);
    assert_eq!(*find_char(&table, '\u{10ffff}'), Mapping::Disallowed);
}

#[test]
fn lookup_in_a_dense_range_is_per_codepoint() {
    let table = folding_table();
    assert_eq!(*find_char(&table, 'A'), text(0, 1));
    assert_eq!(*find_char(&table, 'B'), text(1, 1));
    assert_eq!(*find_char(&table, 'M'), text(12, 1));
    assert_eq!(*find_char(&table, 'Z'), text(25, 1));
}

#[test]
fn decode_slice_views_the_string_table() {
    let table = folding_table();
    let m = StringTableSlice { start_lo: 12, start_hi: 0, len: 1 };
    assert_eq!(decode_slice(&table, &m), &['m']);
    let ss = StringTableSlice { start_lo: 26, start_hi: 0, len: 2 };
    assert_eq!(decode_slice(&table, &ss), &['s', 's']);
    let none = StringTableSlice { start_lo: 28, start_hi: 0, len: 0 };
    assert!(decode_slice(&table, &none).is_empty());
    let whole = StringTableSlice { start_lo: 0, start_hi: 0, len: 31 };
    assert_eq!(decode_slice(&table, &whole).len(), 31);
}

#[test]
fn decode_slice_joins_the_high_and_low_byte() {
    let mut strings: Vec<char> = Vec::new();
    for i in 0..600u32 {
        strings.push(char::from_u32(0x4e00 + i).unwrap());
    }
    let mappings = vec![Mapping::Valid, text(0x0203, 2)];
    let ranges = vec![single(0, VALID - 1), single(0x80, 1)];
    let table = MappingTable::new(ranges, mappings, strings).unwrap();
    let slice = StringTableSlice { start_lo: 0x03, start_hi: 0x02, len: 2 };
    assert_eq!(decode_slice(&table, &slice), &['\u{5003}', '\u{5004}']);
    assert_eq!(*find_char(&table, '\u{80}'), Mapping::Mapped(slice));
    let mapper = Mapper::new(&table, vec!['a', '\u{80}', 'b'], false);
    assert_eq!(mapper.collect(), vec!['a', '\u{5003}', '\u{5004}', 'b']);
}

#[test]
fn empty_input_yields_empty_output() {
    assert_eq!(map("", false), "");
    assert_eq!(map("", true), "");
    let table = folding_table();
    let mut mapper = Mapper::new(&table, Vec::new(), false);
    assert_eq!(mapper.next(), None);
    assert_eq!(mapper.next(), None);
}

#[test]
fn mapping_twice_changes_nothing_more() {
    let once = map("a.EXAMPLE-1", false);
    assert_eq!(map(&once, false), once);
    assert_eq!(map("xn--abc.0-9", true), "xn--abc.0-9");
}

#[test]
fn ignored_is_dropped_or_reported() {
    assert_eq!(map("a\u{ad}b", false), "ab");
    assert_eq!(map("a\u{ad}b", true), "a\u{fffd}b");
    assert_eq!(map("\u{ad}\u{ad}", false), "");
    assert_eq!(map("\u{ad}\u{ad}", true), "\u{fffd}\u{fffd}");
}

#[test]
fn disallowed_yields_one_replacement_character() {
    assert_eq!(REPLACEMENT_CHARACTER, '\u{fffd}');
    assert_eq!(map("a b", false), "a\u{fffd}b");
    assert_eq!(map("a b", true), "a\u{fffd}b");
    assert_eq!(map("\u{10ffff}", false), "\u{fffd}");
}

#[test]
fn valid_codepoints_outside_the_fast_path_are_kept() {
    assert_eq!(map("\u{e9}t\u{e9}", false), "\u{e9}t\u{e9}");
    assert_eq!(map("\u{4e2d}\u{6587}", true), "\u{4e2d}\u{6587}");
}

#[test]
fn mapped_to_nothing_contributes_nothing() {
    assert_eq!(map("a\u{fe00}b", false), "ab");
    assert_eq!(map("a\u{fe00}b", true), "ab");
    assert_eq!(map("\u{fe0f}", true), "");
}

#[test]
fn mapped_to_many_is_drained_in_order() {
    assert_eq!(map("a\u{1e9e}b", false), "assb");
    assert_eq!(map("\u{2192}x", false), "-\u{e9}>x");
    let table = folding_table();
    let mut mapper = Mapper::new(&table, vec!['\u{2192}', 'Q', '\u{ad}', '\u{1e9e}'], false);
    assert_eq!(mapper.next(), Some('-'));
    assert_eq!(mapper.next(), Some('\u{e9}'));
    assert_eq!(mapper.next(), Some('>'));
    assert_eq!(mapper.next(), Some('q'));
    assert_eq!(mapper.next(), Some('s'));
    assert_eq!(mapper.next(), Some('s'));
    assert_eq!(mapper.next(), None);
    assert_eq!(mapper.next(), None);
}

#[test]
fn collect_gives_what_is_left() {
    let table = folding_table();
    let mut mapper = Mapper::new(&table, vec!['\u{1e9e}', 'A'], false);
    assert_eq!(mapper.next(), Some('s'));
    assert_eq!(mapper.collect(), vec!['s', 'a']);
}

#[test]
fn example_is_folded_to_lower_case() {
    assert_eq!(map("a.EXAMPLE-1", false), "a.example-1");
    assert_eq!(map("a.EXAMPLE-1", true), "a.example-1");
}

#[test]
fn table_of_fitting_parts_is_accepted() {
    assert!(MappingTable::new(folding_ranges(), folding_mappings(), folding_strings()).is_some());
    let one = MappingTable::new(vec![single(0, 0)], vec![Mapping::Valid], Vec::new());
    assert!(one.is_some());
}

#[test]
fn table_without_ranges_is_refused() {
    assert!(MappingTable::new(Vec::new(), folding_mappings(), folding_strings()).is_none());
}

#[test]
fn table_that_starts_above_zero_is_refused() {
    let mut ranges = folding_ranges();
    ranges[0].base = 1;
    assert!(MappingTable::new(ranges, folding_mappings(), folding_strings()).is_none());
}

#[test]
fn table_with_unsorted_ranges_is_refused() {
    let mut ranges = folding_ranges();
    ranges.swap(9, 10);
    assert!(MappingTable::new(ranges, folding_mappings(), folding_strings()).is_none());
    let mut twice = folding_ranges();
    twice[10].base = 0x00ad;
    assert!(MappingTable::new(twice, folding_mappings(), folding_strings()).is_none());
}

#[test]
fn table_with_a_missing_entry_is_refused() {
    let mut ranges = folding_ranges();
    ranges[16] = single(0xfe10, 32);
    assert!(MappingTable::new(ranges, folding_mappings(), folding_strings()).is_none());
    let mut dense = folding_ranges();
    dense[15] = RangeEntry { base: 0xfe00, packed: 17 };
    assert!(MappingTable::new(dense, folding_mappings(), folding_strings()).is_none());
    let mut fits = folding_ranges();
    fits[15] = RangeEntry { base: 0xfe00, packed: 16 };
    assert!(MappingTable::new(fits, folding_mappings(), folding_strings()).is_some());
}

#[test]
fn table_with_text_outside_the_string_table_is_refused() {
    let mut mappings = folding_mappings();
    mappings[31] = text(28, 4);
    assert!(MappingTable::new(folding_ranges(), mappings, folding_strings()).is_none());
    let mut strings = folding_strings();
    strings.pop();
    assert!(MappingTable::new(folding_ranges(), folding_mappings(), strings).is_none());
}

#[test]
fn table_that_maps_a_fast_path_codepoint_is_refused() {
    let mut ranges = folding_ranges();
    ranges[7] = single(0x0061, IGNORED);
    assert!(MappingTable::new(ranges, folding_mappings(), folding_strings()).is_none());
    let mut hyphen = folding_ranges();
    hyphen[1].base = 0x002e;
    assert!(MappingTable::new(hyphen, folding_mappings(), folding_strings()).is_none());
}

fn rich_ranges() -> Vec<RangeEntry> {
    vec![
        single(0x0000, 0),
        single(0x005f, 1),
        single(0x0060, 0),
        single(0x00df, 2),
        single(0x00e0, 0),
        single(0x2260, 3),
        single(0x2261, 0),
        single(0x3000, 4),
        single(0x3001, 0),
    ]
}

fn rich_mappings() -> Vec<Mapping> {
    vec![
        Mapping::Valid,
        Mapping::DisallowedStd3Valid,
        Mapping::Deviation,
        Mapping::DisallowedStd3Mapped(StringTableSlice { start_lo: 0, start_hi: 0, len: 2 }),
        Mapping::DisallowedIdna2008,
    ]
}

#[test]
fn richer_profile_keeps_or_replaces() {
    let table = MappingTable::new(rich_ranges(), rich_mappings(), vec!['=', '\u{338}']).unwrap();
    assert_eq!(*find_char(&table, '_'), Mapping::DisallowedStd3Valid);
    assert_eq!(*find_char(&table, '\u{df}'), Mapping::Deviation);
    assert_eq!(*find_char(&table, '\u{3000}'), Mapping::DisallowedIdna2008);
    let input: Vec<char> = "a_\u{df}\u{2260}\u{3000}z".chars().collect();
    let expected: Vec<char> = "a_\u{df}=\u{338}\u{3000}z".chars().collect();
    assert_eq!(Mapper::new(&table, input.clone(), false).collect(), expected);
    assert_eq!(Mapper::new(&table, input, true).collect(), expected);
}

#[test]
fn richer_profile_text_outside_the_string_table_is_refused() {
    assert!(MappingTable::new(rich_ranges(), rich_mappings(), vec!['=']).is_none());
}
