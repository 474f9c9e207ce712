//! The mapper: rewrites a sequence of codepoints against a mapping table,
//! one output character per step.

use vstd::prelude::*;
use crate::table::{
    decode_slice, find_char, is_fast_path, is_fast_path_char, lemma_lookup_defined, Mapping,
    MappingTable, StringTableSlice,
};

verus! {

/// What stands in the output for a codepoint that is disallowed, and for an
/// ignored one where those are reported.
pub const REPLACEMENT_CHARACTER: char = '\u{FFFD}';

/// What one codepoint contributes to the output.
pub open spec fn map_char(table: &MappingTable, c: char, ignored_as_errors: bool) -> Seq<char> {
    if is_fast_path(c) {
        seq![c]
    } else {
        match table.lookup(c) {
            Mapping::Valid
            | Mapping::Deviation
            | Mapping::DisallowedStd3Valid
            | Mapping::DisallowedIdna2008 => seq![c],
            Mapping::Ignored => if ignored_as_errors {
                seq![REPLACEMENT_CHARACTER]
            } else {
                Seq::empty()
            },
            Mapping::Mapped(slice) | Mapping::DisallowedStd3Mapped(slice) => table.text(slice),
            Mapping::Disallowed => seq![REPLACEMENT_CHARACTER],
        }
    }
}

/// The mapped form of a sequence: the contributions of its codepoints, in
/// order.
pub open spec fn map_seq(table: &MappingTable, s: Seq<char>, ignored_as_errors: bool) -> Seq<char>
    decreases s.len(),
{
    if s.len() == 0 {
        Seq::empty()
    } else {
        map_char(table, s[0], ignored_as_errors) + map_seq(table, s.drop_first(), ignored_as_errors)
    }
}

/// How many codepoints at the start of `s` contribute nothing.
pub open spec fn silent_prefix(table: &MappingTable, s: Seq<char>, ignored_as_errors: bool) -> nat
    decreases s.len(),
{
    if s.len() == 0 || map_char(table, s[0], ignored_as_errors).len() > 0 {
        0
    } else {
        1 + silent_prefix(table, s.drop_first(), ignored_as_errors)
    }
}

/// The mapped form of what follows position `i` is the contribution of the
/// codepoint at `i`, then the mapped form of what follows it.
pub proof fn lemma_map_seq_step(table: &MappingTable, s: Seq<char>, i: int, ignored_as_errors: bool)
    requires
        0 <= i < s.len(),
    ensures
        map_seq(table, s.skip(i), ignored_as_errors) == map_char(table, s[i], ignored_as_errors)
            + map_seq(table, s.skip(i + 1), ignored_as_errors),
{
    assert(s.skip(i).drop_first() =~= s.skip(i + 1));
}

/// A lazy transformer of a sequence of codepoints into its mapped form.
pub struct Mapper<'a> {
    table: &'a MappingTable,
    chars: Vec<char>,
    pos: usize,
    slice: Option<&'a [char]>,
    slice_pos: usize,
    ignored_as_errors: bool,
}

impl<'a> Mapper<'a> {
    /// The table that the mapper maps against.
    pub closed spec fn table(&self) -> &MappingTable {
        self.table
    }

    /// Whether an ignored codepoint is reported in the output.
    pub closed spec fn ignored_as_errors(&self) -> bool {
        self.ignored_as_errors
    }

    /// The input that has not been consumed yet.
    pub closed spec fn unread(&self) -> Seq<char> {
        self.chars@.skip(self.pos as int)
    }

    /// What is left of the replacement text that is being emitted.
    pub closed spec fn pending(&self) -> Seq<char> {
        match self.slice {
            Some(s) => s@.skip(self.slice_pos as int),
            None => Seq::empty(),
        }
    }

    /// The mapper's invariant: its table is well formed and its cursors lie
    /// inside what they walk.
    pub closed spec fn wf(&self) -> bool {
        &&& self.table.wf()
        &&& self.pos <= self.chars@.len()
        &&& match self.slice {
            Some(s) => self.slice_pos <= s@.len(),
            None => true,
        }
    }

    /// The output that is still to come: the rest of the pending
    /// replacement, then the mapped form of the unread input.
    pub open spec fn output(&self) -> Seq<char> {
        self.pending() + map_seq(self.table(), self.unread(), self.ignored_as_errors())
    }

    /// Makes a mapper of `delegate` against `table`.
    pub fn new(table: &'a MappingTable, delegate: Vec<char>, ignored_as_errors: bool) -> (m: Self)
        requires
            table.wf(),
        ensures
            m.wf(),
            m.table() == table,
            m.ignored_as_errors() == ignored_as_errors,
            m.unread() == delegate@,
            m.pending() == Seq::<char>::empty(),
            m.output() == map_seq(table, delegate@, ignored_as_errors),
    {
        let m = Mapper { table, chars: delegate, pos: 0, slice: None, slice_pos: 0, ignored_as_errors };
        proof {
            assert(m.unread() =~= delegate@);
            assert(m.output() =~= map_seq(table, delegate@, ignored_as_errors));
        }
        m
    }

    /// Returns the next character of the output, or `None` when the input
    /// is exhausted and no replacement is pending.
    ///
    /// While a replacement is pending, a step emits its next character and
    /// consumes no input. Otherwise a step consumes the codepoints that
    /// contribute nothing and the first one that contributes something,
    /// emits the first character of that contribution and keeps the rest
    /// of it pending.
    pub fn next(&mut self) -> (r: Option<char>)
        requires
            old(self).wf(),
        ensures
            final(self).wf(),
            final(self).table() == old(self).table(),
            final(self).ignored_as_errors() == old(self).ignored_as_errors(),
            match r {
                Some(c) => old(self).output().len() > 0 && c == old(self).output()[0]
                    && final(self).output() == old(self).output().drop_first(),
                None => old(self).output().len() == 0 && final(self).output().len() == 0,
            },
            old(self).pending().len() > 0 ==> {
                &&& r == Some(old(self).pending()[0])
                &&& final(self).pending() == old(self).pending().drop_first()
                &&& final(self).unread() == old(self).unread()
            },
            old(self).pending().len() == 0 ==> ({
                let k = silent_prefix(
                    old(self).table(),
                    old(self).unread(),
                    old(self).ignored_as_errors(),
                ) as int;
                if k >= old(self).unread().len() {
                    &&& r is None
                    &&& final(self).unread().len() == 0
                    &&& final(self).pending().len() == 0
                } else {
                    let emitted = map_char(
                        old(self).table(),
                        old(self).unread()[k],
                        old(self).ignored_as_errors(),
                    );
                    &&& emitted.len() > 0
                    &&& r == Some(emitted[0])
                    &&& final(self).pending() == emitted.drop_first()
                    &&& final(self).unread() == old(self).unread().skip(k + 1)
                }
            }),
    {
        let ghost table = self.table;
        let ghost flag = self.ignored_as_errors;
        let ghost start = self.unread();
        let ghost skipped: int = 0;
        loop
            invariant
                self.wf(),
                self.table == old(self).table,
                self.ignored_as_errors == old(self).ignored_as_errors,
                self.output() == old(self).output(),
                table == self.table,
                flag == self.ignored_as_errors,
                start == old(self).unread(),
                self.chars@ == old(self).chars@,
                skipped >= 0,
                self.pos == old(self).pos + skipped,
                old(self).pending().len() > 0 ==> skipped == 0 && self.pending() == old(
                    self,
                ).pending(),
                old(self).pending().len() == 0 ==> (if self.pending().len() == 0 {
                    silent_prefix(table, start, flag) == skipped + silent_prefix(
                        table,
                        self.unread(),
                        flag,
                    )
                } else {
                    &&& skipped >= 1
                    &&& silent_prefix(table, start, flag) == skipped - 1
                    &&& self.pending() == map_char(table, self.chars@[self.pos - 1], flag)
                }),
            decreases self.chars.len() - self.pos,
        {
            if let Some(s) = self.slice {
                if self.slice_pos < s.len() {
                    let c = s[self.slice_pos];
                    self.slice_pos = self.slice_pos + 1;
                    return Some(c);
                }
                self.slice = None;
            }
            if self.pos >= self.chars.len() {
                assert(self.unread().len() == 0);
                return None;
            }
            let codepoint = self.chars[self.pos];
            let ghost before = self.output();
            let ghost rest = map_seq(
                self.table,
                self.chars@.skip(self.pos + 1),
                self.ignored_as_errors,
            );
            proof {
                lemma_map_seq_step(self.table, self.chars@, self.pos as int, self.ignored_as_errors);
                assert(self.unread()[0] == codepoint);
                assert(self.unread().drop_first() =~= self.chars@.skip(self.pos + 1));
            }
            self.pos = self.pos + 1;
            proof {
                skipped = skipped + 1;
                assert(self.output() =~= rest);
                assert(self.unread() =~= start.skip(skipped));
            }
            if is_fast_path_char(codepoint) {
                return Some(codepoint);
            }
            match find_char(self.table, codepoint) {
                Mapping::Valid
                | Mapping::Deviation
                | Mapping::DisallowedStd3Valid
                | Mapping::DisallowedIdna2008 => {
                    return Some(codepoint);
                },
                Mapping::Ignored => {
                    if self.ignored_as_errors {
                        return Some(REPLACEMENT_CHARACTER);
                    }
                    assert(rest =~= before);
                },
                Mapping::Mapped(slice) | Mapping::DisallowedStd3Mapped(slice) => {
                    self.slice = Some(decode_slice(self.table, slice));
                    self.slice_pos = 0;
                    assert(self.pending() =~= self.table.text(*slice));
                },
                Mapping::Disallowed => {
                    return Some(REPLACEMENT_CHARACTER);
                },
            }
        }
    }

    /// Returns all the output that is still to come.
    pub fn collect(self) -> (out: Vec<char>)
        requires
            self.wf(),
        ensures
            out@ == self.output(),
    {
        let mut mapper = self;
        let mut out: Vec<char> = Vec::new();
        loop
            invariant
                mapper.wf(),
                out@ + mapper.output() == self.output(),
            decreases mapper.output().len(),
        {
            let ghost before = mapper.output();
            match mapper.next() {
                Some(c) => {
                    out.push(c);
                    assert(out@ + mapper.output() =~= self.output()) by {
                        assert(before =~= seq![c] + before.drop_first());
                    }
                },
                None => {
                    assert(out@ =~= out@ + mapper.output());
                    return out;
                },
            }
        }
    }
}

/// The codepoints before position `silent_prefix` contribute nothing, the
/// one at that position, if there is one, contributes something, and the
/// mapped form of the sequence is that of what starts there.
pub proof fn lemma_silent_prefix(table: &MappingTable, s: Seq<char>, ignored_as_errors: bool)
    ensures
        silent_prefix(table, s, ignored_as_errors) <= s.len(),
        forall|i: int|
            0 <= i < silent_prefix(table, s, ignored_as_errors) ==> (#[trigger] map_char(
                table,
                s[i],
                ignored_as_errors,
            )).len() == 0,
        silent_prefix(table, s, ignored_as_errors) < s.len() ==> map_char(
            table,
            s[silent_prefix(table, s, ignored_as_errors) as int],
            ignored_as_errors,
        ).len() > 0,
        map_seq(table, s, ignored_as_errors) == map_seq(
            table,
            s.skip(silent_prefix(table, s, ignored_as_errors) as int),
            ignored_as_errors,
        ),
    decreases s.len(),
{
    let k = silent_prefix(table, s, ignored_as_errors) as int;
    if s.len() == 0 || map_char(table, s[0], ignored_as_errors).len() > 0 {
        assert(s.skip(0) =~= s);
    } else {
        let rest = s.drop_first();
        lemma_silent_prefix(table, rest, ignored_as_errors);
        assert forall|i: int| 0 <= i < k implies (#[trigger] map_char(
            table,
            s[i],
            ignored_as_errors,
        )).len() == 0 by {
            if i > 0 {
                assert(s[i] == rest[i - 1]);
            }
        }
        assert(k < s.len() ==> s[k] == rest[k - 1]);
        assert(s.skip(k) =~= rest.skip(k - 1));
        assert(map_seq(table, s, ignored_as_errors) =~= map_seq(table, rest, ignored_as_errors));
    }
}

/// A fast-path codepoint is valid in the table and is mapped to itself.
pub proof fn lemma_fast_path_unchanged(table: &MappingTable, c: char, ignored_as_errors: bool)
    requires
        table.wf(),
        is_fast_path(c),
    ensures
        table.lookup(c) == Mapping::Valid,
        map_char(table, c, ignored_as_errors) == seq![c],
{
}

/// The mapped form of the empty sequence is empty.
pub proof fn lemma_map_empty(table: &MappingTable, ignored_as_errors: bool)
    ensures
        map_seq(table, Seq::<char>::empty(), ignored_as_errors) == Seq::<char>::empty(),
{
}

/// The mapped form of two sequences joined is their mapped forms joined.
pub proof fn lemma_map_concat(
    table: &MappingTable,
    a: Seq<char>,
    b: Seq<char>,
    ignored_as_errors: bool,
)
    ensures
        map_seq(table, a + b, ignored_as_errors) == map_seq(table, a, ignored_as_errors) + map_seq(
            table,
            b,
            ignored_as_errors,
        ),
    decreases a.len(),
{
    if a.len() == 0 {
        assert(a + b =~= b);
        assert(map_seq(table, a, ignored_as_errors) + map_seq(table, b, ignored_as_errors)
            =~= map_seq(table, b, ignored_as_errors));
    } else {
        lemma_map_concat(table, a.drop_first(), b, ignored_as_errors);
        assert((a + b).drop_first() =~= a.drop_first() + b);
        assert(map_seq(table, a + b, ignored_as_errors) =~= map_seq(table, a, ignored_as_errors)
            + map_seq(table, b, ignored_as_errors));
    }
}

/// A sequence of fast-path codepoints is its own mapped form. So to map
/// again an output that holds only such codepoints changes nothing.
pub proof fn lemma_map_fast_path_identity(
    table: &MappingTable,
    s: Seq<char>,
    ignored_as_errors: bool,
)
    requires
        forall|i: int| 0 <= i < s.len() ==> is_fast_path(#[trigger] s[i]),
    ensures
        map_seq(table, s, ignored_as_errors) == s,
    decreases s.len(),
{
    if s.len() > 0 {
        let rest = s.drop_first();
        assert forall|i: int| 0 <= i < rest.len() implies is_fast_path(#[trigger] rest[i]) by {
            assert(rest[i] == s[i + 1]);
        }
        lemma_map_fast_path_identity(table, rest, ignored_as_errors);
        assert(seq![s[0]] + rest =~= s);
    } else {
        assert(map_seq(table, s, ignored_as_errors) =~= s);
    }
}

/// A codepoint that the table leaves as it is contributes itself.
pub proof fn lemma_kept_contribution(table: &MappingTable, c: char, ignored_as_errors: bool)
    requires
        table.lookup(c).keeps(),
    ensures
        map_char(table, c, ignored_as_errors) == seq![c],
{
}

/// An ignored codepoint contributes nothing where ignored codepoints are
/// dropped, and one replacement character where they are reported.
pub proof fn lemma_ignored_contribution(table: &MappingTable, c: char)
    requires
        table.wf(),
        table.lookup(c) == Mapping::Ignored,
    ensures
        map_char(table, c, false) == Seq::<char>::empty(),
        map_char(table, c, true) == seq![REPLACEMENT_CHARACTER],
{
}

/// A disallowed codepoint contributes one replacement character, whether
/// ignored codepoints are reported or not.
pub proof fn lemma_disallowed_contribution(table: &MappingTable, c: char, ignored_as_errors: bool)
    requires
        table.wf(),
        table.lookup(c) == Mapping::Disallowed,
    ensures
        map_char(table, c, ignored_as_errors) == seq![REPLACEMENT_CHARACTER],
{
}

/// A mapped codepoint contributes its replacement text: as many characters
/// as the text's reference says, none where that is zero, and all of them,
/// in order, before what the next codepoints contribute.
pub proof fn lemma_mapped_contribution(
    table: &MappingTable,
    s: Seq<char>,
    slice: StringTableSlice,
    ignored_as_errors: bool,
)
    requires
        table.wf(),
        s.len() > 0,
        table.lookup(s[0]).slice() == Some(slice),
    ensures
        map_char(table, s[0], ignored_as_errors) == table.text(slice),
        table.text(slice).len() == slice.len,
        slice.len == 0 ==> map_char(table, s[0], ignored_as_errors) == Seq::<char>::empty(),
        map_seq(table, s, ignored_as_errors) == table.text(slice) + map_seq(
            table,
            s.drop_first(),
            ignored_as_errors,
        ),
{
    lemma_lookup_defined(table, s[0]);
    assert(slice.len == 0 ==> table.text(slice) =~= Seq::<char>::empty());
}

} // verus!
