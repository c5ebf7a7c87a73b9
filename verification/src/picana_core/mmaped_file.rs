//! A candump held in memory, with an index from line numbers to the
//! offset and length of each line.

use vstd::prelude::*;
use vstd::slice::slice_subrange;

use hashbrown::HashMap;

use crate::text::{lemma_scan_to, scan_to};

verus! {

/// Offset and length of a line.
pub type Span = (usize, usize);

/// Line number to `(offset, length)` of the line.
pub type LineTable = HashMap<usize, (usize, usize)>;

/// What a line table holds: line number to `(offset, length)`.
pub uninterp spec fn line_entries(m: LineTable) -> Map<usize, (usize, usize)>;

/// `hashbrown::HashMap::new`: an empty map.
#[verifier::external_body]
fn line_table_new() -> (res: LineTable)
    ensures
        line_entries(res) =~= Map::empty(),
{
    HashMap::new()
}

/// `hashbrown::HashMap::insert`: the key now maps to the value, whatever
/// it held before; the other keys are untouched.
#[verifier::external_body]
fn line_table_insert(m: &mut LineTable, key: usize, value: (usize, usize))
    ensures
        line_entries(*final(m)) == line_entries(*old(m)).insert(key, value),
{
    m.insert(key, value);
}

/// `hashbrown::HashMap::get`, with the value copied out.
#[verifier::external_body]
fn line_table_get(m: &LineTable, key: usize) -> (res: Option<(usize, usize)>)
    ensures
        match res {
            Some(v) => line_entries(*m).dom().contains(key) && line_entries(*m)[key] == v,
            None => !line_entries(*m).dom().contains(key),
        },
{
    m.get(&key).copied()
}

/// `hashbrown::HashMap::len`: the number of keys.
#[verifier::external_body]
fn line_table_len(m: &LineTable) -> (res: usize)
    ensures
        res == line_entries(*m).len(),
{
    m.len()
}

/// The position of the last newline at or before `k`, or -1.
pub open spec fn scan_back(s: Seq<u8>, k: int) -> int
    decreases k + 1,
{
    if k < 0 {
        -1
    } else if k < s.len() && s[k] == 10u8 {
        k
    } else {
        scan_back(s, k - 1)
    }
}

/// The first position at or after `k` holding a newline or a NUL byte,
/// or the length when there is none.
pub open spec fn line_stop(s: Seq<u8>, k: int) -> int
    decreases s.len() - k,
{
    if k < 0 || k >= s.len() {
        s.len() as int
    } else if s[k] == 10u8 || s[k] == 0u8 {
        k
    } else {
        line_stop(s, k + 1)
    }
}

/// The line around position `from`: it starts after the last newline at
/// or before `from` (or at the start) and runs up to, not including, the
/// next newline or NUL byte (or the end). Nothing outside the contents.
pub open spec fn line_around(s: Seq<u8>, from: int) -> Option<(int, int)> {
    if from < 0 || from >= s.len() {
        None
    } else {
        let begin = scan_back(s, from) + 1;
        Some((begin, line_stop(s, begin) - begin))
    }
}

/// The newline-separated lines of `s` from position `start` on, as
/// `(offset, length)`: each runs to the next newline or to the end.
pub open spec fn lines_from(s: Seq<u8>, start: int) -> Seq<(int, int)>
    decreases s.len() - start,
{
    if start < 0 || start > s.len() {
        Seq::empty()
    } else {
        let e = scan_to(s, 10u8, start);
        if e >= s.len() {
            seq![(start, s.len() - start)]
        } else {
            proof {
                lemma_scan_to(s, 10u8, start);
            }
            seq![(start, e - start)] + lines_from(s, e + 1)
        }
    }
}

/// The lines that indexing a dump records: its newline-separated lines,
/// without the empty first one when the dump is empty or starts with a
/// newline.
pub open spec fn dump_lines(s: Seq<u8>) -> Seq<(int, int)> {
    if s.len() == 0 {
        Seq::empty()
    } else if s[0] == 10u8 {
        lines_from(s, 1)
    } else {
        lines_from(s, 0)
    }
}

/// No NUL byte in `s`.
pub open spec fn no_nul(s: Seq<u8>) -> bool {
    forall|i: int| 0 <= i < s.len() ==> #[trigger] s[i] != 0u8
}

/// The table that maps each line number of `lines` to its line.
pub open spec fn line_map(lines: Seq<(int, int)>) -> Map<usize, (usize, usize)> {
    Map::new(
        |k: usize| 0 <= k < lines.len(),
        |k: usize| (lines[k as int].0 as usize, lines[k as int].1 as usize),
    )
}

/// `scan_back` finds a newline at or before `k`, or gives -1.
proof fn lemma_scan_back(s: Seq<u8>, k: int)
    requires
        -1 <= k < s.len(),
    ensures
        -1 <= scan_back(s, k) <= k,
    decreases k + 1,
{
    if k >= 0 && s[k] != 10u8 {
        lemma_scan_back(s, k - 1);
    }
}

/// Without NUL bytes a line stops only at a newline or the end.
proof fn lemma_line_stop(s: Seq<u8>, k: int)
    requires
        0 <= k <= s.len(),
    ensures
        k <= line_stop(s, k) <= s.len(),
        line_stop(s, k) < s.len() ==> s[line_stop(s, k)] == 10u8 || s[line_stop(s, k)] == 0u8,
        no_nul(s) ==> line_stop(s, k) == scan_to(s, 10u8, k),
    decreases s.len() - k,
{
    if k < s.len() && s[k] != 10u8 && s[k] != 0u8 {
        lemma_line_stop(s, k + 1);
    }
}

/// The first line from `start` and what follows it.
proof fn lemma_lines_from_head(s: Seq<u8>, start: int)
    requires
        0 <= start <= s.len(),
    ensures
        lines_from(s, start).len() >= 1,
        lines_from(s, start)[0] == (start, scan_to(s, 10u8, start) - start),
        lines_from(s, start).drop_first() == (if scan_to(s, 10u8, start) < s.len() {
            lines_from(s, scan_to(s, 10u8, start) + 1)
        } else {
            Seq::<(int, int)>::empty()
        }),
        lines_from(s, start).len() <= s.len() - start + 1,
        scan_to(s, 10u8, start) < s.len() ==> s[scan_to(s, 10u8, start)] == 10u8,
    decreases s.len() - start,
{
    lemma_scan_to(s, 10u8, start);
    let e = scan_to(s, 10u8, start);
    if e < s.len() {
        lemma_lines_from_head(s, e + 1);
        assert(lines_from(s, start).drop_first() =~= lines_from(s, e + 1));
    } else {
        assert(lines_from(s, start).drop_first() =~= Seq::<(int, int)>::empty());
    }
}

/// Indexing records at most one line per byte.
pub proof fn lemma_dump_lines_len(s: Seq<u8>)
    ensures
        dump_lines(s).len() <= s.len(),
{
    if s.len() > 0 {
        if s[0] == 10u8 {
            lemma_lines_from_head(s, 1);
        } else {
            lemma_lines_from_head(s, 0);
            lemma_scan_to(s, 10u8, 0);
            let e = scan_to(s, 10u8, 0);
            if e < s.len() {
                assert(e >= 1);
                lemma_lines_from_head(s, e + 1);
            }
        }
    }
}

/// The lines still to come when iteration stands at `cursor`: all of
/// them before the first step, afterwards those after the newline at
/// `cursor`.
pub open spec fn lines_after(s: Seq<u8>, cursor: int, started: bool) -> Seq<(int, int)> {
    if !started {
        dump_lines(s)
    } else if cursor < s.len() {
        lines_from(s, cursor + 1)
    } else {
        Seq::empty()
    }
}

/// Where iteration can stand: the start, the end, or the newline or NUL
/// byte that ended the last line.
pub open spec fn at_line_end(s: Seq<u8>, cursor: int) -> bool {
    cursor == 0 || cursor >= s.len() || s[cursor] == 10u8 || s[cursor] == 0u8
}

/// The lines that iteration standing at `cursor` has still to give: all
/// of them from the start, afterwards those after the newline at
/// `cursor`.
pub open spec fn pending_lines(s: Seq<u8>, cursor: int) -> Seq<(int, int)> {
    lines_after(s, cursor, cursor != 0)
}

/// One step of iteration yields the next line still to come.
proof fn lemma_step(s: Seq<u8>, cursor: int, started: bool)
    requires
        no_nul(s),
        0 <= cursor <= s.len(),
        !started ==> cursor == 0,
        started && cursor < s.len() ==> s[cursor] == 10u8,
    ensures
        cursor >= s.len() ==> lines_after(s, cursor, started).len() == 0,
        cursor < s.len() ==> {
            &&& lines_after(s, cursor, started).len() >= 1
            &&& line_around(s, cursor) == Some(lines_after(s, cursor, started)[0])
            &&& ({
                let (b, l) = lines_after(s, cursor, started)[0];
                &&& cursor < b + l <= s.len()
                &&& 0 <= b
                &&& b + l < s.len() ==> s[b + l] == 10u8
                &&& lines_after(s, cursor, started).drop_first() == lines_after(s, b + l, true)
            })
        },
{
    if cursor < s.len() {
        let begin = if s[cursor] == 10u8 {
            cursor + 1
        } else {
            0
        };
        if s[cursor] != 10u8 {
            assert(scan_back(s, cursor) == -1) by {
                assert(cursor == 0);
                assert(scan_back(s, -1) == -1);
            }
        }
        lemma_line_stop(s, begin);
        lemma_lines_from_head(s, begin);
        lemma_scan_to(s, 10u8, begin);
        if begin == 0 {
            assert(s[0] != 0u8);
            assert(scan_to(s, 10u8, 0) >= 1);
        }
        assert(lines_after(s, cursor, started) == lines_from(s, begin));
    }
}

/// The bytes of line `line` of a dump, or the message that `lookup`
/// gives when there are none.
pub open spec fn line_of(f: MmapedFile, line: usize) -> Result<Seq<u8>, Seq<char>> {
    if !f.indexed() {
        Err("You need to index the file"@)
    } else if !f.table().dom().contains(line) {
        Err("Lookup failed!"@)
    } else {
        let (o, l) = f.table()[line];
        Ok(f.contents().subrange(o as int, o + l))
    }
}

/// The text of a line `(offset, length)` of `s`.
pub open spec fn line_text(s: Seq<u8>, line: (int, int)) -> Seq<u8> {
    s.subrange(line.0, line.0 + line.1)
}

/// The texts of `lines`, joined with newlines.
pub open spec fn join_lines(s: Seq<u8>, lines: Seq<(int, int)>) -> Seq<u8>
    decreases lines.len(),
{
    if lines.len() == 0 {
        Seq::empty()
    } else if lines.len() == 1 {
        line_text(s, lines[0])
    } else {
        line_text(s, lines[0]) + seq![10u8] + join_lines(s, lines.drop_first())
    }
}

/// The lines from `start` lie in `s`, hold no newline, and joined with
/// newlines give back `s` from `start`.
proof fn lemma_lines_from_join(s: Seq<u8>, start: int)
    requires
        0 <= start <= s.len(),
    ensures
        join_lines(s, lines_from(s, start)) == s.skip(start),
        forall|i: int|
            0 <= i < lines_from(s, start).len() ==> {
                let line = #[trigger] lines_from(s, start)[i];
                &&& start <= line.0
                &&& 0 <= line.1
                &&& line.0 + line.1 <= s.len()
                &&& !line_text(s, line).contains(10u8)
            },
    decreases s.len() - start,
{
    lemma_lines_from_head(s, start);
    lemma_scan_to(s, 10u8, start);
    let e = scan_to(s, 10u8, start);
    let lines = lines_from(s, start);
    assert(!line_text(s, lines[0]).contains(10u8)) by {
        if line_text(s, lines[0]).contains(10u8) {
            let k = choose|k: int| 0 <= k < line_text(s, lines[0]).len() && line_text(s, lines[0])[k] == 10u8;
            assert(s[start + k] == 10u8);
        }
    }
    if e < s.len() {
        lemma_lines_from_join(s, e + 1);
        lemma_lines_from_head(s, e + 1);
        assert(lines.drop_first() == lines_from(s, e + 1));
        assert(lines.len() >= 2);
        assert(s.skip(start) =~= s.subrange(start, e) + seq![10u8] + s.skip(e + 1));
        assert forall|i: int| 0 <= i < lines.len() implies {
            let line = #[trigger] lines[i];
            &&& start <= line.0
            &&& 0 <= line.1
            &&& line.0 + line.1 <= s.len()
            &&& !line_text(s, line).contains(10u8)
        } by {
            if i > 0 {
                assert(lines[i] == lines_from(s, e + 1)[i - 1]);
            }
        }
    } else {
        assert(lines.len() == 1);
        assert(s.skip(start) =~= s.subrange(start, s.len() as int));
    }
}

/// Indexing loses nothing and splits only at newlines: the indexed lines
/// lie in the dump, hold no newline, and joined with newlines give back
/// the dump (after its first byte when that is a newline).
pub proof fn law_lines_rebuild_dump(s: Seq<u8>)
    ensures
        s.len() > 0 && s[0] != 10u8 ==> join_lines(s, dump_lines(s)) == s,
        s.len() > 0 && s[0] == 10u8 ==> seq![10u8] + join_lines(s, dump_lines(s)) == s,
        forall|i: int|
            0 <= i < dump_lines(s).len() ==> {
                let line = #[trigger] dump_lines(s)[i];
                &&& 0 <= line.0
                &&& 0 <= line.1
                &&& line.0 + line.1 <= s.len()
                &&& !line_text(s, line).contains(10u8)
            },
{
    if s.len() > 0 {
        if s[0] == 10u8 {
            lemma_lines_from_join(s, 1);
            assert(seq![10u8] + s.skip(1) =~= s);
        } else {
            lemma_lines_from_join(s, 0);
            assert(s.skip(0) =~= s);
        }
    }
}

/// Indexing a dump a second time leaves its table as the first time.
pub proof fn law_index_twice(table: Map<usize, Span>, s: Seq<u8>)
    ensures
        table.union_prefer_right(line_map(dump_lines(s))).union_prefer_right(
            line_map(dump_lines(s)),
        ) == table.union_prefer_right(line_map(dump_lines(s))),
{
    assert(table.union_prefer_right(line_map(dump_lines(s))).union_prefer_right(
        line_map(dump_lines(s)),
    ) =~= table.union_prefer_right(line_map(dump_lines(s))));
}

/// The line numbers below `n`.
spec fn numbers_below(n: int) -> Set<usize> {
    Set::new(|k: usize| (k as int) < n)
}

/// There are `n` line numbers below `n`.
proof fn lemma_numbers_below(n: int)
    requires
        0 <= n <= usize::MAX + 1,
    ensures
        numbers_below(n).finite(),
        numbers_below(n).len() == n,
    decreases n,
{
    if n == 0 {
        assert(numbers_below(0) =~= Set::<usize>::empty());
    } else {
        lemma_numbers_below(n - 1);
        assert(numbers_below(n) =~= numbers_below(n - 1).insert((n - 1) as usize));
    }
}

/// A table made from `lines` has as many entries as there are lines.
pub proof fn law_line_map_len(lines: Seq<(int, int)>)
    requires
        lines.len() <= usize::MAX,
    ensures
        line_map(lines).dom().finite(),
        line_map(lines).len() == lines.len(),
{
    lemma_numbers_below(lines.len() as int);
    assert(line_map(lines).dom() =~= numbers_below(lines.len() as int));
}

/// Once a fresh dump is indexed, line `i` reads back as the `i`-th
/// indexed line when there is one, and fails to be found otherwise.
pub proof fn law_read_after_index(f: MmapedFile, i: usize)
    requires
        f.wf(),
        f.indexed(),
        f.table() == line_map(dump_lines(f.contents())),
    ensures
        i < dump_lines(f.contents()).len() ==> line_of(f, i) == Ok::<Seq<u8>, Seq<char>>(
            line_text(f.contents(), dump_lines(f.contents())[i as int]),
        ),
        i >= dump_lines(f.contents()).len() ==> line_of(f, i) == Err::<Seq<u8>, Seq<char>>(
            "Lookup failed!"@,
        ),
{
    let lines = dump_lines(f.contents());
    law_lines_rebuild_dump(f.contents());
    if i < lines.len() {
        let line = lines[i as int];
        assert(f.table()[i] == (line.0 as usize, line.1 as usize));
    }
}

/// A dump held in memory and its line index.
#[derive(Debug)]
pub struct MmapedFile {
    current_offset: usize,
    indexed_lines: usize,
    is_indexed: bool,
    mapping: Vec<u8>,
    line_tree: LineTable,
    file_size: u64,
}

impl MmapedFile {
    /// The bytes of the dump.
    pub closed spec fn contents(&self) -> Seq<u8> {
        self.mapping@
    }

    /// Whether the dump has been indexed.
    pub closed spec fn indexed(&self) -> bool {
        self.is_indexed
    }

    /// What the line table holds.
    pub closed spec fn table(&self) -> Map<usize, Span> {
        line_entries(self.line_tree)
    }

    /// Size of the dump in bytes, as recorded.
    pub closed spec fn size(&self) -> u64 {
        self.file_size
    }

    /// How many lines the current indexing has counted.
    pub closed spec fn counted(&self) -> usize {
        self.indexed_lines
    }

    /// Where iteration over the lines stands.
    pub closed spec fn cursor(&self) -> int {
        self.current_offset as int
    }

    /// The sizes agree, the cursor lies within the dump at the end of a
    /// line, and every line in the table lies within the dump.
    pub closed spec fn wf(&self) -> bool {
        &&& self.file_size == self.mapping@.len()
        &&& self.mapping@.len() <= usize::MAX
        &&& self.current_offset <= self.mapping@.len()
        &&& at_line_end(self.mapping@, self.current_offset as int)
        &&& line_entries(self.line_tree).dom().finite()
        &&& forall|k: usize|
            #[trigger] line_entries(self.line_tree).dom().contains(k) ==> line_entries(
                self.line_tree,
            )[k].0 + line_entries(self.line_tree)[k].1 <= self.mapping@.len()
    }

    /// Takes the dump's bytes; nothing is indexed yet.
    pub fn initialize(contents: Vec<u8>) -> (res: MmapedFile)
        ensures
            res.wf(),
            res.contents() == contents@,
            res.cursor() == 0,
            !res.indexed(),
            res.size() == contents@.len(),
            res.table() == Map::<usize, Span>::empty(),
    {
        let n = contents.len();
        let size = n as u64;
        MmapedFile {
            current_offset: 0,
            indexed_lines: 0,
            is_indexed: false,
            mapping: contents,
            line_tree: line_table_new(),
            file_size: size,
        }
    }

    fn add_index(&mut self, key: usize, value: (usize, usize))
        requires
            old(self).wf(),
            value.0 + value.1 <= old(self).contents().len(),
        ensures
            final(self).wf(),
            final(self).contents() == old(self).contents(),
            final(self).cursor() == old(self).cursor(),
            final(self).indexed() == old(self).indexed(),
            final(self).indexed_lines == old(self).indexed_lines,
            final(self).table() == old(self).table().insert(key, value),
    {
        line_table_insert(&mut self.line_tree, key, value);
    }

    fn reset(&mut self, new_offset: Option<usize>)
        requires
            old(self).wf(),
            new_offset matches Some(v) ==> v <= old(self).contents().len() && at_line_end(
                old(self).contents(),
                v as int,
            ),
        ensures
            final(self).wf(),
            final(self).cursor() == match new_offset {
                Some(v) => v as int,
                None => 0,
            },
            final(self).contents() == old(self).contents(),
            final(self).indexed() == old(self).indexed(),
            final(self).table() == old(self).table(),
            final(self).indexed_lines == old(self).indexed_lines,
    {
        match new_offset {
            Some(value) => self.current_offset = value,
            None => self.current_offset = 0,
        }
    }

    /// The bytes from `offset_at` on, `buffer_length` of them.
    pub fn bytes(&self, offset_at: usize, buffer_length: usize) -> (res: &[u8])
        requires
            self.wf(),
            offset_at + buffer_length <= self.contents().len(),
        ensures
            res@ == self.contents().subrange(
                offset_at as int,
                offset_at + buffer_length,
            ),
    {
        let n = self.mapping.len();
        slice_subrange(self.mapping.as_slice(), offset_at, offset_at + buffer_length)
    }

    /// The next line of the dump, as `(offset, length)`; nothing once the
    /// end is reached.
    pub fn next(&mut self) -> (res: Option<Span>)
        requires
            old(self).wf(),
        ensures
            final(self).wf(),
            final(self).contents() == old(self).contents(),
            final(self).table() == old(self).table(),
            final(self).indexed() == old(self).indexed(),
            final(self).counted() == old(self).counted(),
            old(self).cursor() >= old(self).contents().len() ==> res is None
                && final(self).cursor() == old(self).cursor(),
            old(self).cursor() < old(self).contents().len() ==> match res {
                Some((b, l)) => line_around(old(self).contents(), old(self).cursor()) == Some(
                    (b as int, l as int),
                ) && final(self).cursor() == b + l,
                None => false,
            },
    {
        if !self.is_valid_region(self.current_offset) {
            None
        } else {
            let ghost s = self.mapping@;
            let size = self.mapping.len();
            match self.get_line_fuzzy(self.current_offset) {
                Some((offset, length)) => {
                    proof {
                        let c = self.current_offset as int;
                        assert(scan_back(s, c) <= c) by {
                            lemma_scan_back(s, c);
                        }
                        lemma_line_stop(s, scan_back(s, c) + 1);
                    }
                    self.current_offset = offset + length;
                    Some((offset, length))
                },
                None => None,
            }
        }
    }

    /// Indexes the lines still to come from where iteration stands (all
    /// of them for a fresh dump): line `i` of the table becomes the `i`-th
    /// of them (an empty first line of the dump is skipped), the number
    /// of them is returned, and iteration goes back to the start. The dump
    /// must hold no NUL byte, on which the scan would not advance.
    pub fn index(&mut self) -> (res: usize)
        requires
            old(self).wf(),
            no_nul(old(self).contents()),
        ensures
            final(self).wf(),
            final(self).contents() == old(self).contents(),
            final(self).indexed(),
            final(self).cursor() == 0,
            res == pending_lines(old(self).contents(), old(self).cursor()).len(),
            final(self).table() == old(self).table().union_prefer_right(
                line_map(pending_lines(old(self).contents(), old(self).cursor())),
            ),
    {
        let ghost s = self.mapping@;
        let ghost lines = pending_lines(s, self.cursor());
        let ghost old_table = self.table();
        let size = self.mapping.len();
        proof {
            lemma_dump_lines_len(s);
            let c = self.cursor();
            if c != 0 && c < s.len() {
                lemma_lines_from_head(s, c + 1);
            }
            assert(line_map(lines.take(0)) =~= Map::<usize, Span>::empty());
            assert(old_table.union_prefer_right(Map::<usize, Span>::empty()) =~= old_table);
        }
        self.indexed_lines = 0;
        loop
            invariant_except_break
                self.wf(),
                self.contents() == s,
                no_nul(s),
                lines.len() <= s.len(),
                s.len() <= usize::MAX,
                self.indexed_lines <= lines.len(),
                self.table() == old_table.union_prefer_right(
                    line_map(lines.take(self.indexed_lines as int)),
                ),
                lines.skip(self.indexed_lines as int) == pending_lines(s, self.cursor()),
            ensures
                self.wf(),
                self.contents() == s,
                self.indexed_lines == lines.len(),
                self.table() == old_table.union_prefer_right(line_map(lines)),
            decreases s.len() - self.cursor(),
        {
            let ghost count = self.indexed_lines as int;
            let ghost cursor = self.cursor();
            proof {
                lemma_step(s, cursor, cursor != 0);
            }
            match self.next() {
                Some(offsets) => {
                    proof {
                        assert(lines.skip(count)[0] == lines[count]);
                        assert(lines.skip(count + 1) =~= lines.skip(count).drop_first());
                    }
                    self.add_index(self.indexed_lines, offsets);
                    self.indexed_lines = self.indexed_lines + 1;
                    proof {
                        assert(line_map(lines.take(count + 1)) =~= line_map(lines.take(count)).insert(
                            count as usize,
                            offsets,
                        ));
                        assert(old_table.union_prefer_right(line_map(lines.take(count + 1)))
                            =~= old_table.union_prefer_right(line_map(lines.take(count))).insert(
                            count as usize,
                            offsets,
                        ));
                    }
                },
                None => {
                    proof {
                        assert(lines.skip(count).len() == 0);
                        assert(lines.take(count) =~= lines);
                    }
                    break ;
                },
            }
        }
        self.is_indexed = true;
        self.reset(None);
        self.indexed_lines
    }

    /// The `(offset, length)` of line `line`; the dump must be indexed.
    pub fn lookup(&self, line: usize) -> (res: Result<Span, &str>)
        requires
            self.wf(),
        ensures
            match res {
                Ok(v) => self.indexed() && self.table().dom().contains(line) && self.table()[line]
                    == v && v.0 + v.1 <= self.contents().len(),
                Err(msg) => (!self.indexed() && msg@ == "You need to index the file"@) || (
                self.indexed() && !self.table().dom().contains(line) && msg@
                    == "Lookup failed!"@),
            },
    {
        if self.is_indexed {
            match line_table_get(&self.line_tree, line) {
                Some(value) => Ok(value),
                None => Err("Lookup failed!"),
            }
        } else {
            Err("You need to index the file")
        }
    }

    /// A well-formed dump fits in memory.
    pub proof fn lemma_contents_fit(&self)
        requires
            self.wf(),
        ensures
            self.contents().len() <= usize::MAX,
    {
    }

    /// Whether the dump has been indexed.
    pub fn is_indexed(&self) -> (res: bool)
        ensures
            res == self.indexed(),
    {
        self.is_indexed
    }

    /// Size of the dump in bytes.
    pub fn file_size(&self) -> (res: u64)
        ensures
            res == self.size(),
    {
        self.file_size
    }

    /// The line table.
    pub fn line_tree(&self) -> (res: &LineTable)
        ensures
            line_entries(*res) == self.table(),
    {
        &self.line_tree
    }

    /// The number of lines in the table.
    pub fn line_tree_len(&self) -> (res: usize)
        ensures
            res == self.table().len(),
    {
        line_table_len(&self.line_tree)
    }

    fn is_valid_region(&self, offset: usize) -> (res: bool)
        ensures
            res == (offset < self.contents().len()),
    {
        offset < self.mapping.len()
    }

    /// The line around `from_offset`: back to the previous newline, then
    /// forward to the next newline or NUL byte.
    fn get_line_fuzzy(&self, from_offset: usize) -> (res: Option<(usize, usize)>)
        requires
            self.wf(),
        ensures
            match res {
                Some((b, l)) => line_around(self.contents(), from_offset as int) == Some(
                    (b as int, l as int),
                ),
                None => line_around(self.contents(), from_offset as int) is None,
            },
    {
        let ghost s = self.contents();
        let size = self.mapping.len();
        let mut begin_offset: usize = from_offset;
        let mut len_offset: usize = 0;
        if !self.is_valid_region(begin_offset) {
            return None;
        }
        loop
            invariant_except_break
                begin_offset <= from_offset < s.len(),
                s == self.mapping@,
                s.len() == size,
                scan_back(s, from_offset as int) == scan_back(s, begin_offset as int),
            ensures
                begin_offset <= s.len(),
                begin_offset == scan_back(s, from_offset as int) + 1,
                s == self.mapping@,
            decreases begin_offset,
        {
            if self.mapping[begin_offset] == 10u8 {
                begin_offset = begin_offset + 1;
                break ;
            } else {
                if begin_offset == 0 {
                    assert(scan_back(s, -1) == -1);
                    break ;
                }
                begin_offset = begin_offset - 1;
            }
        }
        loop
            invariant_except_break
                begin_offset + len_offset <= s.len(),
                s == self.mapping@,
                s.len() == size,
                line_stop(s, begin_offset as int) == line_stop(
                    s,
                    (begin_offset + len_offset) as int,
                ),
            ensures
                line_stop(s, begin_offset as int) == begin_offset + len_offset,
            decreases s.len() - begin_offset - len_offset,
        {
            if !self.is_valid_region(begin_offset + len_offset) {
                break ;
            }
            let byte = self.mapping[begin_offset + len_offset];
            if byte == 10u8 || byte == 0u8 {
                break ;
            }
            len_offset = len_offset + 1;
        }
        Some((begin_offset, len_offset))
    }
}

} // verus!
