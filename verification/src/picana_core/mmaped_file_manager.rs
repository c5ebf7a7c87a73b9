//! Up to three dumps held in memory, each under a key.

use vstd::prelude::*;

use hashbrown::HashMap;

use crate::picana_core::mmaped_file::{
    dump_lines, law_line_map_len, law_read_after_index, line_map, line_of, line_text, no_nul,
    MmapedFile,
};
use crate::text::str_from_utf8;
use vstd::utf8::{decode_utf8, valid_utf8};

verus! {

/// Key to the dump held under it.
pub type FileTable = HashMap<String, MmapedFile>;

/// What a file table holds: each key's text to its dump.
pub uninterp spec fn open_files(m: FileTable) -> Map<Seq<char>, MmapedFile>;

/// `hashbrown::HashMap::new`: an empty map.
#[verifier::external_body]
fn file_table_new() -> (res: FileTable)
    ensures
        open_files(res) =~= Map::empty(),
{
    HashMap::new()
}

/// `hashbrown::HashMap::len`: the number of keys.
#[verifier::external_body]
fn file_table_len(m: &FileTable) -> (res: usize)
    ensures
        res == open_files(*m).len(),
{
    m.len()
}

/// `hashbrown::HashMap::get` with a string key: the dump under the key,
/// if there is one.
#[verifier::external_body]
fn file_table_get<'a>(m: &'a FileTable, key: &str) -> (res: Option<&'a MmapedFile>)
    ensures
        match res {
            Some(f) => open_files(*m).dom().contains(key@) && *f == open_files(*m)[key@],
            None => !open_files(*m).dom().contains(key@),
        },
{
    m.get(key)
}

/// `hashbrown::HashMap::insert`: the key now holds the dump, whatever it
/// held before; the other keys are untouched.
#[verifier::external_body]
fn file_table_insert(m: &mut FileTable, key: String, value: MmapedFile)
    ensures
        open_files(*final(m)) == open_files(*old(m)).insert(key@, value),
{
    m.insert(key, value);
}

/// Line `line` of a dump as text, or the message given when there is
/// none or it is not valid UTF-8.
pub open spec fn line_text_of(f: MmapedFile, line: usize) -> Result<Seq<char>, Seq<char>> {
    match line_of(f, line) {
        Ok(b) => if valid_utf8(b) {
            Ok(decode_utf8(b))
        } else {
            Err("Malformed line"@)
        },
        Err(m) => Err(m),
    }
}

/// Once a dump is opened under `key` and indexed, the size of its table
/// (what `len_of` gives) is its number of lines (what opening returned).
pub proof fn law_len_after_open(m: MmapedFileManager, key: Seq<char>)
    requires
        m.wf(),
        m.files().dom().contains(key),
        m.files()[key].table() == line_map(dump_lines(m.files()[key].contents())),
    ensures
        m.files()[key].table().len() == dump_lines(m.files()[key].contents()).len(),
{
    let f = m.files()[key];
    assert(f.wf());
    f.lemma_contents_fit();
    crate::picana_core::mmaped_file::lemma_dump_lines_len(f.contents());
    law_line_map_len(dump_lines(f.contents()));
}

/// Reading line `i` of a dump opened under `key` as text gives the whole
/// `i`-th newline-separated line of the dump, decoded from UTF-8: every
/// byte between the newlines that bound it, not a part of it. A line that
/// is not UTF-8 is refused, and a line past the last one is not found.
pub proof fn law_line_text_is_whole_line(m: MmapedFileManager, key: Seq<char>, i: usize)
    requires
        m.wf(),
        m.files().dom().contains(key),
        m.files()[key].indexed(),
        m.files()[key].table() == line_map(dump_lines(m.files()[key].contents())),
    ensures
        ({
            let s = m.files()[key].contents();
            let lines = dump_lines(s);
            &&& i < lines.len() && valid_utf8(line_text(s, lines[i as int])) ==> line_text_of(
                m.files()[key],
                i,
            ) == Ok::<Seq<char>, Seq<char>>(decode_utf8(line_text(s, lines[i as int])))
            &&& i < lines.len() && !valid_utf8(line_text(s, lines[i as int])) ==> line_text_of(
                m.files()[key],
                i,
            ) == Err::<Seq<char>, Seq<char>>("Malformed line"@)
            &&& i >= lines.len() ==> line_text_of(m.files()[key], i) == Err::<
                Seq<char>,
                Seq<char>,
            >("Lookup failed!"@)
        }),
{
    let f = m.files()[key];
    assert(f.wf());
    law_read_after_index(f, i);
}

/// How many dumps a manager holds at most.
pub const MAX_OPEN_FILES: usize = 3;

/// Dumps held in memory under keys.
#[derive(Debug)]
pub struct MmapedFileManager {
    mmaped_files: FileTable,
}

impl MmapedFileManager {
    /// The dumps, by key.
    pub closed spec fn files(&self) -> Map<Seq<char>, MmapedFile> {
        open_files(self.mmaped_files)
    }

    /// Finitely many dumps, each well formed.
    pub closed spec fn wf(&self) -> bool {
        &&& self.files().dom().finite()
        &&& forall|k: Seq<char>| #[trigger] self.files().dom().contains(k) ==> self.files()[k].wf()
    }

    /// Every dump held is well formed.
    pub proof fn lemma_file_wf(&self, key: Seq<char>)
        requires
            self.wf(),
            self.files().dom().contains(key),
        ensures
            self.files()[key].wf(),
    {
    }

    /// A manager holding no dump.
    pub fn start() -> (res: Self)
        ensures
            res.wf(),
            res.files() == Map::<Seq<char>, MmapedFile>::empty(),
    {
        MmapedFileManager { mmaped_files: file_table_new() }
    }

    /// Whether another dump can be added.
    pub fn accepts_more(&self) -> (res: bool)
        requires
            self.wf(),
        ensures
            res == (self.files().len() < MAX_OPEN_FILES),
    {
        file_table_len(&self.mmaped_files) < MAX_OPEN_FILES
    }

    /// Adds the dump `contents` under `key` and indexes it, returning its
    /// number of lines; a dump already under `key` is replaced. When three
    /// dumps are held nothing is added and 0 is returned.
    pub fn add_file(&mut self, contents: Vec<u8>, key: &str) -> (res: usize)
        requires
            old(self).wf(),
            old(self).files().len() < MAX_OPEN_FILES ==> no_nul(contents@),
        ensures
            final(self).wf(),
            old(self).files().len() >= MAX_OPEN_FILES ==> res == 0 && final(self).files()
                == old(self).files(),
            old(self).files().len() < MAX_OPEN_FILES ==> {
                &&& res == dump_lines(contents@).len()
                &&& final(self).files().dom().contains(key@)
                &&& final(self).files().remove(key@) == old(self).files().remove(key@)
                &&& final(self).files()[key@].contents() == contents@
                &&& final(self).files()[key@].indexed()
                &&& final(self).files()[key@].table() == line_map(dump_lines(contents@))
                &&& final(self).files()[key@].table().len() == res
            },
    {
        if file_table_len(&self.mmaped_files) >= MAX_OPEN_FILES {
            0
        } else {
            let mut mmaped_file = MmapedFile::initialize(contents);
            let len = mmaped_file.index();
            proof {
                law_line_map_len(dump_lines(contents@));
                assert(Map::<usize, (usize, usize)>::empty().union_prefer_right(
                    line_map(dump_lines(contents@)),
                ) =~= line_map(dump_lines(contents@)));
            }
            let ghost before = self.files();
            file_table_insert(&mut self.mmaped_files, key.to_owned(), mmaped_file);
            proof {
                assert(self.files().remove(key@) =~= before.remove(key@));
            }
            len
        }
    }

    /// The number of lines in the table of the dump under `key`.
    pub fn len_of(&self, key: &str) -> (res: Result<usize, &str>)
        requires
            self.wf(),
        ensures
            match res {
                Ok(n) => self.files().dom().contains(key@) && n == self.files()[key@].table().len(),
                Err(msg) => !self.files().dom().contains(key@) && msg@ == "Meh!"@,
            },
    {
        match file_table_get(&self.mmaped_files, key) {
            Some(value) => Ok(value.line_tree_len()),
            None => Err("Meh!"),
        }
    }

    /// The bytes of line `line_no` of the dump under `key`.
    pub fn bytes_at(&self, key: &str, line_no: usize) -> (res: Result<&[u8], &str>)
        requires
            self.wf(),
        ensures
            match res {
                Ok(b) => self.files().dom().contains(key@) && line_of(self.files()[key@], line_no)
                    == Ok::<Seq<u8>, Seq<char>>(b@),
                Err(msg) => (!self.files().dom().contains(key@) && msg@ == "Malformed line!"@) || (
                self.files().dom().contains(key@) && line_of(self.files()[key@], line_no) == Err::<
                    Seq<u8>,
                    Seq<char>,
                >(msg@)),
            },
    {
        match file_table_get(&self.mmaped_files, key) {
            Some(mmaped_file) => {
                let (offset, length) = match mmaped_file.lookup(line_no) {
                    Ok(v) => v,
                    Err(e) => return Err(e),
                };
                let line: &[u8] = mmaped_file.bytes(offset, length);
                Ok(line)
            },
            None => Err("Malformed line!"),
        }
    }

    /// Line `line_no` of the dump under `key` as text; a line that is not
    /// valid UTF-8 is refused like a missing dump.
    pub fn line_at(&self, key: &str, line_no: usize) -> (res: Result<&str, &str>)
        requires
            self.wf(),
        ensures
            match res {
                Ok(text) => self.files().dom().contains(key@) && line_text_of(
                    self.files()[key@],
                    line_no,
                ) == Ok::<Seq<char>, Seq<char>>(text@),
                Err(msg) => (!self.files().dom().contains(key@) && msg@ == "Malformed line"@) || (
                self.files().dom().contains(key@) && line_text_of(self.files()[key@], line_no)
                    == Err::<Seq<char>, Seq<char>>(msg@)),
            },
    {
        match file_table_get(&self.mmaped_files, key) {
            Some(mmaped_file) => {
                let (offset, length) = match mmaped_file.lookup(line_no) {
                    Ok(v) => v,
                    Err(e) => return Err(e),
                };
                match str_from_utf8(mmaped_file.bytes(offset, length)) {
                    Some(line) => Ok(line),
                    None => Err("Malformed line"),
                }
            },
            None => Err("Malformed line"),
        }
    }
}

} // verus!
