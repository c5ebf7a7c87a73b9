//! The dump-reading core: frames, the candump line decoder, dumps held in
//! memory with their line index, and signal definitions.

pub mod connections;
pub mod definitions;
pub mod dump_parser;
pub mod frame;
pub mod mmaped_file;
pub mod mmaped_file_manager;

use vstd::prelude::*;

use canparse::pgn::PgnLibrary;

use crate::picana_core::definitions::{spn_entries, spn_names, FrameDefinitionLibrary, ValueDefinitionBridge};
use crate::picana_core::dump_parser::{decode_frame_memchr, decode_line, CanFrameData, ParseError};
use crate::picana_core::frame::FrameView;
use crate::picana_core::mmaped_file::{
    dump_lines, law_read_after_index, line_map, line_of, line_text, no_nul, MmapedFile,
};
use crate::picana_core::mmaped_file_manager::{line_text_of, MmapedFileManager};

verus! {

/// Why no definition could be given.
#[derive(Debug, Clone, Copy, PartialEq, Eq, Structural)]
pub enum ExplainError {
    /// No library under the key, or no such signal in it.
    NotFound,
}

/// The bytes of line `line` of the dump under `key`, if there is such a
/// dump, it is indexed and it has that line.
pub open spec fn stored_line(files: Map<Seq<char>, MmapedFile>, key: Seq<char>, line: usize) -> Option<
    Seq<u8>,
> {
    if files.dom().contains(key) {
        match line_of(files[key], line) {
            Ok(b) => Some(b),
            Err(_) => None,
        }
    } else {
        None
    }
}

/// The line that `frame` decodes is the line that `bytes_at` reads: the
/// whole stored line, whatever its length.
pub proof fn law_frame_line_is_stored_line(
    files: Map<Seq<char>, MmapedFile>,
    key: Seq<char>,
    line: usize,
    b: Seq<u8>,
)
    requires
        files.dom().contains(key),
        line_of(files[key], line) == Ok::<Seq<u8>, Seq<char>>(b),
    ensures
        stored_line(files, key, line) == Some(b),
{
}

/// Decoding line `i` of a dump opened under `key` decodes the whole
/// `i`-th newline-separated line of the dump: every byte between the
/// newlines that bound it, so a payload is all the hex pairs after `#`.
/// A line past the last one gives no frame.
pub proof fn law_frame_decodes_whole_line(p: Picana, key: Seq<char>, i: usize)
    requires
        p.wf(),
        p.files().dom().contains(key),
        p.files()[key].indexed(),
        p.files()[key].table() == line_map(dump_lines(p.files()[key].contents())),
    ensures
        ({
            let s = p.files()[key].contents();
            let lines = dump_lines(s);
            &&& i < lines.len() ==> stored_line(p.files(), key, i) == Some(
                line_text(s, lines[i as int]),
            )
            &&& i >= lines.len() ==> stored_line(p.files(), key, i) is None
        }),
{
    p.manager.lemma_file_wf(key);
    law_read_after_index(p.files()[key], i);
}

/// The dumps and definition libraries that a session works with.
pub struct Picana {
    manager: MmapedFileManager,
    framelibrary: FrameDefinitionLibrary,
}

impl Picana {
    /// The dumps, by key.
    pub closed spec fn files(&self) -> Map<Seq<char>, MmapedFile> {
        self.manager.files()
    }

    /// The definition libraries, by key.
    pub closed spec fn libraries(&self) -> Map<Seq<char>, PgnLibrary> {
        self.framelibrary.libraries()
    }

    /// The dumps are well formed.
    pub closed spec fn wf(&self) -> bool {
        self.manager.wf()
    }

    /// A session with no dump and no library.
    pub fn new() -> (res: Self)
        ensures
            res.wf(),
            res.files() == Map::<Seq<char>, MmapedFile>::empty(),
            res.libraries() == Map::<Seq<char>, PgnLibrary>::empty(),
    {
        Picana { manager: MmapedFileManager::start(), framelibrary: FrameDefinitionLibrary::new() }
    }

    /// Whether another dump can be opened.
    pub fn accepts_more(&self) -> (res: bool)
        requires
            self.wf(),
        ensures
            res == (self.files().len() < mmaped_file_manager::MAX_OPEN_FILES),
    {
        self.manager.accepts_more()
    }

    /// Keeps the dump `contents` under `handle`, indexed; returns its
    /// number of lines, or 0 when three dumps are already held.
    pub fn open(&mut self, handle: &str, contents: Vec<u8>) -> (res: usize)
        requires
            old(self).wf(),
            old(self).files().len() < mmaped_file_manager::MAX_OPEN_FILES ==> no_nul(contents@),
        ensures
            final(self).wf(),
            final(self).libraries() == old(self).libraries(),
            old(self).files().len() >= mmaped_file_manager::MAX_OPEN_FILES ==> res == 0
                && final(self).files() == old(self).files(),
            old(self).files().len() < mmaped_file_manager::MAX_OPEN_FILES ==> {
                &&& res == mmaped_file::dump_lines(contents@).len()
                &&& final(self).files().dom().contains(handle@)
                &&& final(self).files().remove(handle@) == old(self).files().remove(handle@)
                &&& final(self).files()[handle@].contents() == contents@
                &&& final(self).files()[handle@].indexed()
                &&& final(self).files()[handle@].table() == mmaped_file::line_map(
                    mmaped_file::dump_lines(contents@),
                )
                &&& final(self).files()[handle@].table().len() == res
            },
    {
        self.manager.add_file(contents, handle)
    }

    /// Keeps the definition library `library` under `handle`.
    pub fn load_dbc(&mut self, handle: &str, library: PgnLibrary)
        requires
            old(self).wf(),
        ensures
            final(self).wf(),
            final(self).files() == old(self).files(),
            final(self).libraries() == old(self).libraries().insert(handle@, library),
    {
        self.framelibrary.load(handle, library)
    }

    /// Line `line` of the dump under `key`, as text.
    pub fn line(&self, key: &str, line: usize) -> (res: Result<&str, &str>)
        requires
            self.wf(),
        ensures
            match res {
                Ok(text) => self.files().dom().contains(key@) && line_text_of(
                    self.files()[key@],
                    line,
                ) == Ok::<Seq<char>, Seq<char>>(text@),
                Err(msg) => (!self.files().dom().contains(key@) && msg@ == "Malformed line"@) || (
                self.files().dom().contains(key@) && line_text_of(self.files()[key@], line)
                    == Err::<Seq<char>, Seq<char>>(msg@)),
            },
    {
        self.manager.line_at(key, line)
    }

    /// Decodes line `line` of the dump under `key` as a candump line;
    /// `None` when there is no such line.
    pub fn frame(&self, key: &str, line: usize) -> (res: Result<
        Option<CanFrameData<'_>>,
        ParseError,
    >)
        requires
            self.wf(),
        ensures
            stored_line(self.files(), key@, line) is None ==> res matches Ok(None),
            stored_line(self.files(), key@, line) matches Some(b) ==> match res {
                Ok(Some((t, device, frame))) => decode_line(b) == Ok::<
                    (u64, Seq<char>, FrameView),
                    ParseError,
                >((t, device@, frame@)),
                Ok(None) => false,
                Err(e) => decode_line(b) == Err::<(u64, Seq<char>, FrameView), ParseError>(e),
            },
    {
        match self.manager.bytes_at(key, line) {
            Ok(bytes) => match decode_frame_memchr(bytes) {
                Ok(data) => Ok(Some(data)),
                Err(e) => Err(e),
            },
            Err(_) => Ok(None),
        }
    }

    /// The definition of the signal `parameter` in the library under
    /// `key`.
    pub fn explain(&self, key: &str, parameter: &str) -> (res: Result<
        ValueDefinitionBridge,
        ExplainError,
    >)
        ensures
            res is Ok <==> self.libraries().dom().contains(key@) && spn_names(
                self.libraries()[key@],
            ).contains(parameter@),
            res matches Ok(b) ==> b.name() == parameter@,
            res matches Ok(b) ==> spn_entries(self.libraries()[key@]).contains(
                (parameter@, b.spn_definition()),
            ),
            res matches Err(e) ==> e == ExplainError::NotFound,
    {
        match self.framelibrary.define(key, parameter) {
            Some(definition) => Ok(definition),
            None => Err(ExplainError::NotFound),
        }
    }
}

} // verus!
