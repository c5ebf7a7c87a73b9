//! Libraries of signal definitions read from DBC files, kept by key, and
//! the lookup of one signal (SPN) in them.

use vstd::prelude::*;

use canparse::pgn::{PgnLibrary, SpnDefinition};
use hashbrown::HashMap;

verus! {

/// `canparse::pgn::PgnLibrary`, a parsed DBC file, opaque to verification.
#[verifier::external_type_specification]
#[verifier::external_body]
pub struct ExPgnLibrary(canparse::pgn::PgnLibrary);

/// `canparse::pgn::SpnDefinition`, how one signal is decoded, opaque to
/// verification.
#[verifier::external_type_specification]
#[verifier::external_body]
pub struct ExSpnDefinition(canparse::pgn::SpnDefinition);

/// Key to the library loaded under it.
pub type LibraryTable = HashMap<String, PgnLibrary>;

/// What a library table holds: each key's text to its library.
pub uninterp spec fn loaded_libraries(m: LibraryTable) -> Map<Seq<char>, PgnLibrary>;

/// `hashbrown::HashMap::new`: an empty map.
#[verifier::external_body]
fn library_table_new() -> (res: LibraryTable)
    ensures
        loaded_libraries(res) =~= Map::empty(),
{
    HashMap::new()
}

/// `hashbrown::HashMap::insert`: the key now holds the library, whatever
/// it held before; the other keys are untouched.
#[verifier::external_body]
fn library_table_insert(m: &mut LibraryTable, key: String, value: PgnLibrary)
    ensures
        loaded_libraries(*final(m)) == loaded_libraries(*old(m)).insert(key@, value),
{
    m.insert(key, value);
}

/// `hashbrown::HashMap::get` with a string key: the library under the
/// key, if there is one.
#[verifier::external_body]
fn library_table_get<'a>(m: &'a LibraryTable, key: &str) -> (res: Option<&'a PgnLibrary>)
    ensures
        match res {
            Some(lib) => loaded_libraries(*m).dom().contains(key@) && *lib == loaded_libraries(
                *m,
            )[key@],
            None => !loaded_libraries(*m).dom().contains(key@),
        },
{
    m.get(key)
}

/// The names of the signals that a library defines, over all of its
/// parameter groups.
pub uninterp spec fn spn_names(library: PgnLibrary) -> Set<Seq<char>>;

/// The signal definitions that a library holds, each with the name it is
/// held under in its parameter group.
pub uninterp spec fn spn_entries(library: PgnLibrary) -> Set<(Seq<char>, SpnDefinition)>;

/// `PgnLibrary::get_spn` followed by `Clone::clone`: a copy of a
/// definition exactly when one of the library's parameter groups defines
/// the name `spn`, and then one that the library holds under that name.
/// The library searches its groups in the order its std `HashMap` walks
/// them, so which of several such definitions is found is not stated.
#[verifier::external_body]
fn find_spn(library: &PgnLibrary, spn: &str) -> (res: Option<SpnDefinition>)
    ensures
        res is Some <==> spn_names(*library).contains(spn@),
        res matches Some(d) ==> spn_entries(*library).contains((spn@, d)),
{
    library.get_spn(spn).cloned()
}

/// A signal definition together with the name it was looked up by.
pub struct ValueDefinitionBridge {
    spn: String,
    definition: SpnDefinition,
}

impl ValueDefinitionBridge {
    /// The name the definition was looked up by.
    pub closed spec fn name(&self) -> Seq<char> {
        self.spn@
    }

    /// The definition.
    pub closed spec fn spn_definition(&self) -> SpnDefinition {
        self.definition
    }

    /// The name the definition was looked up by.
    pub fn get_name(&self) -> (res: &String)
        ensures
            res@ == self.name(),
    {
        &self.spn
    }

    /// The definition, for decoding a payload.
    pub fn definition(&self) -> (res: &SpnDefinition)
        ensures
            *res == self.spn_definition(),
    {
        &self.definition
    }

    /// Pairs a definition found under `spn` with that name; nothing when
    /// nothing was found.
    pub fn from_lookup(spn: &str, found: Option<SpnDefinition>) -> (res: Option<
        ValueDefinitionBridge,
    >)
        ensures
            match found {
                Some(d) => res matches Some(b) && b.name() == spn@ && b.spn_definition() == d,
                None => res is None,
            },
    {
        match found {
            Some(definition) => Some(ValueDefinitionBridge { spn: spn.to_owned(), definition }),
            None => None,
        }
    }
}

/// Libraries of signal definitions, by key.
pub struct FrameDefinitionLibrary {
    pgn_map: LibraryTable,
}

impl FrameDefinitionLibrary {
    /// The libraries, by key.
    pub closed spec fn libraries(&self) -> Map<Seq<char>, PgnLibrary> {
        loaded_libraries(self.pgn_map)
    }

    /// No library loaded.
    pub fn new() -> (res: Self)
        ensures
            res.libraries() == Map::<Seq<char>, PgnLibrary>::empty(),
    {
        FrameDefinitionLibrary { pgn_map: library_table_new() }
    }

    /// Keeps `library` under `key`; a library already under `key` is
    /// replaced.
    pub fn load(&mut self, key: &str, library: PgnLibrary)
        ensures
            final(self).libraries() == old(self).libraries().insert(key@, library),
    {
        library_table_insert(&mut self.pgn_map, key.to_owned(), library);
    }

    /// Looks up the signal `spn` in the library under `key`: there is a
    /// definition exactly when such a library exists and defines `spn`;
    /// it carries the name `spn` and is one that library holds under it.
    pub fn define(&self, key: &str, spn: &str) -> (res: Option<ValueDefinitionBridge>)
        ensures
            res is Some <==> self.libraries().dom().contains(key@) && spn_names(
                self.libraries()[key@],
            ).contains(spn@),
            res matches Some(b) ==> b.name() == spn@,
            res matches Some(b) ==> spn_entries(self.libraries()[key@]).contains(
                (spn@, b.spn_definition()),
            ),
    {
        match library_table_get(&self.pgn_map, key) {
            Some(library) => ValueDefinitionBridge::from_lookup(spn, find_spn(library, spn)),
            None => None,
        }
    }
}

} // verus!
