//! The compilation world's stores: the live main document and the package
//! files handed over by the host, with the lookup that the compiler uses.

use vstd::prelude::*;
use vstd::utf8::*;
use vstd::slice::slice_to_vec;
use crate::identity::{CoordView, FileKey, KeyView, PackageCoord, parse_error_of, parsed_coord};
use crate::preprocess::{expand, expand_wiki_links};

verus! {

broadcast use {encode_utf8_valid_utf8, encode_utf8_decode_utf8};

/// The map that a sequence of writes leaves behind: a later write of a key
/// replaces an earlier one.
pub open spec fn map_of(entries: Seq<(FileKey, Vec<u8>)>) -> Map<KeyView, Seq<u8>>
    decreases entries.len(),
{
    if entries.len() == 0 {
        Map::empty()
    } else {
        let last = entries.last();
        map_of(entries.drop_last()).insert(last.0@, last.1@)
    }
}

/// The map after every file of one package has been written, in order.
pub open spec fn with_files(
    m: Map<KeyView, Seq<u8>>,
    coord: CoordView,
    files: Seq<(String, Vec<u8>)>,
) -> Map<KeyView, Seq<u8>>
    decreases files.len(),
{
    if files.len() == 0 {
        m
    } else {
        let last = files.last();
        with_files(m, coord, files.drop_last()).insert((Some(coord), last.0@), last.1@)
    }
}

/// Package files by identity, one entry per key.
pub struct PackageStore {
    entries: Vec<(FileKey, Vec<u8>)>,
}

impl View for PackageStore {
    type V = Map<KeyView, Seq<u8>>;

    closed spec fn view(&self) -> Map<KeyView, Seq<u8>> {
        map_of(self.entries@)
    }
}

proof fn lemma_map_of_tail(entries: Seq<(FileKey, Vec<u8>)>, i: int, k: KeyView)
    requires
        0 <= i <= entries.len(),
        forall|m: int| i <= m < entries.len() ==> (#[trigger] entries[m]).0@ != k,
    ensures
        map_of(entries).contains_key(k) == map_of(entries.subrange(0, i)).contains_key(k),
        map_of(entries)[k] == map_of(entries.subrange(0, i))[k],
    decreases entries.len() - i,
{
    if i < entries.len() {
        let shorter = entries.drop_last();
        lemma_map_of_tail(shorter, i, k);
        assert(shorter.subrange(0, i) =~= entries.subrange(0, i));
    } else {
        assert(entries.subrange(0, i) =~= entries);
    }
}

proof fn lemma_map_of_update(entries: Seq<(FileKey, Vec<u8>)>, i: int, e: (FileKey, Vec<u8>))
    requires
        0 <= i < entries.len(),
        entries[i].0@ == e.0@,
        forall|m: int| i < m < entries.len() ==> (#[trigger] entries[m]).0@ != e.0@,
    ensures
        map_of(entries.update(i, e)) == map_of(entries).insert(e.0@, e.1@),
    decreases entries.len(),
{
    let updated = entries.update(i, e);
    if i == entries.len() - 1 {
        assert(updated.drop_last() =~= entries.drop_last());
        assert(map_of(entries).insert(e.0@, e.1@) =~= map_of(entries.drop_last()).insert(e.0@, e.1@));
    } else {
        let shorter = entries.drop_last();
        assert(updated.drop_last() =~= shorter.update(i, e));
        assert(entries.last().0@ != e.0@);
        lemma_map_of_update(shorter, i, e);
        assert(map_of(updated) =~= map_of(entries).insert(e.0@, e.1@));
    }
}

impl PackageStore {
    /// An empty store.
    pub fn new() -> (r: PackageStore)
        ensures
            r.wf(),
            r@ == Map::<KeyView, Seq<u8>>::empty(),
    {
        PackageStore { entries: Vec::new() }
    }

    /// No key occurs twice.
    pub closed spec fn wf(&self) -> bool {
        forall|i: int, j: int|
            0 <= i < j < self.entries@.len() ==> (#[trigger] self.entries@[i]).0@ != (#[trigger] self.entries@[j]).0@
    }

    /// Stores `bytes` under `key`, replacing what the key held.
    pub fn insert(&mut self, key: FileKey, bytes: Vec<u8>)
        requires
            old(self).wf(),
        ensures
            final(self).wf(),
            final(self)@ == old(self)@.insert(key@, bytes@),
    {
        let ghost before = self.entries@;
        let mut i: usize = 0;
        while i < self.entries.len()
            invariant
                i <= self.entries.len(),
                self.entries@ == before,
                before == old(self).entries@,
                self.wf(),
                forall|m: int| 0 <= m < i ==> (#[trigger] self.entries@[m]).0@ != key@,
            decreases self.entries.len() - i,
        {
            if self.entries[i].0.same(&key) {
                let ghost k = key@;
                let ghost v = bytes@;
                self.entries.set(i, (key, bytes));
                proof {
                    assert forall|m: int| i < m < before.len() implies (#[trigger] before[m]).0@ != k by {
                        assert(before[i as int].0@ != before[m].0@);
                    }
                    assert forall|a: int, b: int| 0 <= a < b < self.entries@.len() implies
                        (#[trigger] self.entries@[a]).0@ != (#[trigger] self.entries@[b]).0@ by {
                        assert(before[a].0@ != before[b].0@);
                    }
                    assert(self.entries@[i as int].0@ == k && self.entries@[i as int].1@ == v);
                    lemma_map_of_update(before, i as int, self.entries@[i as int]);
                    assert(self.entries@ =~= before.update(i as int, self.entries@[i as int]));
                }
                return;
            }
            i += 1;
        }
        self.entries.push((key, bytes));
        assert(self.entries@.drop_last() =~= before);
    }

    /// The bytes stored under `key`, if any.
    pub fn get(&self, key: &FileKey) -> (r: Option<&Vec<u8>>)
        ensures
            match r {
                Some(b) => self@.contains_key(key@) && b@ == self@[key@],
                None => !self@.contains_key(key@),
            },
    {
        let mut i: usize = self.entries.len();
        while i > 0
            invariant
                i <= self.entries.len(),
                forall|m: int| i <= m < self.entries@.len() ==> (#[trigger] self.entries@[m]).0@ != key@,
            decreases i,
        {
            if self.entries[i - 1].0.same(key) {
                proof {
                    let e = self.entries@;
                    lemma_map_of_tail(e, i as int, key@);
                    let pre = e.subrange(0, i as int);
                    assert(pre.drop_last() =~= e.subrange(0, i - 1));
                    assert(pre.last() == e[i - 1]);
                }
                return Some(&self.entries[i - 1].1);
            }
            i -= 1;
        }
        proof {
            lemma_map_of_tail(self.entries@, 0, key@);
        }
        None
    }
}

/// Relies on `std::str::from_utf8`: it accepts exactly the valid UTF-8
/// sequences and decodes them.
#[verifier::external_body]
fn decode_utf8_text(b: &[u8]) -> (r: Option<String>)
    ensures
        match r {
            Some(s) => valid_utf8(b@) && s@ == decode_utf8(b@),
            None => !valid_utf8(b@),
        },
{
    std::str::from_utf8(b).ok().map(|s| s.to_string())
}

/// Why a lookup failed.
pub enum ResolveError {
    /// The identity names a package of which no file was loaded under it.
    PackageNotFound(PackageCoord),
    /// A bare path that is not the main document.
    Other,
    /// The file's bytes are not valid UTF-8.
    InvalidUtf8,
}

/// Why a package could not be loaded: the parser's message.
pub enum LoadError {
    InvalidPackageSpec(String),
}

/// The outcome of a lookup by identity, as bytes.
pub enum Lookup {
    Found(Seq<u8>),
    PackageNotFound(CoordView),
    NotFound,
}

/// The stores that the compiler reads through its world.
pub struct World {
    main: FileKey,
    main_text: Option<String>,
    packages: PackageStore,
}

impl World {
    /// The identity of the main document.
    pub closed spec fn main_key(&self) -> KeyView {
        self.main@
    }

    /// The text of the main document, once one was submitted.
    pub closed spec fn main_source(&self) -> Option<Seq<char>> {
        match self.main_text {
            Some(t) => Some(t@),
            None => None,
        }
    }

    /// The package files.
    pub closed spec fn package_files(&self) -> Map<KeyView, Seq<u8>> {
        self.packages@
    }

    /// The main document lives outside any package; the store holds each key
    /// once.
    pub closed spec fn wf(&self) -> bool {
        self.main.package is None && self.packages.wf()
    }

    /// The live document first, the package files next, then the typed failure.
    pub open spec fn lookup(&self, k: KeyView) -> Lookup {
        if self.main_source() is Some && k == self.main_key() {
            Lookup::Found(encode_utf8(self.main_source()->Some_0))
        } else if self.package_files().contains_key(k) {
            Lookup::Found(self.package_files()[k])
        } else {
            match k.0 {
                Some(c) => Lookup::PackageNotFound(c),
                None => Lookup::NotFound,
            }
        }
    }

    /// A world with no document and no packages; its main identity is the
    /// empty bare path.
    pub fn new() -> (r: World)
        ensures
            r.wf(),
            r.main_key() == (None::<CoordView>, Seq::<char>::empty()),
            r.main_source() is None,
            r.package_files() == Map::<KeyView, Seq<u8>>::empty(),
    {
        World {
            main: FileKey::bare(String::new()),
            main_text: None,
            packages: PackageStore::new(),
        }
    }

    /// The identity of the main document.
    pub fn main_identity(&self) -> (r: FileKey)
        ensures
            r@ == self.main_key(),
    {
        self.main.duplicate()
    }

    /// The bytes of the file `id`: the main document's text as UTF-8 when `id`
    /// is the main identity, else the package file, else the typed failure.
    pub fn resolve_bytes(&self, id: &FileKey) -> (r: Result<Vec<u8>, ResolveError>)
        ensures
            match (r, self.lookup(id@)) {
                (Ok(b), Lookup::Found(s)) => b@ == s,
                (Err(ResolveError::PackageNotFound(c)), Lookup::PackageNotFound(cv)) => c@ == cv,
                (Err(ResolveError::Other), Lookup::NotFound) => true,
                _ => false,
            },
    {
        if let Some(text) = &self.main_text {
            if self.main.same(id) {
                return Ok(slice_to_vec(text.as_str().as_bytes()));
            }
        }
        match self.packages.get(id) {
            Some(b) => Ok(slice_to_vec(b.as_slice())),
            None => Err(Self::missing(id)),
        }
    }

    /// The text of the file `id`, found as `resolve_bytes` finds it; package
    /// bytes must be valid UTF-8.
    pub fn resolve_text(&self, id: &FileKey) -> (r: Result<String, ResolveError>)
        ensures
            match (r, self.lookup(id@)) {
                (Ok(s), Lookup::Found(b)) => valid_utf8(b) && s@ == decode_utf8(b),
                (Err(ResolveError::InvalidUtf8), Lookup::Found(b)) => !valid_utf8(b),
                (Err(ResolveError::PackageNotFound(c)), Lookup::PackageNotFound(cv)) => c@ == cv,
                (Err(ResolveError::Other), Lookup::NotFound) => true,
                _ => false,
            },
    {
        if let Some(text) = &self.main_text {
            if self.main.same(id) {
                return Ok(text.clone());
            }
        }
        match self.packages.get(id) {
            Some(b) => match decode_utf8_text(b.as_slice()) {
                Some(s) => Ok(s),
                None => Err(ResolveError::InvalidUtf8),
            },
            None => Err(Self::missing(id)),
        }
    }

    fn missing(id: &FileKey) -> (r: ResolveError)
        ensures
            match (r, id@.0) {
                (ResolveError::PackageNotFound(c), Some(cv)) => c@ == cv,
                (ResolveError::Other, None) => true,
                _ => false,
            },
    {
        match &id.package {
            Some(c) => ResolveError::PackageNotFound(c.duplicate()),
            None => ResolveError::Other,
        }
    }

    /// Expands the wiki links of `src` and installs the result as the main
    /// document at the bare path `path`, replacing the previous one.
    pub fn submit(&mut self, src: &str, path: String)
        requires
            old(self).wf(),
        ensures
            final(self).wf(),
            final(self).main_key() == (None::<CoordView>, path@),
            final(self).main_source() == Some(expand(src@)),
            final(self).package_files() == old(self).package_files(),
    {
        let text = expand_wiki_links(src);
        self.main = FileKey::bare(path);
        self.main_text = Some(text);
    }

    /// Parses the package coordinate, then stores each file under it, in order.
    /// Nothing is stored when the coordinate does not parse.
    pub fn load_package(&mut self, spec: &str, files: Vec<(String, Vec<u8>)>) -> (r: Result<(), LoadError>)
        requires
            old(self).wf(),
        ensures
            final(self).wf(),
            r is Ok <==> parsed_coord(spec@) is Some,
            final(self).main_key() == old(self).main_key(),
            final(self).main_source() == old(self).main_source(),
            r is Err ==> final(self).package_files() == old(self).package_files(),
            r matches Err(LoadError::InvalidPackageSpec(m)) ==> m@ == parse_error_of(spec@),
            r is Ok ==> final(self).package_files() == with_files(
                old(self).package_files(),
                parsed_coord(spec@)->Some_0,
                files@,
            ),
    {
        let coord = match PackageCoord::parse(spec) {
            Ok(c) => c,
            Err(msg) => {
                return Err(LoadError::InvalidPackageSpec(msg));
            },
        };
        let ghost start = self.packages@;
        let mut i: usize = 0;
        while i < files.len()
            invariant
                i <= files.len(),
                Some(coord@) == parsed_coord(spec@),
                self.wf(),
                self.main_key() == old(self).main_key(),
                self.main_source() == old(self).main_source(),
                start == old(self).package_files(),
                self.packages@ == with_files(start, coord@, files@.subrange(0, i as int)),
            decreases files.len() - i,
        {
            let key = FileKey::in_package(coord.duplicate(), files[i].0.clone());
            let bytes = slice_to_vec(files[i].1.as_slice());
            self.packages.insert(key, bytes);
            proof {
                let pre = files@.subrange(0, i + 1);
                assert(pre.drop_last() =~= files@.subrange(0, i as int));
                assert(pre.last() == files@[i as int]);
            }
            i += 1;
        }
        assert(files@.subrange(0, files.len() as int) =~= files@);
        Ok(())
    }
}

proof fn lemma_with_files_last(
    m: Map<KeyView, Seq<u8>>,
    coord: CoordView,
    files: Seq<(String, Vec<u8>)>,
    i: int,
)
    requires
        0 <= i < files.len(),
        forall|n: int| i < n < files.len() ==> (#[trigger] files[n]).0@ != files[i].0@,
    ensures
        with_files(m, coord, files).contains_key((Some(coord), files[i].0@)),
        with_files(m, coord, files)[(Some(coord), files[i].0@)] == files[i].1@,
    decreases files.len(),
{
    if i < files.len() - 1 {
        let shorter = files.drop_last();
        assert(files.last().0@ != files[i].0@);
        assert forall|n: int| i < n < shorter.len() implies (#[trigger] shorter[n]).0@ != shorter[i].0@ by {
            assert(shorter[n] == files[n]);
        }
        lemma_with_files_last(m, coord, shorter, i);
    }
}

/// After a package is loaded, each of its files resolves, inside that package,
/// to the bytes last given for its path.
pub proof fn lemma_loaded_file_resolves(
    before: World,
    after: World,
    spec: Seq<char>,
    files: Seq<(String, Vec<u8>)>,
    i: int,
)
    requires
        before.wf(),
        after.wf(),
        parsed_coord(spec) is Some,
        after.main_key() == before.main_key(),
        after.main_source() == before.main_source(),
        after.package_files() == with_files(before.package_files(), parsed_coord(spec)->Some_0, files),
        0 <= i < files.len(),
        forall|n: int| i < n < files.len() ==> (#[trigger] files[n]).0@ != files[i].0@,
    ensures
        after.lookup((Some(parsed_coord(spec)->Some_0), files[i].0@)) == Lookup::Found(files[i].1@),
{
    lemma_with_files_last(before.package_files(), parsed_coord(spec)->Some_0, files, i);
}

/// A file inside a package of which nothing was loaded fails with
/// "package not found", naming that package.
pub proof fn lemma_unloaded_package_not_found(w: World, coord: CoordView, path: Seq<char>)
    requires
        w.wf(),
        forall|k: KeyView| #[trigger] w.package_files().contains_key(k) ==> k.0 != Some(coord),
    ensures
        w.lookup((Some(coord), path)) == Lookup::PackageNotFound(coord),
{
}

/// Loading the same file of a package twice leaves the second content the one
/// that resolves.
pub proof fn lemma_last_write_wins(
    w0: World,
    w1: World,
    w2: World,
    spec: Seq<char>,
    first: (String, Vec<u8>),
    second: (String, Vec<u8>),
)
    requires
        w0.wf(),
        w1.wf(),
        w2.wf(),
        parsed_coord(spec) is Some,
        first.0@ == second.0@,
        w1.main_key() == w0.main_key(),
        w1.main_source() == w0.main_source(),
        w1.package_files() == with_files(w0.package_files(), parsed_coord(spec)->Some_0, seq![first]),
        w2.main_key() == w1.main_key(),
        w2.main_source() == w1.main_source(),
        w2.package_files() == with_files(w1.package_files(), parsed_coord(spec)->Some_0, seq![second]),
    ensures
        w2.lookup((Some(parsed_coord(spec)->Some_0), first.0@)) == Lookup::Found(second.1@),
{
    lemma_loaded_file_resolves(w1, w2, spec, seq![second], 0);
}

} // verus!
