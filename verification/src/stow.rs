//! The pipeline's configuration and the decisions it makes along the way.

use vstd::prelude::*;
use secstr::SecUtf8;
use crate::chunker::{chunk_count, chunked, chunks_of, rows};
use crate::chunker::{chunk_end, lemma_chunk_bounds, lemma_chunks_disjoint};
use crate::chunker::{lemma_chunked_shape, lemma_chunked_singles};
use crate::entry::{archive_name, has_suffix, is_archive_name, suffix};
use crate::entry::{lemma_archive_name_is_injective, lemma_archive_name_is_recognised};
use crate::entry::{EntryKind, PathEntry, SUFFIX};
use crate::host::{fresh_name, on_search_path};
use crate::job::{Job, Phase, Purpose};
use crate::output::{beside, kept_name, random_name, PackPath, PackPathError};

verus! {

/// Tuning options and root paths of one invocation.
#[derive(Debug)]
pub struct Options {
    /// Keep each file's name in the name of its artifact, one file per
    /// artifact, instead of hiding it behind a random name.
    pub keep_name: bool,
    /// How many files go into one artifact at most.
    pub bundle_count: usize,
    /// Advisory cap on an artifact's size, in bytes. Accepted and recorded;
    /// bundles are formed by count alone.
    pub bundle_size: usize,
    /// The roots to process, in order.
    pub paths: Vec<String>,
}

impl Default for Options {
    /// Hidden names, two files to a bundle, a size cap of `1M`, which is
    /// 1048576 bytes, and no roots.
    fn default() -> (options: Options)
        ensures
            !options.keep_name,
            options.bundle_count == 2,
            options.bundle_size == 1024 * 1024,
            options.paths@.len() == 0,
    {
        Options { keep_name: false, bundle_count: 2, bundle_size: 1024 * 1024, paths: Vec::new() }
    }
}

/// What to do with the roots.
#[derive(Debug)]
pub enum Action {
    /// Bundle, compress and encrypt every file below the roots.
    Pack(Options),
    /// Decrypt and unpack every artifact below the roots.
    Load(Options),
}

/// The arguments that make the archiver add `sources` to a new encrypted
/// archive at `output`, reading the password from its input and printing
/// neither progress nor listing.
pub open spec fn pack_args(output: Seq<char>, sources: Seq<Seq<char>>) -> Seq<Seq<char>> {
    seq!["a"@, "-p"@, "-mhe=on"@, "-bsp0"@, "-bso0"@, output] + sources
}

/// The arguments that make the archiver extract the archive at `path`
/// into `directory`, printing neither progress nor listing.
pub open spec fn load_args(path: Seq<char>, directory: Seq<char>) -> Seq<Seq<char>> {
    seq!["x"@, "-bsp0"@, "-bso0"@, "-o"@ + directory, path]
}

/// The directory that an artifact is unpacked into: the one it lies in,
/// which is the current directory where its path names none.
pub open spec fn home_of(parent: Option<Seq<char>>) -> Seq<char> {
    match parent {
        Some(directory) => if directory.len() > 0 {
            directory
        } else {
            "."@
        },
        None => "."@,
    }
}

/// A copy of `items` appended to `target`.
fn append_copies(target: &mut Vec<String>, items: &Vec<String>)
    ensures
        final(target).deep_view() == old(target).deep_view() + items.deep_view(),
{
    let ghost before = target.deep_view();
    let mut i: usize = 0;
    while i < items.len()
        invariant
            i <= items.len(),
            target.deep_view() == before + items.deep_view().take(i as int),
        decreases items.len() - i,
    {
        let ghost was = target.deep_view();
        target.push(items[i].clone());
        proof {
            assert(target.deep_view() =~= was.push(items[i as int]@));
            assert(items.deep_view().take(i + 1) =~= items.deep_view().take(i as int).push(
                items[i as int]@,
            ));
        }
        i += 1;
    }
    proof {
        assert(items.deep_view().take(i as int) =~= items.deep_view());
    }
}

/// Why a pipeline could not be set up.
#[derive(Clone, Copy, Debug, PartialEq, Eq)]
pub enum SetupError {
    /// The bundle count is zero.
    ZeroBundleCount,
    /// Neither archiver program is on the search path.
    NoArchiver,
}

/// What to do with a path that the traversal has arrived at.
#[derive(Clone, Copy, Debug, PartialEq, Eq)]
pub enum Visit {
    /// A directory: list it and deal with its children.
    Descend,
    /// A file to work on: pack it, or unpack it.
    Transform,
    /// Nothing to do here.
    Skip,
}

/// What to do next with the roots.
#[derive(Clone, Copy, Debug, PartialEq, Eq)]
pub enum Next {
    /// Pack the root with this index.
    Pack(usize),
    /// Load the root with this index.
    Load(usize),
    /// Every root has been processed.
    Done,
    /// A root has failed; the ones after it are left alone.
    Halt,
}

/// The view of an optional name.
pub open spec fn name_of(name: Option<&str>) -> Option<Seq<char>> {
    match name {
        Some(n) => Some(n@),
        None => None,
    }
}

/// The name is there and is that of a packed artifact.
pub open spec fn names_archive(name: Option<Seq<char>>) -> bool {
    match name {
        Some(n) => is_archive_name(n),
        None => false,
    }
}

/// The archiver to use: `7zz` if it was found, else `7z` if that was found.
pub open spec fn archiver_choice(has_7zz: bool, has_7z: bool) -> Option<Seq<char>> {
    if has_7zz {
        Some("7zz"@)
    } else if has_7z {
        Some("7z"@)
    } else {
        None
    }
}

/// Packing: directories are descended into, files are packed unless they
/// are artifacts already, and everything else is left alone.
pub open spec fn pack_visit(kind: EntryKind, name: Option<Seq<char>>) -> Visit {
    match kind {
        EntryKind::Directory => Visit::Descend,
        EntryKind::File => if names_archive(name) {
            Visit::Skip
        } else {
            Visit::Transform
        },
        EntryKind::Other => Visit::Skip,
    }
}

/// Loading: directories are descended into, artifacts are unpacked, and
/// everything else is left alone.
pub open spec fn load_visit(kind: EntryKind, name: Option<Seq<char>>) -> Visit {
    match kind {
        EntryKind::Directory => Visit::Descend,
        EntryKind::File => if names_archive(name) {
            Visit::Transform
        } else {
            Visit::Skip
        },
        EntryKind::Other => Visit::Skip,
    }
}

/// A file is either packed or loaded, never both, whatever it is called;
/// and nothing but files is ever transformed.
pub proof fn lemma_visits_exclusive(kind: EntryKind, name: Option<Seq<char>>)
    ensures
        kind == EntryKind::File ==> (pack_visit(kind, name) == Visit::Transform) != (load_visit(
            kind,
            name,
        ) == Visit::Transform),
        kind != EntryKind::File ==> pack_visit(kind, name) != Visit::Transform && load_visit(
            kind,
            name,
        ) != Visit::Transform,
        pack_visit(kind, name) == Visit::Descend <==> kind == EntryKind::Directory,
        load_visit(kind, name) == Visit::Descend <==> kind == EntryKind::Directory,
{
}

/// What packing writes under a kept name is what loading picks up, and
/// packing leaves it alone from then on.
pub proof fn lemma_artifacts_are_loaded_not_packed(name: Seq<char>)
    requires
        name.len() > 0,
    ensures
        load_visit(EntryKind::File, Some(archive_name(name))) == Visit::Transform,
        pack_visit(EntryKind::File, Some(archive_name(name))) == Visit::Skip,
{
    lemma_archive_name_is_recognised(name);
}

/// The files among `entries` that packing picks up, in listing order.
pub open spec fn packable_files(entries: Seq<PathEntry>) -> Seq<PathEntry> {
    entries.filter(|e: PathEntry| e.packable())
}

/// The directories among `entries`, in listing order.
pub open spec fn directories(entries: Seq<PathEntry>) -> Seq<PathEntry> {
    entries.filter(|e: PathEntry| e.directory())
}

/// No two of the entries share a name, as in the listing of one directory.
pub open spec fn names_distinct(entries: Seq<PathEntry>) -> bool {
    forall|i: int, j: int|
        0 <= i < j < entries.len() ==> (#[trigger] entries[i]).name@ != (#[trigger] entries[j]).name@
}

/// Picking entries out of a listing leaves their names distinct.
pub proof fn lemma_selection_keeps_names_distinct(
    entries: Seq<PathEntry>,
    pred: spec_fn(PathEntry) -> bool,
)
    requires
        names_distinct(entries),
    ensures
        names_distinct(entries.filter(pred)),
    decreases entries.len(),
{
    if entries.len() == 0 {
        entries.lemma_filter_len(pred);
    } else {
        let rest = entries.drop_last();
        let last = entries.last();
        assert(entries =~= rest.push(last));
        rest.lemma_filter_push(last, pred);
        lemma_selection_keeps_names_distinct(rest, pred);
        if pred(last) {
            let picked = rest.filter(pred);
            assert forall|i: int, j: int| 0 <= i < j < picked.len() + 1 implies (
            #[trigger] picked.push(last)[i]).name@ != (#[trigger] picked.push(last)[j]).name@ by {
                if j == picked.len() {
                    assert(picked.contains(picked[i]));
                    rest.lemma_filter_contains_rev(pred, picked[i]);
                    let m = choose|m: int| 0 <= m < rest.len() && rest[m] == picked[i];
                    assert(entries[m] == picked[i]);
                    assert(entries[entries.len() - 1] == last);
                }
            }
        }
    }
}

/// The bundles of one directory share no file: files of different bundles
/// differ in name. The workers that pack them never touch the same file.
pub proof fn lemma_bundles_disjoint(entries: Seq<PathEntry>, k: nat, i: int, j: int, a: int, b: int)
    requires
        names_distinct(entries),
        k > 0,
        0 <= i < j < chunked(packable_files(entries), k).len(),
        0 <= a < chunked(packable_files(entries), k)[i].len(),
        0 <= b < chunked(packable_files(entries), k)[j].len(),
    ensures
        chunked(packable_files(entries), k)[i][a].name@ != chunked(
            packable_files(entries),
            k,
        )[j][b].name@,
{
    let files = packable_files(entries);
    lemma_selection_keeps_names_distinct(entries, |e: PathEntry| e.packable());
    lemma_chunk_bounds(files.len(), k, i);
    lemma_chunk_bounds(files.len(), k, j);
    lemma_chunks_disjoint(files.len(), k, i, j);
    let x = i * k + a;
    let y = j * k + b;
    assert(chunked(files, k)[i][a] == files[x]);
    assert(chunked(files, k)[j][b] == files[y]);
    assert(x < y);
}

/// When names are kept, the bundles of one directory are written to
/// artifacts of different names: no two workers write to the same path.
pub proof fn lemma_kept_outputs_distinct(entries: Seq<PathEntry>, i: int, j: int)
    requires
        names_distinct(entries),
        0 <= i < j < chunked(packable_files(entries), 1).len(),
    ensures
        archive_name(chunked(packable_files(entries), 1)[i][0].name@) != archive_name(
            chunked(packable_files(entries), 1)[j][0].name@,
        ),
{
    let files = packable_files(entries);
    lemma_chunked_singles(files);
    lemma_bundles_disjoint(entries, 1, i, j, 0, 0);
    if archive_name(files[i].name@) == archive_name(files[j].name@) {
        lemma_archive_name_is_injective(files[i].name@, files[j].name@);
    }
}

/// The entries that a sequence of references points at.
pub open spec fn targets(refs: Seq<&PathEntry>) -> Seq<PathEntry> {
    refs.map_values(|e: &PathEntry| *e)
}

/// The entries of each bundle.
pub open spec fn bundles(chunks: &Vec<Vec<&PathEntry>>) -> Seq<Seq<PathEntry>> {
    Seq::new(chunks@.len(), |i: int| targets(chunks@[i]@))
}

/// The step after `finished` of `roots` roots, all of them well if `ok`.
pub open spec fn next_root(packing: bool, roots: nat, finished: nat, ok: bool) -> Next {
    if !ok {
        Next::Halt
    } else if finished >= roots {
        Next::Done
    } else if packing {
        Next::Pack(finished as usize)
    } else {
        Next::Load(finished as usize)
    }
}

/// Tells whether a name is there and is that of a packed artifact.
pub fn names_an_archive(name: Option<&str>) -> (b: bool)
    ensures
        b == names_archive(name_of(name)),
{
    match name {
        Some(n) => has_suffix(n),
        None => false,
    }
}

/// Names the directory that an artifact is unpacked into, from the parent
/// directory of the artifact's path.
pub fn unpack_directory(parent: Option<&str>) -> (directory: String)
    ensures
        directory@ == home_of(name_of(parent)),
{
    match parent {
        Some(directory) => if directory.unicode_len() > 0 {
            String::from_str(directory)
        } else {
            String::from_str(".")
        },
        None => String::from_str("."),
    }
}

/// Picks the archiver from what was found on the search path.
pub fn choose_archiver(has_7zz: bool, has_7z: bool) -> (chosen: Result<String, SetupError>)
    ensures
        match chosen {
            Ok(program) => archiver_choice(has_7zz, has_7z) == Some(program@),
            Err(e) => archiver_choice(has_7zz, has_7z).is_none() && e == SetupError::NoArchiver,
        },
{
    if has_7zz {
        Ok(String::from_str("7zz"))
    } else if has_7z {
        Ok(String::from_str("7z"))
    } else {
        Err(SetupError::NoArchiver)
    }
}

/// Looks for the archiver on the search path, preferring `7zz` over `7z`.
pub fn get_7z() -> (found: Result<String, SetupError>)
    ensures
        match found {
            Ok(program) => program@ == "7zz"@ || program@ == "7z"@,
            Err(e) => e == SetupError::NoArchiver,
        },
{
    let has_7zz = on_search_path("7zz");
    let has_7z = if has_7zz {
        false
    } else {
        on_search_path("7z")
    };
    choose_archiver(has_7zz, has_7z)
}

/// The number of workers to fan the work out to: one for each processor
/// that is available to this process.
pub fn worker_count() -> (workers: usize)
    ensures
        workers >= 1,
{
    num_cpus::get()
}

/// A pipeline that is ready to run: what to do, with which archiver, under
/// which password, on which roots and with which tuning.
pub struct Stow {
    packing: bool,
    archiver: String,
    password: SecUtf8,
    paths: Vec<String>,
    keep_name: bool,
    bundle_count: usize,
    bundle_size: usize,
    cpus: usize,
}

/// What a pipeline is made of, as plain values, but for the password.
pub struct StowView {
    pub packing: bool,
    pub archiver: Seq<char>,
    pub paths: Seq<Seq<char>>,
    pub keep_name: bool,
    pub bundle_count: nat,
    pub bundle_size: nat,
    pub cpus: nat,
}

impl StowView {
    /// How many files go into one bundle: one when names are kept, the
    /// bundle count otherwise.
    pub open spec fn chunk_len(self) -> nat {
        if self.keep_name {
            1
        } else {
            self.bundle_count
        }
    }
}

impl View for Stow {
    type V = StowView;

    closed spec fn view(&self) -> StowView {
        StowView {
            packing: self.packing,
            archiver: self.archiver@,
            paths: self.paths.deep_view(),
            keep_name: self.keep_name,
            bundle_count: self.bundle_count as nat,
            bundle_size: self.bundle_size as nat,
            cpus: self.cpus as nat,
        }
    }
}

impl Action {
    /// Whether this is packing.
    pub open spec fn packing(self) -> bool {
        self is Pack
    }

    /// The options, whichever way the pipeline runs.
    pub open spec fn options(self) -> Options {
        match self {
            Action::Pack(options) => options,
            Action::Load(options) => options,
        }
    }

    /// Refuses options that no pipeline can run with, which is a bundle
    /// count of zero. Nothing else is looked at, so this can be asked before
    /// the password is.
    pub fn check(&self) -> (checked: Result<(), SetupError>)
        ensures
            match checked {
                Ok(_) => self.options().bundle_count > 0,
                Err(e) => self.options().bundle_count == 0 && e == SetupError::ZeroBundleCount,
            },
    {
        let count = match self {
            Action::Pack(options) => options.bundle_count,
            Action::Load(options) => options.bundle_count,
        };
        if count == 0 {
            Err(SetupError::ZeroBundleCount)
        } else {
            Ok(())
        }
    }
}

impl Stow {
    #[verifier::type_invariant]
    spec fn sound(self) -> bool {
        self.bundle_count > 0
    }

    /// The password as it was handed in.
    pub closed spec fn secret(self) -> SecUtf8 {
        self.password
    }

    /// Puts a pipeline together from the action, the password and what the
    /// host reported. A bundle count of zero is refused before anything
    /// else is looked at.
    pub fn assemble(
        action: Action,
        password: SecUtf8,
        has_7zz: bool,
        has_7z: bool,
        cpus: usize,
    ) -> (made: Result<Stow, SetupError>)
        ensures
            match made {
                Ok(stow) => {
                    &&& action.options().bundle_count > 0
                    &&& archiver_choice(has_7zz, has_7z) == Some(stow@.archiver)
                    &&& stow@.packing == action.packing()
                    &&& stow@.paths == action.options().paths.deep_view()
                    &&& stow@.keep_name == action.options().keep_name
                    &&& stow@.bundle_count == action.options().bundle_count
                    &&& stow@.bundle_size == action.options().bundle_size
                    &&& stow@.cpus == cpus
                    &&& stow.secret() == password
                },
                Err(SetupError::ZeroBundleCount) => action.options().bundle_count == 0,
                Err(SetupError::NoArchiver) => action.options().bundle_count > 0 && archiver_choice(
                    has_7zz,
                    has_7z,
                ).is_none(),
            },
    {
        if let Err(e) = action.check() {
            return Err(e);
        }
        let (packing, options) = match action {
            Action::Pack(options) => (true, options),
            Action::Load(options) => (false, options),
        };
        match choose_archiver(has_7zz, has_7z) {
            Ok(archiver) => Ok(
                Stow {
                    packing,
                    archiver,
                    password,
                    paths: options.paths,
                    keep_name: options.keep_name,
                    bundle_count: options.bundle_count,
                    bundle_size: options.bundle_size,
                    cpus,
                },
            ),
            Err(e) => Err(e),
        }
    }

    /// Sets a pipeline up on this host: finds the archiver on the search
    /// path and sizes the worker pool by the number of processors.
    pub fn new(action: Action, password: SecUtf8) -> (made: Result<Stow, SetupError>)
        ensures
            match made {
                Ok(stow) => {
                    &&& action.options().bundle_count > 0
                    &&& (stow@.archiver == "7zz"@ || stow@.archiver == "7z"@)
                    &&& stow@.packing == action.packing()
                    &&& stow@.paths == action.options().paths.deep_view()
                    &&& stow@.keep_name == action.options().keep_name
                    &&& stow@.bundle_count == action.options().bundle_count
                    &&& stow@.bundle_size == action.options().bundle_size
                    &&& stow@.cpus >= 1
                    &&& stow.secret() == password
                },
                Err(SetupError::ZeroBundleCount) => action.options().bundle_count == 0,
                Err(SetupError::NoArchiver) => action.options().bundle_count > 0,
            },
    {
        let has_7zz = on_search_path("7zz");
        let has_7z = if has_7zz {
            false
        } else {
            on_search_path("7z")
        };
        Stow::assemble(action, password, has_7zz, has_7z, worker_count())
    }

    /// Whether the pipeline packs; it loads otherwise.
    pub fn is_packing(&self) -> (packing: bool)
        ensures
            packing == self@.packing,
    {
        self.packing
    }

    /// The archiver program.
    pub fn archiver(&self) -> (archiver: &String)
        ensures
            archiver@ == self@.archiver,
    {
        &self.archiver
    }

    /// The password.
    pub fn password(&self) -> (password: &SecUtf8)
        ensures
            *password == self.secret(),
    {
        &self.password
    }

    /// The roots, in the order in which they are processed.
    pub fn paths(&self) -> (paths: &Vec<String>)
        ensures
            paths.deep_view() == self@.paths,
    {
        &self.paths
    }

    /// Whether artifacts are named after the files they hold.
    pub fn keep_name(&self) -> (keep_name: bool)
        ensures
            keep_name == self@.keep_name,
    {
        self.keep_name
    }

    /// How many files go into one artifact at most; never zero.
    pub fn bundle_count(&self) -> (bundle_count: usize)
        ensures
            bundle_count == self@.bundle_count,
            bundle_count > 0,
    {
        proof {
            use_type_invariant(self);
        }
        self.bundle_count
    }

    /// The advisory cap on an artifact's size.
    pub fn bundle_size(&self) -> (bundle_size: usize)
        ensures
            bundle_size == self@.bundle_size,
    {
        self.bundle_size
    }

    /// The number of workers to fan the work out to.
    pub fn cpus(&self) -> (cpus: usize)
        ensures
            cpus == self@.cpus,
    {
        self.cpus
    }

    /// Sorts the children of one directory into bundles of files to pack
    /// and subdirectories to descend into.
    ///
    /// The files that packing picks up are cut, in listing order, into
    /// bundles of the bundle count, or of one file each when names are kept;
    /// so there are as many bundles as the number of such files divided by
    /// that length, rounded up, all of them full but possibly the last, and
    /// none of them empty. Without such files there is no bundle. The
    /// directories are handed back in listing order; whatever is neither is
    /// dropped.
    pub fn get_chunks_and_dirs<'a>(&self, entries: &'a Vec<PathEntry>) -> (parts: (
        Vec<Vec<&'a PathEntry>>,
        Vec<&'a PathEntry>,
    ))
        ensures
            self@.chunk_len() > 0,
            bundles(&parts.0) == chunked(packable_files(entries@), self@.chunk_len()),
            targets(parts.1@) == directories(entries@),
            forall|i: int, j: int|
                0 <= i < parts.0@.len() && 0 <= j < parts.0@[i]@.len() ==> (
                #[trigger] parts.0@[i]@[j]).packable(),
            forall|j: int| 0 <= j < parts.1@.len() ==> (#[trigger] parts.1@[j]).directory(),
            parts.0@.len() == chunk_count(packable_files(entries@).len(), self@.chunk_len()),
            forall|i: int|
                0 <= i < parts.0@.len() - 1 ==> (#[trigger] parts.0@[i])@.len()
                    == self@.chunk_len(),
            parts.0@.len() > 0 ==> 1 <= parts.0@.last()@.len() <= self@.chunk_len(),
            self@.keep_name ==> parts.0@.len() == packable_files(entries@).len(),
            self@.keep_name ==> forall|i: int|
                0 <= i < parts.0@.len() ==> targets((#[trigger] parts.0@[i])@) == seq![
                    packable_files(entries@)[i],
                ],
    {
        proof {
            use_type_invariant(self);
        }
        let k: usize = if self.keep_name {
            1
        } else {
            self.bundle_count
        };
        let mut files: Vec<&'a PathEntry> = Vec::new();
        let mut dirs: Vec<&'a PathEntry> = Vec::new();
        let mut i: usize = 0;
        proof {
            assert(entries@.take(0) =~= Seq::<PathEntry>::empty());
            assert(targets(files@) =~= packable_files(entries@.take(0)));
            assert(targets(dirs@) =~= directories(entries@.take(0)));
        }
        while i < entries.len()
            invariant
                i <= entries@.len(),
                targets(files@) == packable_files(entries@.take(i as int)),
                targets(dirs@) == directories(entries@.take(i as int)),
            decreases entries@.len() - i,
        {
            let entry: &'a PathEntry = &entries[i];
            let ghost seen = entries@.take(i as int);
            let ghost had_files = files@;
            let ghost had_dirs = dirs@;
            proof {
                assert(entries@.take(i + 1) =~= seen.push(*entry));
                seen.lemma_filter_push(*entry, |e: PathEntry| e.packable());
                seen.lemma_filter_push(*entry, |e: PathEntry| e.directory());
            }
            if entry.is_packable() {
                files.push(entry);
                proof {
                    assert(targets(files@) =~= targets(had_files).push(*entry));
                }
            } else if entry.is_directory() {
                dirs.push(entry);
                proof {
                    assert(targets(dirs@) =~= targets(had_dirs).push(*entry));
                }
            }
            i += 1;
        }
        proof {
            assert(entries@.take(i as int) =~= entries@);
        }
        let chunks = chunks_of(&files, k);
        proof {
            let wanted = chunked(packable_files(entries@), k as nat);
            lemma_chunked_shape(files@, k as nat);
            lemma_chunked_shape(packable_files(entries@), k as nat);
            assert(bundles(&chunks).len() == wanted.len());
            assert forall|c: int| 0 <= c < wanted.len() implies bundles(&chunks)[c] == wanted[c] by {
                let n = files@.len();
                lemma_chunk_bounds(n, k as nat, c);
                assert(targets(files@).len() == n);
                assert(chunks@[c]@ == rows(&chunks)[c]);
                assert(chunks@[c]@ == files@.subrange(c * k, chunk_end(c, n, k as nat)));
                assert(wanted[c] == targets(files@).subrange(c * k, chunk_end(c, n, k as nat)));
                assert(targets(chunks@[c]@) =~= wanted[c]);
            }
            assert(bundles(&chunks) =~= wanted);
            assert forall|c: int| 0 <= c < chunks@.len() - 1 implies (#[trigger] chunks@[c])@.len()
                == k by {
                assert(chunks@[c]@ == rows(&chunks)[c]);
            }
            if chunks@.len() > 0 {
                assert(chunks@.last()@ == rows(&chunks).last());
            }
            assert forall|c: int, j: int|
                0 <= c < chunks@.len() && 0 <= j < chunks@[c]@.len() implies (
            #[trigger] chunks@[c]@[j]).packable() by {
                let n = files@.len();
                lemma_chunk_bounds(n, k as nat, c);
                assert(chunks@[c]@ == rows(&chunks)[c]);
                let at = c * k + j;
                assert(0 <= at < n);
                assert(targets(files@).len() == n);
                assert(*chunks@[c]@[j] == targets(files@)[at]);
                entries@.lemma_filter_pred(|e: PathEntry| e.packable(), at);
            }
            assert forall|j: int| 0 <= j < dirs@.len() implies (#[trigger] dirs@[j]).directory() by {
                assert(*dirs@[j] == targets(dirs@)[j]);
                entries@.lemma_filter_pred(|e: PathEntry| e.directory(), j);
            }
            if self.keep_name {
                lemma_chunked_singles(packable_files(entries@));
                assert forall|c: int| 0 <= c < chunks@.len() implies targets(
                    (#[trigger] chunks@[c])@,
                ) == seq![packable_files(entries@)[c]] by {
                    assert(targets(chunks@[c]@) == bundles(&chunks)[c]);
                }
            }
        }
        (chunks, dirs)
    }

    /// Names the artifact of a bundle from the file name and the parent
    /// directory of the bundle's first file.
    ///
    /// When names are kept the artifact is called after that file, with the
    /// suffix appended. Otherwise the host is asked for a fresh random name
    /// that ends in the suffix, so that the name tells nothing of the
    /// content. Either way the artifact lies beside the bundle's files.
    pub fn get_pack_path(&self, name: Option<&str>, parent: Option<&str>) -> (placed: Result<
        PackPath,
        PackPathError,
    >)
        ensures
            self@.keep_name ==> match placed {
                Ok(path) => name.is_some() && parent.is_some() && path.directory@
                    == parent.unwrap()@ && path.file_name@ == archive_name(name.unwrap()@) && (
                name.unwrap()@.len() > 0 ==> is_archive_name(path.file_name@)),
                Err(PackPathError::NoFileName) => name.is_none(),
                Err(PackPathError::NoParent) => name.is_some() && parent.is_none(),
                Err(_) => false,
            },
            !self@.keep_name ==> match placed {
                Ok(path) => parent.is_some() && path.directory@ == parent.unwrap()@
                    && is_archive_name(path.file_name@),
                Err(PackPathError::NoParent) => parent.is_none(),
                Err(PackPathError::NoFileName) => false,
                Err(_) => true,
            },
    {
        let named = if self.keep_name {
            kept_name(name)
        } else {
            proof {
                reveal_strlit(".7z");
            }
            random_name(fresh_name(SUFFIX))
        };
        proof {
            reveal_strlit(".7z");
            assert(SUFFIX@ =~= suffix());
            if self.keep_name && name.is_some() && name.unwrap()@.len() > 0 {
                lemma_archive_name_is_recognised(name.unwrap()@);
            }
        }
        beside(named, parent)
    }

    /// The job that packs the files at `paths` into a new artifact at
    /// `output_path` and removes them afterwards.
    pub fn bundle_7z(&self, paths: &Vec<String>, output_path: &str) -> (job: Job)
        ensures
            job@.purpose == Purpose::Pack,
            job@.program == self@.archiver,
            job@.args == pack_args(output_path@, paths.deep_view()),
            job@.doomed == paths.deep_view(),
            job@.phase == Phase::Ready,
    {
        let mut args: Vec<String> = Vec::new();
        args.push(String::from_str("a"));
        args.push(String::from_str("-p"));
        args.push(String::from_str("-mhe=on"));
        args.push(String::from_str("-bsp0"));
        args.push(String::from_str("-bso0"));
        args.push(String::from_str(output_path));
        proof {
            assert(args.deep_view() =~= seq![
                "a"@,
                "-p"@,
                "-mhe=on"@,
                "-bsp0"@,
                "-bso0"@,
                output_path@,
            ]);
        }
        append_copies(&mut args, paths);
        let mut doomed: Vec<String> = Vec::new();
        proof {
            assert(doomed.deep_view() =~= Seq::<Seq<char>>::empty());
        }
        append_copies(&mut doomed, paths);
        proof {
            assert(Seq::<Seq<char>>::empty() + paths.deep_view() =~= paths.deep_view());
        }
        Job::new(Purpose::Pack, self.archiver.clone(), args, doomed)
    }

    /// The job that unpacks the artifact at `path` into `directory` and
    /// removes the artifact afterwards. Handed the directory that the
    /// artifact lies in, see [`unpack_directory`], it puts every recovered
    /// file beside the artifact.
    pub fn unbundle_7z(&self, path: &str, directory: &str) -> (job: Job)
        ensures
            job@.purpose == Purpose::Load,
            job@.program == self@.archiver,
            job@.args == load_args(path@, directory@),
            job@.doomed == seq![path@],
            job@.phase == Phase::Ready,
    {
        let mut args: Vec<String> = Vec::new();
        args.push(String::from_str("x"));
        args.push(String::from_str("-bsp0"));
        args.push(String::from_str("-bso0"));
        args.push(String::from_str("-o").concat(directory));
        args.push(String::from_str(path));
        let mut doomed: Vec<String> = Vec::new();
        doomed.push(String::from_str(path));
        proof {
            assert(args.deep_view() =~= load_args(path@, directory@));
            assert(doomed.deep_view() =~= seq![path@]);
        }
        Job::new(Purpose::Load, self.archiver.clone(), args, doomed)
    }

    /// Says what packing does with a path of this kind and file name.
    pub fn pack(&self, kind: EntryKind, name: Option<&str>) -> (visit: Visit)
        ensures
            visit == pack_visit(kind, name_of(name)),
    {
        match kind {
            EntryKind::Directory => Visit::Descend,
            EntryKind::File => if names_an_archive(name) {
                Visit::Skip
            } else {
                Visit::Transform
            },
            EntryKind::Other => Visit::Skip,
        }
    }

    /// Says what loading does with a path of this kind and file name.
    ///
    /// A path that is neither a file nor a directory, such as that of an
    /// artifact which an earlier load has unpacked and removed, is skipped:
    /// loading it again does nothing and is no error.
    pub fn load(&self, kind: EntryKind, name: Option<&str>) -> (visit: Visit)
        ensures
            visit == load_visit(kind, name_of(name)),
            kind == EntryKind::Other ==> visit == Visit::Skip,
    {
        match kind {
            EntryKind::Directory => Visit::Descend,
            EntryKind::File => if names_an_archive(name) {
                Visit::Transform
            } else {
                Visit::Skip
            },
            EntryKind::Other => Visit::Skip,
        }
    }

    /// Says what to do once `finished` roots have been processed, all of
    /// them with success if `ok` is set: the roots are taken in order, each
    /// packed or loaded as the pipeline was set up, and the first failure
    /// ends the run.
    pub fn run(&self, finished: usize, ok: bool) -> (next: Next)
        ensures
            next == next_root(self@.packing, self@.paths.len(), finished as nat, ok),
    {
        proof {
            assert(self.paths.deep_view().len() == self.paths@.len());
        }
        if !ok {
            Next::Halt
        } else if finished >= self.paths.len() {
            Next::Done
        } else if self.packing {
            Next::Pack(finished)
        } else {
            Next::Load(finished)
        }
    }
}

} // verus!
