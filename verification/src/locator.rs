//! The search for the file: from a starting directory upward through its
//! ancestors to the root, taking the first directory that holds a file of
//! the given name.
//!
//! A directory is the sequence of the names on the way from the root to it;
//! the root is the empty sequence, and the parent of a directory is that
//! directory without its last name. Looking into a directory is left to the
//! caller: the locator names the directory to look into and is told what was
//! found there.

use vstd::prelude::*;

verus! {

/// What looking for the file in one directory gave.
#[derive(Debug, PartialEq, Eq)]
pub enum Probe {
    /// The directory holds no such file.
    Missing,
    /// The file is there and could not be opened or read.
    Unreadable,
    /// The file is there, with these contents.
    Loaded(String),
}

/// The file that was found: where, under which name, and what it holds.
#[derive(Debug, PartialEq, Eq)]
pub struct EnvFile {
    pub directory: Vec<String>,
    pub filename: String,
    pub contents: String,
}

/// Why no file was found.
#[derive(Debug, PartialEq, Eq)]
pub enum NotFoundError {
    /// No directory from the start up to the root holds the file.
    Absent,
    /// The file is in `directory` and could not be opened or read.
    Unreadable { directory: Vec<String> },
}

/// The mathematical content of an [`EnvFile`].
pub struct FileModel {
    pub directory: Seq<Seq<char>>,
    pub filename: Seq<char>,
    pub contents: Seq<char>,
}

/// The mathematical content of a [`NotFoundError`].
pub enum FailureModel {
    Absent,
    Unreadable { directory: Seq<Seq<char>> },
}

impl View for EnvFile {
    type V = FileModel;

    open spec fn view(&self) -> FileModel {
        FileModel {
            directory: self.directory.deep_view(),
            filename: self.filename@,
            contents: self.contents@,
        }
    }
}

impl View for NotFoundError {
    type V = FailureModel;

    open spec fn view(&self) -> FailureModel {
        match self {
            NotFoundError::Absent => FailureModel::Absent,
            NotFoundError::Unreadable { directory } => FailureModel::Unreadable {
                directory: directory.deep_view(),
            },
        }
    }
}

/// How a search goes on after a probe.
#[derive(Debug)]
pub enum Step {
    /// Look into the directory of this locator next.
    Probe(Locator),
    /// The search ended with this file.
    Found(EnvFile),
    /// The search ended without a file.
    Failed(NotFoundError),
}

/// A search under way: the directory it started from, the name it looks
/// for, and the directory to look into next, which is the start or one of
/// its ancestors.
#[derive(Debug)]
pub struct Locator {
    start: Vec<String>,
    filename: String,
    depth: usize,
}

/// The directories that a search from `start` looks into, in order: the
/// start, then each parent in turn, the root last.
pub open spec fn search_path(start: Seq<Seq<char>>) -> Seq<Seq<Seq<char>>> {
    Seq::new(start.len() + 1, |i: int| start.take(start.len() - i))
}

/// The probe of the `i`-th directory of a search path; directories beyond
/// the end of `probes` count as holding no file.
pub open spec fn probe_at(probes: Seq<Probe>, i: int) -> Probe {
    if 0 <= i < probes.len() {
        probes[i]
    } else {
        Probe::Missing
    }
}

/// The least index from `from` to `last` whose probe is not `Missing`, or
/// `last + 1` where there is none.
pub open spec fn first_hit(probes: Seq<Probe>, from: int, last: int) -> int
    decreases last + 1 - from,
{
    if from > last {
        last + 1
    } else if probe_at(probes, from) !is Missing {
        from
    } else {
        first_hit(probes, from + 1, last)
    }
}

/// What a search from `start` for `filename` ends with, given the probes of
/// the directories on its path: the first directory whose probe is not
/// `Missing` decides.
pub open spec fn located(start: Seq<Seq<char>>, filename: Seq<char>, probes: Seq<Probe>) -> Result<
    FileModel,
    FailureModel,
> {
    let hit = first_hit(probes, 0, start.len() as int);
    if hit > start.len() {
        Err(FailureModel::Absent)
    } else {
        match probe_at(probes, hit) {
            Probe::Loaded(contents) => Ok(
                FileModel { directory: search_path(start)[hit], filename, contents: contents@ },
            ),
            _ => Err(FailureModel::Unreadable { directory: search_path(start)[hit] }),
        }
    }
}

/// `first_hit` is the least index in its range whose probe is not
/// `Missing`.
pub proof fn lemma_first_hit(probes: Seq<Probe>, from: int, last: int)
    requires
        from <= last + 1,
    ensures
        from <= first_hit(probes, from, last) <= last + 1,
        first_hit(probes, from, last) <= last ==> probe_at(
            probes,
            first_hit(probes, from, last),
        ) !is Missing,
        forall|i: int|
            from <= i < first_hit(probes, from, last) ==> (#[trigger] probe_at(probes, i))
                is Missing,
    decreases last + 1 - from,
{
    if from <= last && probe_at(probes, from) is Missing {
        lemma_first_hit(probes, from + 1, last);
    }
}

/// The nearest file wins: where the `k`-th directory on the way up holds
/// the file and no directory before it holds one, the search ends with that
/// directory and that file.
pub proof fn lemma_nearest_file(
    start: Seq<Seq<char>>,
    filename: Seq<char>,
    probes: Seq<Probe>,
    k: int,
)
    requires
        0 <= k <= start.len(),
        probe_at(probes, k) is Loaded,
        forall|i: int| 0 <= i < k ==> (#[trigger] probe_at(probes, i)) is Missing,
    ensures
        located(start, filename, probes) == Ok::<FileModel, FailureModel>(
            FileModel {
                directory: start.take(start.len() - k),
                filename,
                contents: probe_at(probes, k)->Loaded_0@,
            },
        ),
{
    lemma_first_hit(probes, 0, start.len() as int);
}

/// Where no directory from the start up to the root holds the file, the
/// search fails with nothing found.
pub proof fn lemma_no_file(start: Seq<Seq<char>>, filename: Seq<char>, probes: Seq<Probe>)
    requires
        forall|i: int| 0 <= i <= start.len() ==> (#[trigger] probe_at(probes, i)) is Missing,
    ensures
        located(start, filename, probes) == Err::<FileModel, FailureModel>(FailureModel::Absent),
{
    lemma_first_hit(probes, 0, start.len() as int);
}

/// The content of a search's end.
pub open spec fn located_model(r: Result<EnvFile, NotFoundError>) -> Result<
    FileModel,
    FailureModel,
> {
    match r {
        Ok(file) => Ok(file@),
        Err(e) => Err(e@),
    }
}

/// The first `n` names of `names`.
fn prefix(names: &Vec<String>, n: usize) -> (r: Vec<String>)
    requires
        n <= names@.len(),
    ensures
        r.deep_view() == names.deep_view().take(n as int),
{
    let mut out: Vec<String> = Vec::new();
    let mut i: usize = 0;
    while i < n
        invariant
            i <= n <= names@.len(),
            out@.len() == i,
            forall|j: int| 0 <= j < i ==> (#[trigger] out@[j])@ == names@[j]@,
        decreases n - i,
    {
        out.push(names[i].clone());
        i += 1;
    }
    out
}

/// The directories that a search from `start` looks into, in order.
pub fn ancestors(start: &Vec<String>) -> (r: Vec<Vec<String>>)
    ensures
        r.deep_view() == search_path(start.deep_view()),
{
    let mut out: Vec<Vec<String>> = Vec::new();
    let mut n: usize = start.len();
    let ghost names = start.deep_view();
    loop
        invariant_except_break
            out@.len() + n == names.len(),
        invariant
            names == start.deep_view(),
            n <= names.len(),
            forall|i: int|
                0 <= i < out@.len() ==> (#[trigger] out@[i]).deep_view() == names.take(
                    names.len() - i,
                ),
        ensures
            out@.len() == names.len() + 1,
        decreases n,
    {
        out.push(prefix(start, n));
        if n == 0 {
            break;
        }
        n -= 1;
    }
    out
}

impl Locator {
    #[verifier::type_invariant]
    closed spec fn within(&self) -> bool {
        self.depth <= self.start@.len()
    }

    /// The directory that the search started from.
    pub closed spec fn origin(&self) -> Seq<Seq<char>> {
        self.start.deep_view()
    }

    /// The name that the search looks for.
    pub closed spec fn target(&self) -> Seq<char> {
        self.filename@
    }

    /// The directory to look into next.
    pub closed spec fn candidate(&self) -> Seq<Seq<char>> {
        self.start.deep_view().take(self.depth as int)
    }

    /// A search for `filename` that starts in the directory `start`.
    pub fn new(start: Vec<String>, filename: String) -> (r: Locator)
        ensures
            r.origin() == start.deep_view(),
            r.target() == filename@,
            r.candidate() == start.deep_view(),
    {
        let depth = start.len();
        Locator { start, filename, depth }
    }

    /// The directory to look into next.
    pub fn directory(&self) -> (r: Vec<String>)
        ensures
            r.deep_view() == self.candidate(),
    {
        proof {
            use_type_invariant(self);
        }
        prefix(&self.start, self.depth)
    }

    /// The name of the file to look for.
    pub fn filename(&self) -> (r: &str)
        ensures
            r@ == self.target(),
    {
        self.filename.as_str()
    }

    /// Goes on after the probe of the candidate directory. A file that was
    /// read ends the search, and so does one that could not be read. Where
    /// the directory holds none, the search goes on in its parent, and ends
    /// without a file where the directory is the root.
    pub fn advance(self, outcome: Probe) -> (r: Step)
        ensures
            match outcome {
                Probe::Loaded(contents) => r matches Step::Found(file) && file@ == (FileModel {
                    directory: self.candidate(),
                    filename: self.target(),
                    contents: contents@,
                }),
                Probe::Unreadable => r matches Step::Failed(e) && e@ == (
                FailureModel::Unreadable { directory: self.candidate() }),
                Probe::Missing => if self.candidate().len() == 0 {
                    r matches Step::Failed(NotFoundError::Absent)
                } else {
                    r matches Step::Probe(next) && next.origin() == self.origin() && next.target()
                        == self.target() && next.candidate() == self.candidate().drop_last()
                },
            },
    {
        proof {
            use_type_invariant(&self);
        }
        match outcome {
            Probe::Loaded(contents) => {
                let directory = self.directory();
                Step::Found(EnvFile { directory, filename: self.filename, contents })
            },
            Probe::Unreadable => Step::Failed(
                NotFoundError::Unreadable { directory: self.directory() },
            ),
            Probe::Missing => {
                if self.depth == 0 {
                    Step::Failed(NotFoundError::Absent)
                } else {
                    let ghost names = self.start.deep_view();
                    proof {
                        assert(names.take(self.depth as int).drop_last() =~= names.take(
                            self.depth - 1,
                        ));
                    }
                    Step::Probe(
                        Locator {
                            start: self.start,
                            filename: self.filename,
                            depth: self.depth - 1,
                        },
                    )
                }
            },
        }
    }
}

/// A copy of `probe`.
pub fn copy_probe(probe: &Probe) -> (r: Probe)
    ensures
        r == *probe,
{
    match probe {
        Probe::Missing => Probe::Missing,
        Probe::Unreadable => Probe::Unreadable,
        Probe::Loaded(contents) => Probe::Loaded(contents.clone()),
    }
}

/// Searches from `start` upward for `filename`, where `probes` holds for
/// each directory on the way, the start first, what looking into it gives.
/// The nearest directory that holds the file decides: its file is returned
/// where it could be read, and an error that names the directory where it
/// could not. Where no directory up to the root holds the file, the search
/// fails with `Absent`.
pub fn find(start: Vec<String>, filename: String, probes: &Vec<Probe>) -> (r: Result<
    EnvFile,
    NotFoundError,
>)
    ensures
        located_model(r) == located(start.deep_view(), filename@, probes@),
{
    let ghost names = start.deep_view();
    let ghost wanted = filename@;
    let mut locator = Locator::new(start, filename);
    let mut i: usize = 0;
    loop
        invariant
            names == start.deep_view(),
            wanted == filename@,
            names.len() <= usize::MAX,
            locator.origin() == names,
            locator.target() == wanted,
            i <= names.len(),
            locator.candidate() == names.take(names.len() - i),
            first_hit(probes@, 0, names.len() as int) == first_hit(
                probes@,
                i as int,
                names.len() as int,
            ),
        decreases names.len() - i,
    {
        let outcome = if i < probes.len() {
            copy_probe(&probes[i])
        } else {
            Probe::Missing
        };
        proof {
            if i < names.len() {
                assert(names.take(names.len() - i).drop_last() =~= names.take(
                    names.len() - i - 1,
                ));
            } else {
                assert(first_hit(probes@, i + 1, names.len() as int) == names.len() + 1);
            }
        }
        match locator.advance(outcome) {
            Step::Found(file) => {
                return Ok(file);
            },
            Step::Failed(e) => {
                return Err(e);
            },
            Step::Probe(next) => {
                locator = next;
                i += 1;
            },
        }
    }
}

} // verus!
