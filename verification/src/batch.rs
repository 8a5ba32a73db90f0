//! The batch driver: run the rename protocol over many paths against
//! any filesystem, collecting one error per failed path.

use vstd::prelude::*;

use crate::config::NormalizationConfig;
use crate::rename::{Event, FnormError, Outcome, RenameSession, Request};

verus! {

/// What the protocol needs from a filesystem. Implementations live
/// outside the library (the real one over std's filesystem calls, test
/// doubles over in-memory maps); nothing is assumed about what they
/// return, and the protocol is verified against every possible answer.
pub trait Filesystem {
    /// The file name of the entry at `path`, or, when the path cannot
    /// be inspected or has no file-name component, an account of the
    /// underlying failure.
    fn inspect(&mut self, path: &str) -> Result<String, String>;

    /// Whether a sibling of `path` named `name` exists.
    fn sibling_exists(&mut self, path: &str, name: &str) -> bool;

    /// Rename the sibling of `path` named `from` to the sibling named
    /// `to`, or give an account of the underlying failure.
    fn rename(&mut self, path: &str, from: &str, to: &str) -> Result<(), String>;
}

/// Drive one rename protocol to completion for `path`. A dry run can
/// only report (`NoChange`, `WouldRename`, or `FileNotFound`): the
/// session never emits a mutating request for it.
pub fn process_file<F: Filesystem>(
    fs: &mut F,
    path: &str,
    config: &NormalizationConfig,
    dry_run: bool,
) -> (r: Result<Outcome, FnormError>)
    ensures
        dry_run ==> match r {
            Result::Ok(o) => o is NoChange || o is WouldRename,
            Result::Err(e) => e is FileNotFound,
        },
{
    let mut session = RenameSession::new(path.to_owned(), dry_run);
    let name_res = fs.inspect(path);
    let mut req = session.step(Event::Inspected(name_res), config);
    loop
        invariant
            session.dry_run == dry_run,
            session.inv(),
            session.consistent(req),
            dry_run ==> (req matches Request::Stop(res) && match res {
                Result::Ok(o) => o is NoChange || o is WouldRename,
                Result::Err(e) => e is FileNotFound,
            }),
        decreases session.rank(),
    {
        match req {
            Request::Stop(res) => {
                return res;
            },
            Request::CheckExists { name } => {
                let ex = fs.sibling_exists(path, name.as_str());
                req = session.step(Event::ExistsChecked(ex), config);
            },
            Request::Rename { from, to } => {
                let res = fs.rename(path, from.as_str(), to.as_str());
                req = session.step(Event::RenameDone(res), config);
            },
        }
    }
}

/// The resolved command line: the paths to process and the dry-run flag.
pub struct Cli {
    pub dry_run: bool,
    pub files: Vec<String>,
}

/// One failed path of a batch, with its error.
pub struct RunErrorEntry {
    pub path: String,
    pub error: FnormError,
}

/// The failures of a batch run, one entry per path that could not be
/// processed.
pub struct RunError {
    pub entries: Vec<RunErrorEntry>,
}

impl Default for RunError {
    /// No failures yet.
    fn default() -> (r: RunError)
        ensures
            r.entries@.len() == 0,
    {
        RunError { entries: Vec::new() }
    }
}

impl RunError {
    /// Record one failed path.
    pub fn push(&mut self, path: String, error: FnormError)
        ensures
            final(self).entries@.len() == old(self).entries@.len() + 1,
            final(self).entries@.last().path@ == path@,
            final(self).entries@.last().error == error,
            forall|i: int|
                0 <= i < old(self).entries@.len() ==> final(self).entries@[i] == old(
                    self,
                ).entries@[i],
    {
        self.entries.push(RunErrorEntry { path, error });
    }

    /// Whether the batch saw no failure.
    pub fn is_empty(&self) -> (r: bool)
        ensures
            r == (self.entries@.len() == 0),
    {
        self.entries.len() == 0
    }
}

/// Whether `p` is the character content of one of `files`.
pub open spec fn path_in(files: Seq<String>, p: Seq<char>) -> bool {
    exists|j: int| 0 <= j < files.len() && (#[trigger] files[j])@ == p
}

/// Whether the entries' paths are a subsequence of `files`: each entry
/// is matched to a later occurrence than the one before, so the entries
/// stand in input order, at most one per occurrence of a path.
pub open spec fn paths_subsequence(entries: Seq<RunErrorEntry>, files: Seq<String>) -> bool
    decreases entries.len(), files.len(),
{
    if entries.len() == 0 {
        true
    } else if files.len() == 0 {
        false
    } else if entries[0].path@ == files[0]@ {
        paths_subsequence(entries.drop_first(), files.drop_first())
    } else {
        paths_subsequence(entries, files.drop_first())
    }
}

proof fn lemma_subseq_skip(entries: Seq<RunErrorEntry>, files: Seq<String>, f: String)
    requires
        paths_subsequence(entries, files),
    ensures
        paths_subsequence(entries, files.push(f)),
    decreases files.len(),
{
    if entries.len() > 0 {
        assert(files.len() > 0);
        assert(files.push(f)[0] == files[0]);
        assert(files.push(f).drop_first() =~= files.drop_first().push(f));
        if entries[0].path@ == files[0]@ {
            lemma_subseq_skip(entries.drop_first(), files.drop_first(), f);
        } else {
            lemma_subseq_skip(entries, files.drop_first(), f);
        }
    }
}

proof fn lemma_subseq_single(en: RunErrorEntry, files: Seq<String>, f: String)
    requires
        en.path@ == f@,
    ensures
        paths_subsequence(seq![en], files.push(f)),
    decreases files.len(),
{
    let es = seq![en];
    let w = files.push(f);
    assert(es.len() == 1 && es[0] == en);
    assert(w.len() == files.len() + 1);
    if files.len() == 0 {
        assert(w[0] == f);
        assert(es[0].path@ == w[0]@);
        assert(es.drop_first() =~= Seq::<RunErrorEntry>::empty());
        assert(paths_subsequence(es.drop_first(), w.drop_first()));
        assert(paths_subsequence(es, w));
    } else {
        assert(w[0] == files[0]);
        assert(w.drop_first() =~= files.drop_first().push(f));
        if en.path@ == files[0]@ {
            assert(es[0].path@ == w[0]@);
            assert(es.drop_first() =~= Seq::<RunErrorEntry>::empty());
            assert(paths_subsequence(es.drop_first(), w.drop_first()));
            assert(paths_subsequence(es, w));
        } else {
            lemma_subseq_single(en, files.drop_first(), f);
            assert(paths_subsequence(es, w.drop_first()));
            assert(es[0].path@ != w[0]@);
            assert(paths_subsequence(es, w));
        }
    }
}

proof fn lemma_subseq_push(
    entries: Seq<RunErrorEntry>,
    files: Seq<String>,
    en: RunErrorEntry,
    f: String,
)
    requires
        paths_subsequence(entries, files),
        en.path@ == f@,
    ensures
        paths_subsequence(entries.push(en), files.push(f)),
    decreases files.len(),
{
    if entries.len() == 0 {
        assert(entries.push(en) =~= seq![en]);
        lemma_subseq_single(en, files, f);
    } else {
        assert(files.len() > 0);
        assert(files.push(f)[0] == files[0]);
        assert(entries.push(en)[0] == entries[0]);
        assert(files.push(f).drop_first() =~= files.drop_first().push(f));
        assert(entries.push(en).drop_first() =~= entries.drop_first().push(en));
        if entries[0].path@ == files[0]@ {
            lemma_subseq_push(entries.drop_first(), files.drop_first(), en, f);
        } else {
            lemma_subseq_push(entries, files.drop_first(), en, f);
        }
    }
}

/// Process every path of the batch under the default configuration. A
/// failed path does not stop the rest: the result is `Ok` when every
/// path was processed, and otherwise carries one entry per failed path.
/// The entries' paths form a subsequence of `cli.files`: they stand in
/// input order, at most one per occurrence of a path.
pub fn run<F: Filesystem>(fs: &mut F, cli: Cli) -> (r: Result<(), RunError>)
    ensures
        r matches Result::Err(e) ==> {
            &&& e.entries@.len() > 0
            &&& forall|i: int|
                0 <= i < e.entries@.len() ==> path_in(cli.files@, #[trigger] e.entries@[i].path@)
            &&& paths_subsequence(e.entries@, cli.files@)
            &&& cli.dry_run ==> forall|i: int|
                0 <= i < e.entries@.len() ==> (#[trigger] e.entries@[i]).error is FileNotFound
        },
{
    let config = NormalizationConfig::default();
    let mut errors = RunError::default();
    let n = cli.files.len();
    let mut i: usize = 0;
    while i < n
        invariant
            n == cli.files@.len(),
            i <= n,
            forall|k: int|
                0 <= k < errors.entries@.len() ==> path_in(
                    cli.files@,
                    #[trigger] errors.entries@[k].path@,
                ),
            paths_subsequence(errors.entries@, cli.files@.take(i as int)),
            cli.dry_run ==> forall|k: int|
                0 <= k < errors.entries@.len() ==> (#[trigger] errors.entries@[k]).error
                    is FileNotFound,
        decreases n - i,
    {
        let path = cli.files[i].clone();
        let ghost before = errors.entries@;
        match process_file(fs, path.as_str(), &config, cli.dry_run) {
            Ok(_) => {
                proof {
                    lemma_subseq_skip(before, cli.files@.take(i as int), cli.files@[i as int]);
                    assert(cli.files@.take(i + 1) =~= cli.files@.take(i as int).push(
                        cli.files@[i as int],
                    ));
                }
            },
            Err(error) => {
                errors.push(path, error);
                proof {
                    let k = errors.entries@.len() - 1;
                    assert(cli.files@[i as int]@ == errors.entries@[k].path@);
                    assert(path_in(cli.files@, errors.entries@[k].path@));
                    assert(errors.entries@ =~= before.push(errors.entries@[k]));
                    lemma_subseq_push(
                        before,
                        cli.files@.take(i as int),
                        errors.entries@[k],
                        cli.files@[i as int],
                    );
                    assert(cli.files@.take(i + 1) =~= cli.files@.take(i as int).push(
                        cli.files@[i as int],
                    ));
                }
            },
        }
        i = i + 1;
    }
    proof {
        assert(cli.files@.take(n as int) =~= cli.files@);
    }
    if errors.is_empty() {
        Ok(())
    } else {
        Err(errors)
    }
}

} // verus!
