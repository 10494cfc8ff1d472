//! Where the puzzles come from, and what is to be fetched.

use vstd::prelude::*;
use vstd::string::StringExecFns;
use crate::installation::Installation;
use crate::manifest::Manifest;

verus! {

/// Where the list of the offered puzzles lies.
pub const NETWORK_MANIFEST_URL: &'static str =
    "https://jwade109.github.io/vertex_puzzles/manifest.yaml";

/// What stands before the short name of a puzzle in the address of its file.
pub const PUZZLE_URL_HEAD: &'static str = "https://jwade109.github.io/vertex_puzzles/";

/// What stands after the short name of a puzzle in the address of its file.
pub const PUZZLE_URL_TAIL: &'static str = "/puzzle.txt";

/// What can go wrong, each with a description.
#[derive(Debug)]
pub enum VertexError {
    /// A request over the network failed.
    Reqwest(String),
    /// A file does not hold what it should.
    Serde(String),
    /// A file could not be read or written.
    IO(String),
    /// Anything else.
    Str(String),
}

/// The address of the file of the puzzle `short_name`.
pub fn puzzle_file_url(short_name: &str) -> (url: String)
    ensures
        url@ == PUZZLE_URL_HEAD@ + short_name@ + PUZZLE_URL_TAIL@,
{
    let mut url = String::from_str(PUZZLE_URL_HEAD);
    url.append(short_name);
    url.append(PUZZLE_URL_TAIL);
    url
}

/// A file to fetch: from where, to where, and whether a file that is there
/// already is to be replaced.
pub struct DownloadJob {
    pub url: String,
    pub path: String,
    pub overwrite: bool,
}

/// What to do about a file to fetch.
#[derive(Clone, Copy, Debug, PartialEq, Eq, Structural)]
pub enum DownloadPlan {
    /// The file is there and stays: nothing is fetched.
    Keep,
    /// The file is there and is replaced by what is fetched.
    Replace,
    /// The file is not there and is fetched.
    Fetch,
}

impl DownloadJob {
    /// What to do, given whether the file is there already.
    pub fn plan(&self, present: bool) -> (plan: DownloadPlan)
        ensures
            plan == if !present {
                DownloadPlan::Fetch
            } else if self.overwrite {
                DownloadPlan::Replace
            } else {
                DownloadPlan::Keep
            },
    {
        if present {
            if self.overwrite {
                DownloadPlan::Replace
            } else {
                DownloadPlan::Keep
            }
        } else {
            DownloadPlan::Fetch
        }
    }
}

/// The job that installs the list of the offered puzzles.
pub fn install_remote_manifest(install: &Installation, overwrite: bool) -> (job: DownloadJob)
    ensures
        job.url@ == NETWORK_MANIFEST_URL@,
        job.path@ == install.network_manifest_text(),
        job.overwrite == overwrite,
{
    DownloadJob {
        url: String::from_str(NETWORK_MANIFEST_URL),
        path: install.network_manifest(),
        overwrite,
    }
}

/// The job that installs the file of the puzzle `short_name`.
pub fn install_puzzle_file(install: &Installation, short_name: &str, overwrite: bool) -> (job:
    DownloadJob)
    ensures
        job.url@ == PUZZLE_URL_HEAD@ + short_name@ + PUZZLE_URL_TAIL@,
        job.path@ == install.puzzle_file_text(short_name@),
        job.overwrite == overwrite,
{
    DownloadJob {
        url: puzzle_file_url(short_name),
        path: install.puzzle_file(short_name),
        overwrite,
    }
}

/// The jobs that install every puzzle of `manifest`, in its order; a file
/// that is there already stays.
pub fn puzzle_jobs(install: &Installation, manifest: &Manifest) -> (jobs: Vec<DownloadJob>)
    ensures
        jobs@.len() == manifest.puzzles@.len(),
        forall|i: int|
            0 <= i < jobs@.len() ==> {
                let job = #[trigger] jobs@[i];
                let name = manifest.puzzles@[i].short_name@;
                &&& job.url@ == PUZZLE_URL_HEAD@ + name + PUZZLE_URL_TAIL@
                &&& job.path@ == install.puzzle_file_text(name)
                &&& !job.overwrite
            },
{
    let mut jobs: Vec<DownloadJob> = Vec::new();
    let mut i: usize = 0;
    while i < manifest.puzzles.len()
        invariant
            0 <= i <= manifest.puzzles@.len(),
            jobs@.len() == i,
            forall|j: int|
                0 <= j < i ==> {
                    let job = #[trigger] jobs@[j];
                    let name = manifest.puzzles@[j].short_name@;
                    &&& job.url@ == PUZZLE_URL_HEAD@ + name + PUZZLE_URL_TAIL@
                    &&& job.path@ == install.puzzle_file_text(name)
                    &&& !job.overwrite
                },
        decreases manifest.puzzles@.len() - i,
    {
        let job = install_puzzle_file(install, manifest.puzzles[i].short_name.as_str(), false);
        jobs.push(job);
        i += 1;
    }
    jobs
}

} // verus!
