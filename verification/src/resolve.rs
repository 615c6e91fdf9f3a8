//! The lookup, step by step.
//!
//! A lookup reads the game's log, lists the web cache, reads the latest
//! cache file and asks the server about one candidate after another. The
//! library does none of this itself. Each step here names what is to be
//! read or asked, as a request; the caller does it and hands the outcome
//! to the request, which gives the next request, the URL that was found, or
//! the error that ends the lookup.

use vstd::prelude::*;
use crate::cache_dir::{get_latest_folder, is_latest, FolderEntry};
use crate::cache_scan::{candidates, scan_cache, utf8_lossy, CacheScanner};
use crate::data_path::{data_path_of, extract_data_path};
use crate::game::GameType;
use crate::text::{join, joined};
use crate::validate::{accepts, check_url};
use crate::web_url::{filtered_text, is_filterable, keep_allowed, url_query_pairs, Url};

verus! {

/// Why a file or a directory could not be read.
#[derive(Debug, Clone, Copy, PartialEq, Eq, Structural)]
pub enum IoFailure {
    /// It is not there.
    NotFound,
    /// It is there and cannot be read.
    Unreadable,
}

/// The step at which a lookup ended.
#[derive(Debug, Clone, Copy, PartialEq, Eq, Structural)]
pub enum Stage {
    /// Reading the game's log.
    Log,
    /// Finding the data directory in the log.
    DataPath,
    /// Listing the web cache.
    CacheFolder,
    /// Reading the cache file.
    CacheData,
    /// Asking the server about the candidates.
    Validation,
}

/// Why a lookup found no URL.
#[derive(Debug, PartialEq, Eq)]
pub enum ResolveError {
    /// What was to be read at `stage` is not at `path`: the log is not
    /// there, or the web cache cannot be listed or holds no generation.
    NotFound { stage: Stage, path: String },
    /// What lies at `path` could not be read at `stage`.
    ReadError { stage: Stage, path: String },
    /// The log names no data directory.
    ParseError,
    /// None of the `tried` candidates of the cache is valid.
    NoValidCandidate { tried: usize },
}

impl ResolveError {
    /// The step at which the lookup ended.
    pub open spec fn spec_stage(self) -> Stage {
        match self {
            ResolveError::NotFound { stage, .. } => stage,
            ResolveError::ReadError { stage, .. } => stage,
            ResolveError::ParseError => Stage::DataPath,
            ResolveError::NoValidCandidate { .. } => Stage::Validation,
        }
    }

    /// The step at which the lookup ended.
    pub fn stage(&self) -> (stage: Stage)
        ensures
            stage == self.spec_stage(),
    {
        match self {
            ResolveError::NotFound { stage, .. } => *stage,
            ResolveError::ReadError { stage, .. } => *stage,
            ResolveError::ParseError => Stage::DataPath,
            ResolveError::NoValidCandidate { .. } => Stage::Validation,
        }
    }
}

/// Where the log of `game` lies below `root`; below the current directory
/// where no root is known.
pub open spec fn log_file(game: GameType, root: Option<Seq<char>>) -> Seq<char> {
    joined(
        match root {
            Some(r) => r,
            None => "."@,
        },
        game.spec_log_path(),
    )
}

/// Where the web cache lies below the data directory.
pub open spec fn cache_folder(data_path: Seq<char>) -> Seq<char> {
    joined(data_path, "webCaches"@)
}

/// Where the cache file lies in the generation `name` of the web cache at
/// `folder`.
pub open spec fn cache_file(folder: Seq<char>, name: Seq<char>) -> Seq<char> {
    joined(joined(folder, name), "Cache/Cache_Data/data_2"@)
}

/// The request to read the game's log.
#[derive(Debug, PartialEq, Eq)]
pub struct LogRequest {
    /// Where the log lies.
    pub path: String,
}

/// The request to list the web cache.
#[derive(Debug, PartialEq, Eq)]
pub struct ListRequest {
    /// The directory that holds the generations of the web cache.
    pub folder: String,
}

/// The request to read the cache file.
#[derive(Debug, PartialEq, Eq)]
pub struct CacheRequest {
    /// Which entry of the listing holds the cache file: the latest
    /// generation.
    pub entry: usize,
    /// Where the cache file lies.
    pub path: String,
}

/// The request to ask the server about a candidate.
#[derive(Debug)]
pub struct Probe {
    scanner: CacheScanner,
    candidate: Url,
}

/// What follows the server's reply to a candidate.
#[derive(Debug)]
pub enum Step {
    /// The candidate is valid: the lookup ends with this URL.
    Found(Url),
    /// The candidate is not valid: the next one is to be asked about.
    Retry(Probe),
}

/// Begins the lookup for `game_type`: names the log to read. `root` is the
/// per-user application-data directory; where it is not known, the log is
/// looked for below the current directory.
pub fn get_gacha_url(game_type: GameType, root: Option<&str>) -> (request: LogRequest)
    ensures
        request.path@ == log_file(
            game_type,
            match root {
                Some(r) => Some(r@),
                None => None,
            },
        ),
{
    let path = match root {
        Some(r) => join(r, game_type.log_path()),
        None => join(".", game_type.log_path()),
    };
    LogRequest { path }
}

/// Goes on with the text of the log: names the web cache to list, or ends
/// the lookup where the log names no data directory.
pub fn get_gacha_url_with_log_data(log_data: String) -> (next: Result<ListRequest, ResolveError>)
    ensures
        match next {
            Ok(request) => data_path_of(log_data@) matches Some(path) && request.folder@
                == cache_folder(path),
            Err(error) => data_path_of(log_data@) is None && error == ResolveError::ParseError,
        },
{
    match extract_data_path(log_data.as_str()) {
        Some(path) => Ok(get_gacha_url_with_game_data_path(path.as_str())),
        None => Err(ResolveError::ParseError),
    }
}

/// Goes on from the game's data directory: names the web cache to list.
pub fn get_gacha_url_with_game_data_path(game_data_path: &str) -> (request: ListRequest)
    ensures
        request.folder@ == cache_folder(game_data_path@),
{
    ListRequest { folder: join(game_data_path, "webCaches") }
}

impl LogRequest {
    /// Goes on with the outcome of reading the log.
    pub fn on_read(self, outcome: Result<String, IoFailure>) -> (next: Result<
        ListRequest,
        ResolveError,
    >)
        ensures
            match next {
                Ok(request) => outcome matches Ok(text) && data_path_of(text@) matches Some(path)
                    && request.folder@ == cache_folder(path),
                Err(ResolveError::NotFound { stage, path }) => outcome == Err::<
                    String,
                    IoFailure,
                >(IoFailure::NotFound) && stage == Stage::Log && path@ == self.path@,
                Err(ResolveError::ReadError { stage, path }) => outcome == Err::<
                    String,
                    IoFailure,
                >(IoFailure::Unreadable) && stage == Stage::Log && path@ == self.path@,
                Err(ResolveError::ParseError) => outcome matches Ok(text) && data_path_of(text@)
                    is None,
                Err(_) => false,
            },
    {
        match outcome {
            Ok(text) => get_gacha_url_with_log_data(text),
            Err(IoFailure::NotFound) => Err(
                ResolveError::NotFound { stage: Stage::Log, path: self.path },
            ),
            Err(IoFailure::Unreadable) => Err(
                ResolveError::ReadError { stage: Stage::Log, path: self.path },
            ),
        }
    }
}

impl ListRequest {
    /// Goes on with the listing of the web cache: names the cache file of
    /// the latest generation, or ends the lookup where the cache cannot be
    /// listed or holds no generation.
    pub fn on_listed(self, outcome: Result<Vec<FolderEntry>, IoFailure>) -> (next: Result<
        CacheRequest,
        ResolveError,
    >)
        ensures
            match next {
                Ok(request) => outcome matches Ok(entries) && is_latest(
                    entries@,
                    request.entry as int,
                ) && request.path@ == cache_file(
                    self.folder@,
                    entries[request.entry as int].name@,
                ),
                Err(ResolveError::NotFound { stage, path }) => {
                    &&& stage == Stage::CacheFolder
                    &&& path@ == self.folder@
                    &&& outcome matches Ok(entries) ==> forall|j: int|
                        0 <= j < entries.len() ==> !(#[trigger] entries[j]).usable()
                },
                Err(_) => false,
            },
    {
        match outcome {
            Ok(entries) => match get_latest_folder(&entries) {
                Some(at) => {
                    let generation = join(self.folder.as_str(), entries[at].name.as_str());
                    Ok(
                        CacheRequest {
                            entry: at,
                            path: join(generation.as_str(), "Cache/Cache_Data/data_2"),
                        },
                    )
                },
                None => Err(
                    ResolveError::NotFound { stage: Stage::CacheFolder, path: self.folder },
                ),
            },
            Err(_) => Err(ResolveError::NotFound { stage: Stage::CacheFolder, path: self.folder }),
        }
    }
}

impl CacheRequest {
    /// Goes on with the bytes of the cache file: names the first candidate
    /// to ask about, or ends the lookup where the file cannot be read or
    /// holds no candidate.
    pub fn on_read(self, outcome: Result<Vec<u8>, IoFailure>) -> (next: Result<
        Probe,
        ResolveError,
    >)
        ensures
            match next {
                Ok(probe) => outcome matches Ok(bytes) && probe.is_first_of(
                    candidates(utf8_lossy(bytes@)),
                ),
                Err(ResolveError::ReadError { stage, path }) => outcome is Err && stage
                    == Stage::CacheData && path@ == self.path@,
                Err(ResolveError::NoValidCandidate { tried }) => outcome matches Ok(bytes)
                    && candidates(utf8_lossy(bytes@)).len() == 0 && tried == 0,
                Err(_) => false,
            },
    {
        match outcome {
            Ok(bytes) => Probe::first(scan_cache(bytes.as_slice())),
            Err(_) => Err(ResolveError::ReadError { stage: Stage::CacheData, path: self.path }),
        }
    }
}

impl Probe {
    /// One candidate was handed out for each that was asked about.
    #[verifier::type_invariant]
    spec fn counted(self) -> bool {
        self.scanner.handed_out() >= 1
    }

    /// The candidate to ask about.
    pub closed spec fn candidate(self) -> Seq<char> {
        self.candidate@
    }

    /// The candidates that follow if this one is not valid.
    pub closed spec fn later(self) -> Seq<Seq<char>> {
        self.scanner.pending()
    }

    /// How many candidates were found not to be valid before this one.
    pub closed spec fn rejected(self) -> nat {
        (self.scanner.handed_out() - 1) as nat
    }

    /// The probe stands at the start of `all`, with nothing rejected yet.
    pub open spec fn is_first_of(self, all: Seq<Seq<char>>) -> bool {
        &&& all.len() > 0
        &&& self.candidate() == all[0]
        &&& self.later() == all.drop_first()
        &&& self.rejected() == 0
    }

    /// The probe for the next candidate of `scanner`, or the error that
    /// says that none is left.
    fn advance(scanner: CacheScanner) -> (next: Result<Probe, ResolveError>)
        ensures
            match next {
                Ok(probe) => {
                    &&& scanner.pending().len() > 0
                    &&& probe.candidate() == scanner.pending()[0]
                    &&& probe.later() == scanner.pending().drop_first()
                    &&& probe.rejected() == scanner.handed_out()
                },
                Err(ResolveError::NoValidCandidate { tried }) => scanner.pending().len() == 0
                    && tried == scanner.handed_out(),
                Err(_) => false,
            },
    {
        let mut scanner = scanner;
        match scanner.next() {
            Some(candidate) => Ok(Probe { scanner, candidate }),
            None => Err(ResolveError::NoValidCandidate { tried: scanner.tried() }),
        }
    }

    /// The probe for the first candidate of a cache.
    fn first(scanner: CacheScanner) -> (next: Result<Probe, ResolveError>)
        requires
            scanner.handed_out() == 0,
        ensures
            match next {
                Ok(probe) => probe.is_first_of(scanner.pending()),
                Err(ResolveError::NoValidCandidate { tried }) => scanner.pending().len() == 0
                    && tried == 0,
                Err(_) => false,
            },
    {
        Probe::advance(scanner)
    }

    /// The candidate to ask the server about: a request for this URL, as it
    /// stands.
    pub fn url(&self) -> (url: &Url)
        ensures
            url@ == self.candidate(),
    {
        &self.candidate
    }

    /// Goes on with the server's reply to the candidate, `None` where there
    /// was none: ends the lookup with the filtered candidate where the
    /// reply says that it is valid, names the next candidate where it does
    /// not, and ends the lookup without a URL where none is left.
    pub fn on_response(self, reply: Option<&[u8]>) -> (next: Result<Step, ResolveError>)
        ensures
            match next {
                Ok(Step::Found(url)) => {
                    &&& accepts(reply)
                    &&& url@ == filtered_text(self.candidate())
                    &&& is_filterable(url@)
                    &&& url_query_pairs(url@) == keep_allowed(url_query_pairs(self.candidate()))
                    &&& filtered_text(url@) == url@
                },
                Ok(Step::Retry(probe)) => {
                    &&& !accepts(reply)
                    &&& self.later().len() > 0
                    &&& probe.candidate() == self.later()[0]
                    &&& probe.later() == self.later().drop_first()
                    &&& probe.rejected() == self.rejected() + 1
                },
                Err(ResolveError::NoValidCandidate { tried }) => {
                    &&& !accepts(reply)
                    &&& self.later().len() == 0
                    &&& tried == self.rejected() + 1
                },
                Err(_) => false,
            },
    {
        proof {
            use_type_invariant(&self);
        }
        let Probe { scanner, candidate } = self;
        match check_url(candidate, reply) {
            Some(url) => Ok(Step::Found(url)),
            None => match Probe::advance(scanner) {
                Ok(probe) => Ok(Step::Retry(probe)),
                Err(error) => Err(error),
            },
        }
    }
}

} // verus!
