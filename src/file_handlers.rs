//! The exchange engine: which published file to adopt, which of this
//! instance's own files to reclaim, and the order in which a load or a store
//! lists, reads, removes and writes files in the shared directory.
//!
//! The engine performs no I/O itself. A session is a state machine: each step
//! takes the result of the previous request (an [`Event`]) and names the next
//! request, until the session completes with an outcome.
use vstd::prelude::*;

use crate::config::Config;
use crate::naming::{
    decode, decode_file_name, is_own_file, names_of, own_prefix, publication_file_name,
    publication_name, Decoded,
};
use crate::text::starts_with;

verus! {

/// The exchange engine of one instance.
pub struct FileHandler {
    pub config: Config,
}

/// A request handed to the single worker.
#[derive(Debug)]
pub enum ClipboardAction {
    /// Adopt the newest remote publication, if any.
    TryLoad,
    /// Publish this text as the instance's clipboard content.
    Store(String),
}

/// Where a session stands, waiting for the result of its last request.
/// `T` is the text type: `String` when running, `Seq<char>` in specifications.
#[derive(Debug)]
pub enum Phase<T> {
    /// Load: waiting for the directory listing.
    LoadListing,
    /// Load: waiting for the contents of the chosen remote file.
    LoadReading { remote: T },
    /// Load: content read; waiting for a listing to find the own file.
    LoadCleanupListing { remote: T, content: T },
    /// Load: waiting for the own file's removal.
    LoadRemovingOwn { remote: T, content: T },
    /// Load: waiting for the adopted remote file's removal.
    LoadRemovingRemote { content: T },
    /// Store: waiting for the directory listing.
    StoreListing { content: T, timestamp: u64 },
    /// Store: waiting for the previous own file's removal.
    StoreRemovingOwn { content: T, timestamp: u64 },
    /// Store: waiting for the new file to be written.
    StoreWriting { name: T },
}

/// An operation on the shared directory. File names are relative to it.
#[derive(Debug)]
pub enum Request<T> {
    ListFiles,
    ReadFile(T),
    RemoveFile(T),
    WriteFile(T, T),
}

/// The result of a request. `L` is the type of a listing.
#[derive(Debug)]
pub enum Event<T, L> {
    /// The names of all files in the directory.
    Listed(L),
    /// The contents of the file that was read.
    Read(T),
    /// The removal or write succeeded.
    Done,
    /// The request failed.
    Failed,
}

/// How a session ended when it succeeded.
#[derive(Debug)]
pub enum Outcome<T> {
    /// A remote publication was adopted: its content.
    Adopted(T),
    /// No listened-to owner has published anything.
    NothingToAdopt,
    /// The content was published.
    Published,
}

/// Why a session failed. Each of these is fatal to the worker.
#[derive(Debug)]
pub enum ExchangeError<T> {
    /// The directory could not be listed.
    DirectoryUnreadable,
    /// A publication of a listened-to owner holds no timestamp: its name.
    CorruptTimestamp(T),
    /// The chosen remote file could not be read: its name.
    ReadFailed(T),
    /// The new publication could not be written: its name.
    WriteFailed(T),
}

/// A session's next request, or its end.
#[derive(Debug)]
pub enum Progress<T> {
    Pending(Phase<T>, Request<T>),
    Complete(Result<Outcome<T>, ExchangeError<T>>),
}

impl View for Phase<String> {
    type V = Phase<Seq<char>>;

    open spec fn view(&self) -> Phase<Seq<char>> {
        match self {
            Phase::LoadListing => Phase::LoadListing,
            Phase::LoadReading { remote } => Phase::LoadReading { remote: remote@ },
            Phase::LoadCleanupListing { remote, content } => Phase::LoadCleanupListing {
                remote: remote@,
                content: content@,
            },
            Phase::LoadRemovingOwn { remote, content } => Phase::LoadRemovingOwn {
                remote: remote@,
                content: content@,
            },
            Phase::LoadRemovingRemote { content } => Phase::LoadRemovingRemote {
                content: content@,
            },
            Phase::StoreListing { content, timestamp } => Phase::StoreListing {
                content: content@,
                timestamp: *timestamp,
            },
            Phase::StoreRemovingOwn { content, timestamp } => Phase::StoreRemovingOwn {
                content: content@,
                timestamp: *timestamp,
            },
            Phase::StoreWriting { name } => Phase::StoreWriting { name: name@ },
        }
    }
}

impl View for Request<String> {
    type V = Request<Seq<char>>;

    open spec fn view(&self) -> Request<Seq<char>> {
        match self {
            Request::ListFiles => Request::ListFiles,
            Request::ReadFile(n) => Request::ReadFile(n@),
            Request::RemoveFile(n) => Request::RemoveFile(n@),
            Request::WriteFile(n, c) => Request::WriteFile(n@, c@),
        }
    }
}

impl View for Event<String, Vec<String>> {
    type V = Event<Seq<char>, Seq<Seq<char>>>;

    open spec fn view(&self) -> Event<Seq<char>, Seq<Seq<char>>> {
        match self {
            Event::Listed(files) => Event::Listed(names_of(files@)),
            Event::Read(c) => Event::Read(c@),
            Event::Done => Event::Done,
            Event::Failed => Event::Failed,
        }
    }
}

impl View for Outcome<String> {
    type V = Outcome<Seq<char>>;

    open spec fn view(&self) -> Outcome<Seq<char>> {
        match self {
            Outcome::Adopted(c) => Outcome::Adopted(c@),
            Outcome::NothingToAdopt => Outcome::NothingToAdopt,
            Outcome::Published => Outcome::Published,
        }
    }
}

impl View for ExchangeError<String> {
    type V = ExchangeError<Seq<char>>;

    open spec fn view(&self) -> ExchangeError<Seq<char>> {
        match self {
            ExchangeError::DirectoryUnreadable => ExchangeError::DirectoryUnreadable,
            ExchangeError::CorruptTimestamp(n) => ExchangeError::CorruptTimestamp(n@),
            ExchangeError::ReadFailed(n) => ExchangeError::ReadFailed(n@),
            ExchangeError::WriteFailed(n) => ExchangeError::WriteFailed(n@),
        }
    }
}

impl View for Progress<String> {
    type V = Progress<Seq<char>>;

    open spec fn view(&self) -> Progress<Seq<char>> {
        match self {
            Progress::Pending(p, q) => Progress::Pending(p@, q@),
            Progress::Complete(Ok(o)) => Progress::Complete(Ok(o@)),
            Progress::Complete(Err(e)) => Progress::Complete(Err(e@)),
        }
    }
}

/// The first position, from `from` on, of a name in `files` that satisfies `p`.
pub open spec fn first_where(files: Seq<Seq<char>>, p: spec_fn(Seq<char>) -> bool, from: int) -> Option<int>
    decreases files.len() - from,
{
    if from < 0 || from >= files.len() {
        None
    } else if p(files[from]) {
        Some(from)
    } else {
        first_where(files, p, from + 1)
    }
}

/// Whether a name is one of `local`'s publications, by prefix.
pub open spec fn owned_by(local: Seq<char>) -> spec_fn(Seq<char>) -> bool {
    |name: Seq<char>| starts_with(name, own_prefix(local))
}

/// Whether a name is a listened-to publication without a timestamp.
pub open spec fn corrupt_under(remotes: Seq<Seq<char>>) -> spec_fn(Seq<char>) -> bool {
    |name: Seq<char>| decode(name, remotes) is Corrupt
}

/// The first of `local`'s own files in a listing.
pub open spec fn own_target(files: Seq<Seq<char>>, local: Seq<char>) -> Option<Seq<char>> {
    match first_where(files, owned_by(local), 0) {
        Some(i) => Some(files[i]),
        None => None,
    }
}

/// The first listed publication of a listened-to owner that holds no timestamp.
pub open spec fn first_corrupt(files: Seq<Seq<char>>, remotes: Seq<Seq<char>>) -> Option<Seq<char>> {
    match first_where(files, corrupt_under(remotes), 0) {
        Some(i) => Some(files[i]),
        None => None,
    }
}

/// Whether `files[i]` is a publication of a listened-to owner.
pub open spec fn published_at(files: Seq<Seq<char>>, remotes: Seq<Seq<char>>, i: int) -> bool {
    0 <= i < files.len() && decode(files[i], remotes) is Published
}

/// The timestamp of a publication (zero for other names).
pub open spec fn stamp(name: Seq<char>, remotes: Seq<Seq<char>>) -> int {
    match decode(name, remotes) {
        Decoded::Published { timestamp, .. } => timestamp as int,
        _ => 0,
    }
}

/// Whether `files[i]` is the publication to adopt among the first `n` names:
/// no publication there is newer, and every earlier one is strictly older.
pub open spec fn newest_within(files: Seq<Seq<char>>, remotes: Seq<Seq<char>>, n: int, i: int) -> bool {
    &&& 0 <= i < n <= files.len()
    &&& published_at(files, remotes, i)
    &&& forall|j: int|
        0 <= j < n && #[trigger] published_at(files, remotes, j) ==> stamp(files[j], remotes)
            <= stamp(files[i], remotes)
    &&& forall|j: int|
        0 <= j < i && #[trigger] published_at(files, remotes, j) ==> stamp(files[j], remotes)
            < stamp(files[i], remotes)
}

/// The publication to adopt from a listing, if any: the newest, the first
/// listed among equals.
pub open spec fn newest(files: Seq<Seq<char>>, remotes: Seq<Seq<char>>) -> Option<Seq<char>> {
    if exists|i: int| newest_within(files, remotes, files.len() as int, i) {
        Some(files[choose|i: int| newest_within(files, remotes, files.len() as int, i)])
    } else {
        None
    }
}

/// What a load finds in a listing: a name without a timestamp is an error,
/// otherwise the newest publication of a listened-to owner, if any.
pub open spec fn load_choice(files: Seq<Seq<char>>, remotes: Seq<Seq<char>>) -> Result<
    Option<Seq<char>>,
    Seq<char>,
> {
    match first_corrupt(files, remotes) {
        Some(c) => Err(c),
        None => Ok(newest(files, remotes)),
    }
}

/// One step of a session of the instance `local` listening to `remotes`.
pub open spec fn step(
    local: Seq<char>,
    remotes: Seq<Seq<char>>,
    phase: Phase<Seq<char>>,
    event: Event<Seq<char>, Seq<Seq<char>>>,
) -> Progress<Seq<char>> {
    match phase {
        Phase::LoadListing => match event {
            Event::Listed(files) => match load_choice(files, remotes) {
                Err(c) => Progress::Complete(Err(ExchangeError::CorruptTimestamp(c))),
                Ok(None) => Progress::Complete(Ok(Outcome::NothingToAdopt)),
                Ok(Some(r)) => Progress::Pending(
                    Phase::LoadReading { remote: r },
                    Request::ReadFile(r),
                ),
            },
            _ => Progress::Complete(Err(ExchangeError::DirectoryUnreadable)),
        },
        Phase::LoadReading { remote } => match event {
            Event::Read(c) => Progress::Pending(
                Phase::LoadCleanupListing { remote, content: c },
                Request::ListFiles,
            ),
            _ => Progress::Complete(Err(ExchangeError::ReadFailed(remote))),
        },
        Phase::LoadCleanupListing { remote, content } => match event {
            Event::Listed(files) => match own_target(files, local) {
                Some(o) => Progress::Pending(
                    Phase::LoadRemovingOwn { remote, content },
                    Request::RemoveFile(o),
                ),
                None => Progress::Pending(
                    Phase::LoadRemovingRemote { content },
                    Request::RemoveFile(remote),
                ),
            },
            _ => Progress::Complete(Err(ExchangeError::DirectoryUnreadable)),
        },
        Phase::LoadRemovingOwn { remote, content } => Progress::Pending(
            Phase::LoadRemovingRemote { content },
            Request::RemoveFile(remote),
        ),
        Phase::LoadRemovingRemote { content } => Progress::Complete(Ok(Outcome::Adopted(content))),
        Phase::StoreListing { content, timestamp } => match event {
            Event::Listed(files) => match own_target(files, local) {
                Some(o) => Progress::Pending(
                    Phase::StoreRemovingOwn { content, timestamp },
                    Request::RemoveFile(o),
                ),
                None => Progress::Pending(
                    Phase::StoreWriting { name: publication_name(local, timestamp as nat) },
                    Request::WriteFile(publication_name(local, timestamp as nat), content),
                ),
            },
            _ => Progress::Complete(Err(ExchangeError::DirectoryUnreadable)),
        },
        Phase::StoreRemovingOwn { content, timestamp } => Progress::Pending(
            Phase::StoreWriting { name: publication_name(local, timestamp as nat) },
            Request::WriteFile(publication_name(local, timestamp as nat), content),
        ),
        Phase::StoreWriting { name } => match event {
            Event::Done => Progress::Complete(Ok(Outcome::Published)),
            _ => Progress::Complete(Err(ExchangeError::WriteFailed(name))),
        },
    }
}

/// The cache slot after a successful session.
pub open spec fn cache_model(cache: Option<Seq<char>>, outcome: Outcome<Seq<char>>) -> Option<
    Seq<char>,
> {
    match outcome {
        Outcome::Adopted(c) => Some(c),
        Outcome::NothingToAdopt => None,
        Outcome::Published => cache,
    }
}

/// At most one position is the newest.
pub proof fn lemma_newest_unique(files: Seq<Seq<char>>, remotes: Seq<Seq<char>>, n: int, i: int, j: int)
    requires
        newest_within(files, remotes, n, i),
        newest_within(files, remotes, n, j),
    ensures
        i == j,
{
    if i < j {
        assert(published_at(files, remotes, i));
    } else if j < i {
        assert(published_at(files, remotes, j));
    }
}

/// `newest` names the position that is newest.
pub proof fn lemma_newest_is(files: Seq<Seq<char>>, remotes: Seq<Seq<char>>, i: int)
    requires
        newest_within(files, remotes, files.len() as int, i),
    ensures
        newest(files, remotes) == Some(files[i]),
{
    let k = choose|k: int| newest_within(files, remotes, files.len() as int, k);
    lemma_newest_unique(files, remotes, files.len() as int, i, k);
}

impl FileHandler {
    /// The views of the listened-to names.
    pub open spec fn remotes(&self) -> Seq<Seq<char>> {
        names_of(self.config.remote_names@)
    }

    /// The view of this instance's own name.
    pub open spec fn local(&self) -> Seq<char> {
        self.config.local_name@
    }

    pub fn new(config: Config) -> (r: Self)
        ensures
            r.config == config,
    {
        Self { config }
    }

    /// The path of a file of the shared directory.
    pub fn file_path(&self, name: &str) -> (r: String)
        ensures
            r@ == self.config.dir_name@ + seq!['/'] + name@,
    {
        let mut r = self.config.dir_name.clone();
        r.append("/");
        r.append(name);
        proof {
            reveal_strlit("/");
        }
        assert(r@ =~= self.config.dir_name@ + seq!['/'] + name@);
        r
    }

    /// The publication to adopt from a listing of the directory, or the name
    /// of the first listened-to publication that holds no timestamp.
    pub fn get_file_to_load(&self, files: &Vec<String>) -> (r: Result<
        Option<String>,
        ExchangeError<String>,
    >)
        ensures
            match r {
                Ok(Some(n)) => load_choice(names_of(files@), self.remotes()) == Ok::<
                    Option<Seq<char>>,
                    Seq<char>,
                >(Some(n@)),
                Ok(None) => load_choice(names_of(files@), self.remotes()) == Ok::<
                    Option<Seq<char>>,
                    Seq<char>,
                >(None),
                Err(e) => exists|c: Seq<char>|
                    load_choice(names_of(files@), self.remotes()) == Err::<Option<Seq<char>>, Seq<char>>(c)
                        && e@ == ExchangeError::CorruptTimestamp(c),
            },
    {
        let ghost fs = names_of(files@);
        let ghost rs = self.remotes();
        let mut best: Option<usize> = None;
        let mut best_stamp: u64 = 0;
        let mut k: usize = 0;
        while k < files.len()
            invariant
                k <= files.len(),
                fs == names_of(files@),
                rs == self.remotes(),
                first_where(fs, corrupt_under(rs), 0) == first_where(fs, corrupt_under(rs), k as int),
                match best {
                    None => forall|j: int| 0 <= j < k ==> !#[trigger] published_at(fs, rs, j),
                    Some(b) => newest_within(fs, rs, k as int, b as int) && best_stamp == stamp(
                        fs[b as int],
                        rs,
                    ),
                },
            decreases files.len() - k,
        {
            let d = decode_file_name(files[k].as_str(), &self.config.remote_names);
            assert(fs[k as int] == files@[k as int]@);
            match d {
                Decoded::Corrupt => {
                    assert(first_where(fs, corrupt_under(rs), k as int) == Some(k as int));
                    return Err(ExchangeError::CorruptTimestamp(files[k].clone()));
                },
                Decoded::Published { owner, timestamp } => {
                    assert(published_at(fs, rs, k as int));
                    if best.is_none() || timestamp > best_stamp {
                        best = Some(k);
                        best_stamp = timestamp;
                    }
                },
                _ => {},
            }
            k = k + 1;
        }
        assert(first_where(fs, corrupt_under(rs), k as int) == None::<int>);
        match best {
            None => {
                assert(!exists|i: int| newest_within(fs, rs, fs.len() as int, i));
                Ok(None)
            },
            Some(b) => {
                proof {
                    lemma_newest_is(fs, rs, b as int);
                }
                Ok(Some(files[b].clone()))
            },
        }
    }

    /// The first of this instance's own files in a listing, if any.
    pub fn own_file(&self, files: &Vec<String>) -> (r: Option<String>)
        ensures
            match r {
                Some(n) => own_target(names_of(files@), self.local()) == Some(n@),
                None => own_target(names_of(files@), self.local()) == None::<Seq<char>>,
            },
    {
        let ghost fs = names_of(files@);
        let mut k: usize = 0;
        while k < files.len()
            invariant
                k <= files.len(),
                fs == names_of(files@),
                first_where(fs, owned_by(self.local()), 0) == first_where(
                    fs,
                    owned_by(self.local()),
                    k as int,
                ),
            decreases files.len() - k,
        {
            assert(fs[k as int] == files@[k as int]@);
            if is_own_file(files[k].as_str(), self.config.local_name.as_str()) {
                return Some(files[k].clone());
            }
            k = k + 1;
        }
        None
    }

    /// Starts a load: the newest publication of a listened-to owner is read,
    /// then this instance's own file and the adopted file are removed.
    pub fn start_load(&self) -> (r: Progress<String>)
        ensures
            r@ == Progress::Pending(Phase::<Seq<char>>::LoadListing, Request::ListFiles),
    {
        Progress::Pending(Phase::LoadListing, Request::ListFiles)
    }

    /// Starts a store of `content` at time `timestamp`: this instance's own
    /// file is removed, then the new publication is written.
    pub fn start_store(&self, content: String, timestamp: u64) -> (r: Progress<String>)
        ensures
            r@ == Progress::Pending(
                Phase::StoreListing { content: content@, timestamp },
                Request::<Seq<char>>::ListFiles,
            ),
    {
        Progress::Pending(Phase::StoreListing { content, timestamp }, Request::ListFiles)
    }

    /// Advances a session by the result of its last request.
    pub fn advance(&self, phase: Phase<String>, event: Event<String, Vec<String>>) -> (r: Progress<
        String,
    >)
        ensures
            r@ == step(self.local(), self.remotes(), phase@, event@),
    {
        match phase {
            Phase::LoadListing => match event {
                Event::Listed(files) => match self.get_file_to_load(&files) {
                    Err(e) => Progress::Complete(Err(e)),
                    Ok(None) => Progress::Complete(Ok(Outcome::NothingToAdopt)),
                    Ok(Some(r)) => {
                        let name = r.clone();
                        Progress::Pending(Phase::LoadReading { remote: r }, Request::ReadFile(name))
                    },
                },
                _ => Progress::Complete(Err(ExchangeError::DirectoryUnreadable)),
            },
            Phase::LoadReading { remote } => match event {
                Event::Read(c) => Progress::Pending(
                    Phase::LoadCleanupListing { remote, content: c },
                    Request::ListFiles,
                ),
                _ => Progress::Complete(Err(ExchangeError::ReadFailed(remote))),
            },
            Phase::LoadCleanupListing { remote, content } => match event {
                Event::Listed(files) => match self.own_file(&files) {
                    Some(o) => Progress::Pending(
                        Phase::LoadRemovingOwn { remote, content },
                        Request::RemoveFile(o),
                    ),
                    None => Progress::Pending(
                        Phase::LoadRemovingRemote { content },
                        Request::RemoveFile(remote),
                    ),
                },
                _ => Progress::Complete(Err(ExchangeError::DirectoryUnreadable)),
            },
            Phase::LoadRemovingOwn { remote, content } => Progress::Pending(
                Phase::LoadRemovingRemote { content },
                Request::RemoveFile(remote),
            ),
            Phase::LoadRemovingRemote { content } => Progress::Complete(
                Ok(Outcome::Adopted(content)),
            ),
            Phase::StoreListing { content, timestamp } => match event {
                Event::Listed(files) => match self.own_file(&files) {
                    Some(o) => Progress::Pending(
                        Phase::StoreRemovingOwn { content, timestamp },
                        Request::RemoveFile(o),
                    ),
                    None => {
                        let name = publication_file_name(self.config.local_name.as_str(), timestamp);
                        let target = name.clone();
                        Progress::Pending(
                            Phase::StoreWriting { name },
                            Request::WriteFile(target, content),
                        )
                    },
                },
                _ => Progress::Complete(Err(ExchangeError::DirectoryUnreadable)),
            },
            Phase::StoreRemovingOwn { content, timestamp } => {
                let name = publication_file_name(self.config.local_name.as_str(), timestamp);
                let target = name.clone();
                Progress::Pending(Phase::StoreWriting { name }, Request::WriteFile(target, content))
            },
            Phase::StoreWriting { name } => match event {
                Event::Done => Progress::Complete(Ok(Outcome::Published)),
                _ => Progress::Complete(Err(ExchangeError::WriteFailed(name))),
            },
        }
    }
}

/// The view of an optional text.
pub open spec fn text_opt(o: Option<String>) -> Option<Seq<char>> {
    match o {
        Some(s) => Some(s@),
        None => None,
    }
}

/// The cache slot after a successful session: adopted content replaces it,
/// finding nothing to adopt clears it, and a store leaves it as it was.
pub fn cache_after(cache: Option<String>, outcome: Outcome<String>) -> (r: Option<String>)
    ensures
        text_opt(r) == cache_model(text_opt(cache), outcome@),
{
    match outcome {
        Outcome::Adopted(c) => Some(c),
        Outcome::NothingToAdopt => None,
        Outcome::Published => cache,
    }
}

} // verus!
