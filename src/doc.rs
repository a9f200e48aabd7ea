//! Documents, and their metadata read at most once.
use crate::meta::MetaValue;
use vstd::prelude::*;

verus! {

/// The base name of a path without its extension, as std computes it.
pub uninterp spec fn file_stem_of(path: Seq<char>) -> Option<Seq<char>>;

/// Relies on std::path::Path::file_stem: the file name without its last
/// extension, a function of the path alone. The stem of a `str` path is a
/// `str` too, so nothing is lost in `to_str`.
#[verifier::external_body]
fn path_file_stem(path: &str) -> (r: Option<String>)
    ensures
        match r {
            Some(s) => file_stem_of(path@) == Some(s@),
            None => file_stem_of(path@) is None,
        },
{
    std::path::Path::new(path).file_stem().and_then(|s| s.to_str()).map(|s| s.to_owned())
}

/// Why the metadata of a document could not be read.
#[derive(Debug, PartialEq, Eq)]
pub enum MetaError {
    /// The file could not be opened or read.
    Io(String),
    /// The front-matter block is not UTF-8.
    Encoding,
    /// The front-matter block is not valid structured text.
    Syntax(String),
}

/// The metadata slot of a document.
#[derive(Debug, PartialEq)]
pub enum MetaState {
    /// Not read yet.
    Unfetched,
    /// Read; `Null` when the file has no front-matter block.
    Fetched(MetaValue),
    /// Reading failed.
    Failed(MetaError),
}

/// The slot after a read that gave `r`: a slot that was already filled stays
/// as it is.
pub open spec fn recorded(state: MetaState, r: Result<MetaValue, MetaError>) -> MetaState {
    match state {
        MetaState::Unfetched => match r {
            Ok(v) => MetaState::Fetched(v),
            Err(e) => MetaState::Failed(e),
        },
        _ => state,
    }
}

/// A document found under the document root. Its metadata is read on
/// demand, once.
#[derive(Debug)]
pub struct DocRead {
    path: String,
    stem: Option<String>,
    meta: MetaState,
}

/// What a matcher can see of a document.
pub struct DocView {
    pub path: Seq<char>,
    pub stem: Option<Seq<char>>,
    pub meta: MetaState,
}

impl View for DocRead {
    type V = DocView;

    closed spec fn view(&self) -> DocView {
        DocView {
            path: self.path@,
            stem: match self.stem {
                Some(s) => Some(s@),
                None => None,
            },
            meta: self.meta,
        }
    }
}

/// The file-system fetch is not repeated: once a read has been recorded, a
/// later one changes nothing and none is asked for.
pub proof fn lemma_fetch_once(
    state: MetaState,
    first: Result<MetaValue, MetaError>,
    second: Result<MetaValue, MetaError>,
)
    requires
        state is Unfetched,
    ensures
        recorded(recorded(state, first), second) == recorded(state, first),
        !(recorded(state, first) is Unfetched),
{
}

impl DocRead {
    /// A document at `path` whose metadata has not been read.
    pub fn new(path: String) -> (r: DocRead)
        ensures
            r@.path == path@,
            r@.stem == file_stem_of(path@),
            r@.meta is Unfetched,
    {
        let stem = path_file_stem(path.as_str());
        DocRead { path, stem, meta: MetaState::Unfetched }
    }

    /// The path of the document.
    pub fn path(&self) -> (r: &str)
        ensures
            r@ == self@.path,
    {
        self.path.as_str()
    }

    /// The base name of the document without its extension.
    pub fn stem(&self) -> (r: Option<&str>)
        ensures
            match r {
                Some(s) => self@.stem == Some(s@),
                None => self@.stem is None,
            },
    {
        match &self.stem {
            Some(s) => Some(s.as_str()),
            None => None,
        }
    }

    /// The metadata slot.
    pub fn meta_state(&self) -> (r: &MetaState)
        ensures
            *r == self@.meta,
    {
        &self.meta
    }

    /// Whether the metadata still has to be read.
    pub fn needs_meta(&self) -> (r: bool)
        ensures
            r == self@.meta is Unfetched,
    {
        match self.meta {
            MetaState::Unfetched => true,
            _ => false,
        }
    }

    /// Records the outcome of reading the metadata. A slot that is already
    /// filled keeps what it holds.
    pub fn record_meta(&mut self, r: Result<MetaValue, MetaError>)
        ensures
            final(self)@.path == old(self)@.path,
            final(self)@.stem == old(self)@.stem,
            final(self)@.meta == recorded(old(self)@.meta, r),
    {
        if let MetaState::Unfetched = self.meta {
            self.meta = match r {
                Ok(v) => MetaState::Fetched(v),
                Err(e) => MetaState::Failed(e),
            };
        }
    }

    /// The metadata, once it has been read: the value, or why reading it
    /// failed.
    pub fn meta(&self) -> (r: Option<Result<&MetaValue, &MetaError>>)
        ensures
            match self@.meta {
                MetaState::Unfetched => r is None,
                MetaState::Fetched(v) => r == Some(Ok::<&MetaValue, &MetaError>(&v)),
                MetaState::Failed(e) => r == Some(Err::<&MetaValue, &MetaError>(&e)),
            },
    {
        match &self.meta {
            MetaState::Unfetched => None,
            MetaState::Fetched(v) => Some(Ok(v)),
            MetaState::Failed(e) => Some(Err(e)),
        }
    }
}

} // verus!
