//! Where the store of an address of the form `sqlite://[/path[?query]]` is.
//!
//! `sqlite://` is a store in memory, `sqlite:///relative/foo.db` the file
//! `relative/foo.db` below the working directory, and
//! `sqlite:////absolute/foo.db` the file `/absolute/foo.db`. A query is
//! handed on to the storage engine.

use crate::text::same_text;
use vstd::prelude::*;
use vstd::string::{StrSliceExecFns, StringExecFns};

verus! {

/// Why an address names no store.
#[derive(Debug, Clone, Copy, PartialEq, Eq, Structural)]
pub enum LocationError {
    /// The scheme is not `sqlite`.
    Scheme,
    /// The address has no authority, or one that is not empty.
    Authority,
    /// The address has a fragment.
    Fragment,
    /// The path does not begin with a slash.
    Path,
}

/// The parts of an address, as a parser of addresses gives them.
#[derive(Debug, Clone, PartialEq, Eq)]
pub struct UrlParts {
    pub scheme: String,
    pub has_authority: bool,
    pub authority: String,
    pub fragment: Option<String>,
    pub path: String,
    pub query: Option<String>,
}

/// A [`UrlParts`] as a mathematical value.
pub struct UrlPartsView {
    pub scheme: Seq<char>,
    pub has_authority: bool,
    pub authority: Seq<char>,
    pub fragment: Option<Seq<char>>,
    pub path: Seq<char>,
    pub query: Option<Seq<char>>,
}

/// The text of an optional text.
pub open spec fn text_of(text: Option<String>) -> Option<Seq<char>> {
    match text {
        Some(text) => Some(text@),
        None => None,
    }
}

impl View for UrlParts {
    type V = UrlPartsView;

    open spec fn view(&self) -> UrlPartsView {
        UrlPartsView {
            scheme: self.scheme@,
            has_authority: self.has_authority,
            authority: self.authority@,
            fragment: text_of(self.fragment),
            path: self.path@,
            query: text_of(self.query),
        }
    }
}

/// Where a store is.
#[derive(Debug, Clone, PartialEq, Eq)]
pub enum Location {
    /// In memory.
    Memory,
    /// In the file at `path`, taken from the working directory, with the
    /// query of the address.
    File { path: String, query: Option<String> },
}

/// A [`Location`] as a mathematical value.
pub enum LocationView {
    Memory,
    File { path: Seq<char>, query: Option<Seq<char>> },
}

impl View for Location {
    type V = LocationView;

    open spec fn view(&self) -> LocationView {
        match self {
            Location::Memory => LocationView::Memory,
            Location::File { path, query } => LocationView::File {
                path: path@,
                query: text_of(*query),
            },
        }
    }
}

/// Where the store of an address is.
///
/// The scheme has to be `sqlite`, the authority has to be there and empty,
/// and there must be no fragment. Without a path the store is in memory.
/// With one, the store is the file at the path without its first slash.
pub open spec fn located(address: UrlPartsView) -> Result<LocationView, LocationError> {
    if address.scheme != "sqlite"@ {
        Err(LocationError::Scheme)
    } else if !address.has_authority || address.authority.len() != 0 {
        Err(LocationError::Authority)
    } else if address.fragment is Some {
        Err(LocationError::Fragment)
    } else if address.path.len() == 0 {
        Ok(LocationView::Memory)
    } else if address.path[0] != '/' {
        Err(LocationError::Path)
    } else {
        Ok(
            LocationView::File {
                path: address.path.subrange(1, address.path.len() as int),
                query: address.query,
            },
        )
    }
}

/// The location as a mathematical value, or the error.
pub open spec fn location_of(result: Result<Location, LocationError>) -> Result<
    LocationView,
    LocationError,
> {
    match result {
        Ok(location) => Ok(location@),
        Err(error) => Err(error),
    }
}

impl UrlParts {
    /// Where the store of the address is: what [`located`] says.
    pub fn location(&self) -> (result: Result<Location, LocationError>)
        ensures
            location_of(result) == located(self@),
    {
        if !same_text(self.scheme.as_str(), "sqlite") {
            return Err(LocationError::Scheme);
        }
        if !self.has_authority || self.authority.as_str().unicode_len() != 0 {
            return Err(LocationError::Authority);
        }
        if self.fragment.is_some() {
            return Err(LocationError::Fragment);
        }
        let path = self.path.as_str();
        let len = path.unicode_len();
        if len == 0 {
            return Ok(Location::Memory);
        }
        if path.get_char(0) != '/' {
            return Err(LocationError::Path);
        }
        let query = match &self.query {
            Some(query) => Some(query.clone()),
            None => None,
        };
        Ok(Location::File { path: String::from_str(path.substring_char(1, len)), query })
    }
}

} // verus!
