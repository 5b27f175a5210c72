//! Where the input comes from: a location of the form `scheme://path`.

use crate::engine::errors::{Fault, PaymentError};
use crate::engine::text::{chars_of, text_is};
use vstd::prelude::*;

verus! {

/// The schemes that an input location can name.
#[derive(Clone, Copy, Debug, PartialEq, Eq, Structural)]
pub enum UriSchemes {
    File,
    S3,
}

/// A file on this machine, read line by line.
#[derive(Debug)]
pub struct LocalFile {
    pub file_path: String,
}

/// An object in S3. Reading one is not supported yet.
#[derive(Debug)]
pub struct S3File {}

/// An input, by the scheme of its location.
#[derive(Debug)]
pub enum Source {
    File(LocalFile),
    S3(S3File),
}

/// The scheme that `s` names. Names are lower case and match as a whole.
pub open spec fn scheme_of(s: Seq<char>) -> Option<UriSchemes> {
    if s == "file"@ {
        Some(UriSchemes::File)
    } else if s == "s3"@ {
        Some(UriSchemes::S3)
    } else {
        None
    }
}

/// Whether the separator `://` stands in `s` at `i`.
pub open spec fn separator_at(s: Seq<char>, i: int) -> bool {
    0 <= i && i + 3 <= s.len() && s[i] == ':' && s[i + 1] == '/' && s[i + 2] == '/'
}

/// Where the first separator at or after `from` stands in `s`; the length of `s`
/// where there is none.
pub open spec fn next_separator(s: Seq<char>, from: int) -> int
    decreases s.len() - from,
{
    if from < 0 || from + 3 > s.len() {
        s.len() as int
    } else if separator_at(s, from) {
        from
    } else {
        next_separator(s, from + 1)
    }
}

/// The scheme part of a location: what stands before its first separator, or all
/// of it where it has none.
pub open spec fn uri_scheme(s: Seq<char>) -> Seq<char> {
    s.take(next_separator(s, 0))
}

/// The path part of a location: what stands between its first separator and the
/// next one, or the end. Empty where the location has no separator.
pub open spec fn uri_path(s: Seq<char>) -> Seq<char> {
    let first = next_separator(s, 0);
    if first == s.len() {
        Seq::empty()
    } else {
        s.subrange(first + 3, next_separator(s, first + 3))
    }
}

/// The separator is found inside the text, at or after the place where the
/// search began.
pub proof fn lemma_next_separator_bounds(s: Seq<char>, from: int)
    requires
        0 <= from <= s.len(),
    ensures
        from <= next_separator(s, from) <= s.len(),
        next_separator(s, from) < s.len() ==> next_separator(s, from) + 3 <= s.len(),
    decreases s.len() - from,
{
    if from + 3 <= s.len() && !separator_at(s, from) {
        lemma_next_separator_bounds(s, from + 1);
    }
}

/// Finds the first separator at or after `from`.
fn find_separator(text: &Vec<char>, from: usize) -> (r: usize)
    requires
        from <= text.len(),
    ensures
        r == next_separator(text@, from as int),
        from <= r <= text.len(),
        r < text.len() ==> r + 3 <= text.len(),
{
    let mut i: usize = from;
    while i < text.len() && text.len() - i >= 3
        invariant
            from <= i <= text.len(),
            next_separator(text@, i as int) == next_separator(text@, from as int),
        decreases text.len() - i,
    {
        if text[i] == ':' && text[i + 1] == '/' && text[i + 2] == '/' {
            return i;
        }
        i = i + 1;
    }
    text.len()
}

impl UriSchemes {
    /// Reads a scheme from its name.
    pub fn from_str(s: &str) -> (r: Result<UriSchemes, PaymentError>)
        ensures
            match scheme_of(s@) {
                Some(scheme) => r == Ok::<UriSchemes, PaymentError>(scheme),
                None => r matches Err(e) && e@ == Fault::InvalidUriScheme(s@),
            },
    {
        let name = chars_of(s);
        if text_is(&name, "file") {
            Ok(UriSchemes::File)
        } else if text_is(&name, "s3") {
            Ok(UriSchemes::S3)
        } else {
            Err(PaymentError::InvalidUriScheme(String::from_str(s)))
        }
    }
}

impl LocalFile {
    /// The file at `file_path`.
    pub fn new(file_path: &str) -> (r: Self)
        ensures
            r.file_path@ == file_path@,
    {
        Self { file_path: String::from_str(file_path) }
    }
}

impl S3File {
    /// An object in S3.
    pub fn new() -> (r: Self) {
        Self {  }
    }
}

impl Source {
    /// The input that the location `uri` names. A location without a separator
    /// is read as a scheme with an empty path.
    pub fn from_uri(uri: &str) -> (r: Result<Source, PaymentError>)
        ensures
            match scheme_of(uri_scheme(uri@)) {
                Some(UriSchemes::File) => {
                    &&& r matches Ok(Source::File(file))
                    &&& file.file_path@ == uri_path(uri@)
                },
                Some(UriSchemes::S3) => r matches Ok(Source::S3(_)),
                None => r matches Err(e) && e@ == Fault::InvalidUriScheme(uri_scheme(uri@)),
            },
    {
        let text = chars_of(uri);
        let first = find_separator(&text, 0);
        let scheme = match UriSchemes::from_str(uri.substring_char(0, first)) {
            Ok(scheme) => scheme,
            Err(e) => {
                return Err(e);
            },
        };
        let path = if first == text.len() {
            assert(uri@.subrange(first as int, first as int) =~= Seq::<char>::empty());
            uri.substring_char(first, first)
        } else {
            let next = find_separator(&text, first + 3);
            uri.substring_char(first + 3, next)
        };
        match scheme {
            UriSchemes::File => Ok(Source::File(LocalFile::new(path))),
            UriSchemes::S3 => Ok(Source::S3(S3File::new())),
        }
    }
}

} // verus!
