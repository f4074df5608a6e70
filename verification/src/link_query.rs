//! The link a user is typing, and the single string it is matched by.

use vstd::prelude::*;

verus! {

/// The part of a link that points inside a file.
#[derive(Clone, Copy, Debug)]
pub enum InfileRef<'a> {
    /// The fragment of a heading typed after `#`.
    Heading(&'a str),
    /// The fragment of a block index typed after `#^`.
    Index(&'a str),
}

/// A link as far as the user has typed it.
#[derive(Clone, Copy, Debug)]
pub struct LinkQuery<'a> {
    /// The fragment of the file name.
    pub file_ref: &'a str,
    /// The fragment of the heading or block index, if one was started.
    pub infile_ref: Option<InfileRef<'a>>,
}

/// The text that separates a file name from a heading: `#`.
pub open spec fn heading_separator() -> Seq<char> {
    seq!['#']
}

/// The text that separates a file name from a block index: `#^`.
pub open spec fn index_separator() -> Seq<char> {
    seq!['#', '^']
}

/// `file#heading`.
pub open spec fn heading_text(file: Seq<char>, heading: Seq<char>) -> Seq<char> {
    file + heading_separator() + heading
}

/// `file#^index`.
pub open spec fn index_text(file: Seq<char>, index: Seq<char>) -> Seq<char> {
    file + index_separator() + index
}

impl<'a> LinkQuery<'a> {
    /// The string this query is matched by: the file fragment alone, or the
    /// file fragment, the separator and the in-file fragment.
    pub open spec fn text(self) -> Seq<char> {
        match self.infile_ref {
            None => self.file_ref@,
            Some(InfileRef::Heading(heading)) => heading_text(self.file_ref@, heading@),
            Some(InfileRef::Index(index)) => index_text(self.file_ref@, index@),
        }
    }
}

/// Joins a file name and a heading into `file#heading`.
pub fn join_heading(file: &str, heading: &str) -> (joined: String)
    ensures
        joined@ == heading_text(file@, heading@),
{
    proof {
        reveal_strlit("#");
    }
    let mut joined = String::from_str(file);
    joined.append("#");
    joined.append(heading);
    assert("#"@ =~= heading_separator());
    joined
}

/// Joins a file name and a block index into `file#^index`.
pub fn join_index(file: &str, index: &str) -> (joined: String)
    ensures
        joined@ == index_text(file@, index@),
{
    proof {
        reveal_strlit("#^");
    }
    let mut joined = String::from_str(file);
    joined.append("#^");
    joined.append(index);
    assert("#^"@ =~= index_separator());
    joined
}

/// Builds the string a link query is matched by. Nothing is validated: empty
/// fragments pass through unchanged.
pub fn link_query_string(link_query: LinkQuery) -> (query_string: String)
    ensures
        query_string@ == link_query.text(),
        link_query.infile_ref is None ==> query_string@ == link_query.file_ref@,
        forall|heading: &str|
            link_query.infile_ref == Some(InfileRef::Heading(heading)) ==> query_string@
                == link_query.file_ref@ + seq!['#'] + heading@,
        forall|index: &str|
            link_query.infile_ref == Some(InfileRef::Index(index)) ==> query_string@
                == link_query.file_ref@ + seq!['#', '^'] + index@,
{
    match link_query.infile_ref {
        None => String::from_str(link_query.file_ref),
        Some(InfileRef::Heading(heading)) => join_heading(link_query.file_ref, heading),
        Some(InfileRef::Index(index)) => join_index(link_query.file_ref, index),
    }
}

} // verus!
