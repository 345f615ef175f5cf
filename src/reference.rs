use vstd::prelude::*;

use crate::text::{decimal, decimal_string};

verus! {

/// What a reference stands for: the document, the 1-based line and column
/// (counted in characters) of the link token, and the link's target text.
pub struct ReferenceView {
    pub path: Seq<char>,
    pub line: nat,
    pub column: nat,
    pub link_text: Seq<char>,
}

/// One occurrence of a link token in a document.
#[derive(Debug)]
pub struct Reference {
    pub path: String,
    pub line: usize,
    pub column: usize,
    pub link_text: String,
}

impl View for Reference {
    type V = ReferenceView;

    open spec fn view(&self) -> ReferenceView {
        ReferenceView {
            path: self.path@,
            line: self.line as nat,
            column: self.column as nat,
            link_text: self.link_text@,
        }
    }
}

/// The display form of a reference: `path:line:column - link_text`.
pub open spec fn display_text(r: ReferenceView) -> Seq<char> {
    r.path + ":"@ + decimal(r.line) + ":"@ + decimal(r.column) + " - "@ + r.link_text
}

impl Reference {
    pub fn new(path: String, line: usize, column: usize, link_text: String) -> (r: Reference)
        ensures
            r.path@ == path@,
            r.line == line,
            r.column == column,
            r.link_text@ == link_text@,
    {
        Reference { path, line, column, link_text }
    }

    /// The display form `path:line:column - link_text`.
    pub fn to_string(&self) -> (r: String)
        ensures
            r@ == display_text(self@),
    {
        let mut r = self.path.clone();
        r.append(":");
        r.append(decimal_string(self.line).as_str());
        r.append(":");
        r.append(decimal_string(self.column).as_str());
        r.append(" - ");
        r.append(self.link_text.as_str());
        r
    }
}

} // verus!
