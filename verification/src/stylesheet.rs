//! The stylesheet merger: concatenates the text of one or more stylesheet
//! sources, in caller-supplied order, into a single in-memory value. No
//! minification, deduplication or validation — bytes are joined as given.

use vstd::prelude::*;
use vstd::string::StringExecFns;

verus! {

/// The stylesheet every site starts from unless the caller overwrites it.
pub const DEFAULT_STYLESHEET: &'static str = "body{font-family:sans-serif;margin:2rem auto;max-width:40rem;padding:0 1rem;}";

/// A merged stylesheet: the concatenation, in order, of every source text
/// appended so far.
pub struct Stylesheet {
    content: String,
}

impl Stylesheet {
    /// The merged text as a sequence of characters.
    pub closed spec fn text_spec(&self) -> Seq<char> {
        self.content@
    }

    /// An empty stylesheet, holding no text at all.
    pub fn new() -> (r: Stylesheet)
        ensures
            r.text_spec() == Seq::<char>::empty(),
    {
        Stylesheet { content: String::new() }
    }

    /// Appends one more source text after everything appended so far.
    pub fn append(&mut self, source: &str)
        ensures
            final(self).text_spec() == old(self).text_spec() + source@,
    {
        self.content.append(source);
    }

    /// The merged text, ready to be written out.
    pub fn text(&self) -> (r: &String)
        ensures
            r@ == self.text_spec(),
    {
        &self.content
    }
}

impl Default for Stylesheet {
    /// A stylesheet holding the built-in default text.
    fn default() -> (r: Stylesheet)
        ensures
            r.text_spec() == DEFAULT_STYLESHEET@,
    {
        let mut r = Stylesheet::new();
        r.append(DEFAULT_STYLESHEET);
        r
    }
}

} // verus!
