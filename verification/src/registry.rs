//! The document registry: the in-memory, append-only collection of open
//! documents, each holding its text together with the classification derived
//! from it when it was loaded.

use vstd::prelude::*;

use crate::classifier::detect_entities;
use crate::classifier::entity_names;
use crate::classifier::is_testbench;
use crate::classifier::is_testbench_text;

verus! {

/// One open document: its optional filesystem path, its current text, and
/// the classification derived from that text when it was loaded.
pub struct Document {
    pub path: Option<String>,
    pub text: String,
    pub units: Vec<String>,
    pub testbench: bool,
}

impl Document {
    /// The derived fields agree with the text.
    pub open spec fn classified(self) -> bool {
        self.units.deep_view() == entity_names(self.text@) && self.testbench
            == is_testbench_text(self.text@)
    }
}

/// The ordered collection of open documents. Order is append-only and
/// stable: a document keeps its position for the life of the registry, and
/// no operation removes one.
pub struct Registry {
    docs: Vec<Document>,
}

impl View for Registry {
    type V = Seq<Document>;

    closed spec fn view(&self) -> Seq<Document> {
        self.docs@
    }
}

impl Registry {
    /// An empty registry.
    pub fn new() -> (r: Registry)
        ensures
            r@.len() == 0,
    {
        Registry { docs: Vec::new() }
    }

    /// Number of open documents.
    pub fn len(&self) -> (n: usize)
        ensures
            n == self@.len(),
    {
        self.docs.len()
    }

    /// Opens a document at `path`; `content` is the eagerly read file text,
    /// or `None` when the read failed. On a failed read no document is
    /// created and the registry is unchanged. On success the text is
    /// classified at once and the document is appended at the end; its
    /// position, which stays valid from then on, is returned.
    pub fn open(&mut self, path: String, content: Option<String>) -> (idx: Option<usize>)
        ensures
            match content {
                None => final(self)@ == old(self)@ && idx is None,
                Some(text) => {
                    &&& idx == Some(old(self)@.len() as usize)
                    &&& final(self)@.len() == old(self)@.len() + 1
                    &&& forall|k: int| 0 <= k < old(self)@.len() ==> final(self)@[k] == old(self)@[k]
                    &&& final(self)@.last().path == Some(path)
                    &&& final(self)@.last().text == text
                    &&& final(self)@.last().classified()
                },
            },
    {
        match content {
            Some(text) => {
                let units = detect_entities(text.as_str());
                let tb = is_testbench(text.as_str());
                let idx = self.docs.len();
                self.docs.push(Document { path: Some(path), text, units, testbench: tb });
                Some(idx)
            },
            None => None,
        }
    }

    /// The document at `index`, or nothing when the position is out of
    /// range (for instance when no document is currently active).
    pub fn get(&self, index: usize) -> (r: Option<&Document>)
        ensures
            match r {
                Some(d) => index < self@.len() && *d == self@[index as int],
                None => index >= self@.len(),
            },
    {
        if index < self.docs.len() {
            Some(&self.docs[index])
        } else {
            None
        }
    }

    /// All open documents in open order, for bulk operations such as saving
    /// every document at once.
    pub fn all(&self) -> (r: &Vec<Document>)
        ensures
            r@ == self@,
    {
        &self.docs
    }
}

} // verus!
