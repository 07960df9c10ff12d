//! The document sink: owns the destination byte buffer and appends
//! one serialized top-level element per write call.

use vstd::prelude::*;
use crate::escape::Escaping;
use crate::model::md_bytes;
use crate::model::wf;
use crate::writer::MarkdownWritable;
use crate::writer::WriteError;

verus! {

/// Struct for generating Markdown.
pub struct Markdown {
    /// Destination for the serialized document.
    pub writer: Vec<u8>,
}

impl View for Markdown {
    type V = Seq<u8>;

    open spec fn view(&self) -> Seq<u8> {
        self.writer@
    }
}

impl Markdown {
    /// Creates a new document sink writing into `writer`; bytes
    /// already in the buffer are kept, the document is appended.
    pub fn new(writer: Vec<u8>) -> (r: Markdown)
        ensures
            r@ == writer@,
    {
        Markdown { writer }
    }

    /// Returns the underlying buffer and consumes the object.
    pub fn into_inner(self) -> (r: Vec<u8>)
        ensures
            r@ == self@,
    {
        self.writer
    }

    /// Writes an element to the document as a top-level node, under
    /// the default escaping context. A well-formed element appends
    /// exactly its serialized bytes; a malformed one (a nested
    /// heading or paragraph anywhere in the tree, or a heading level
    /// outside 1 to 6) appends nothing and reports the misuse.
    pub fn write<T: MarkdownWritable>(&mut self, element: T) -> (r: Result<(), WriteError>)
        ensures
            wf(element.as_model(), false) ==> r is Ok && final (self)@ == old(self)@ + md_bytes(
                element.as_model(),
                false,
                Escaping::Normal,
            ),
            !wf(element.as_model(), false) ==> r == Err::<(), WriteError>(
                WriteError::InvalidStructure,
            ) && final (self)@ == old(self)@,
    {
        element.write_to(&mut self.writer, false, Escaping::Normal)
    }
}

} // verus!
