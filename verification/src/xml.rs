use std::io::Cursor;

use vstd::prelude::*;

use crate::convert::{lemma_prefix_extend, lemma_prefix_refl};
use crate::element::{node_text, Anchor};
use crate::error::Error;
use crate::sink::Sink;

verus! {

/// quick_xml's event writer, declared so that it can stand in signatures.
#[verifier::external_type_specification]
#[verifier::external_body]
#[verifier::reject_recursive_types(W)]
pub struct ExWriter<W>(quick_xml::Writer<W>);

/// std's in-memory cursor, declared so that it can stand in signatures.
#[verifier::external_type_specification]
#[verifier::external_body]
#[verifier::reject_recursive_types(T)]
pub struct ExCursor<T>(Cursor<T>);

/// The text held by the writer's in-memory buffer: its bytes decoded as
/// UTF-8, invalid sequences read as replacement characters.
pub uninterp spec fn written_text(w: quick_xml::Writer<Cursor<Vec<u8>>>) -> Seq<char>;

/// Whether the writer's cursor stands at the end of its buffer, so that
/// the next write appends instead of overwriting.
pub uninterp spec fn writer_ready(w: quick_xml::Writer<Cursor<Vec<u8>>>) -> bool;

/// Relies on quick_xml's `Writer::new` over an empty `Cursor`: the new
/// writer holds no bytes and its cursor stands at the start, which is also
/// the end.
#[verifier::external_body]
pub fn writer_new() -> (w: quick_xml::Writer<Cursor<Vec<u8>>>)
    ensures
        written_text(w) == Seq::<char>::empty(),
        writer_ready(w),
{
    quick_xml::Writer::new(Cursor::new(Vec::new()))
}

/// Relies on quick_xml's `Writer::write_event` with a pre-escaped text
/// event built by `BytesText::from_escaped`: the event carries the piece
/// unchanged and writing it hands exactly the piece's bytes to the cursor,
/// which appends them at its end position. A write to an in-memory cursor
/// standing at the end of its buffer extends the buffer and does not fail,
/// so success is owed; the error arm below stays only to satisfy the
/// writer's fallible signature.
#[verifier::external_body]
fn writer_append(w: &mut quick_xml::Writer<Cursor<Vec<u8>>>, piece: &str) -> (r: Result<(), Error>)
    requires
        writer_ready(*old(w)),
    ensures
        r is Ok,
        written_text(*final(w)) == written_text(*old(w)) + piece@,
        writer_ready(*final(w)),
{
    let event = quick_xml::events::Event::Text(quick_xml::events::BytesText::from_escaped(piece));
    match w.write_event(event) {
        Ok(()) => Ok(()),
        Err(_) => Err(Error::SinkWriteFailure),
    }
}

/// Relies on quick_xml's `Writer::into_inner`, std's `Cursor::into_inner`
/// and std's lossy UTF-8 decoding: returns the text of the writer's
/// buffer.
#[verifier::external_body]
pub fn writer_text(w: quick_xml::Writer<Cursor<Vec<u8>>>) -> (r: String)
    ensures
        r@ == written_text(w),
{
    String::from_utf8_lossy(&w.into_inner().into_inner()).into_owned()
}

impl Anchor {
    /// Serializes this node and its descendants into a quick_xml writer:
    /// the tree is rendered in memory and handed to the writer as one
    /// append. Success is owed: the in-memory rendering cannot fail and
    /// neither can the writer's cursor under the stated readiness. The
    /// writer's buffer only ever grows.
    pub fn write_xml(&self, writer: &mut quick_xml::Writer<Cursor<Vec<u8>>>) -> (r: Result<
        (),
        Error,
    >)
        requires
            writer_ready(*old(writer)),
        ensures
            r is Ok,
            written_text(*final(writer)) == written_text(*old(writer)) + node_text(*self),
            writer_ready(*final(writer)),
            written_text(*old(writer)).is_prefix_of(written_text(*final(writer))),
    {
        let mut sink = Sink::new();
        match self.write(&mut sink) {
            Ok(()) => {},
            Err(e) => {
                return Err(e);
            },
        }
        let text = sink.text_string();
        proof {
            assert(Seq::<char>::empty() + node_text(*self) =~= node_text(*self));
        }
        let r = writer_append(writer, text.as_str());
        proof {
            lemma_prefix_refl(written_text(*old(writer)));
            lemma_prefix_extend(
                written_text(*old(writer)),
                written_text(*old(writer)),
                node_text(*self),
            );
        }
        r
    }

    /// Renders this node to a string; success is owed, and the returned
    /// text is exactly the node's rendering.
    pub fn try_to_string(&self) -> (r: Result<String, Error>)
        ensures
            r is Ok,
            r matches Ok(s) ==> s@ == node_text(*self),
    {
        let mut writer = writer_new();
        match self.write_xml(&mut writer) {
            Ok(()) => {},
            Err(e) => {
                return Err(e);
            },
        }
        let text = writer_text(writer);
        proof {
            assert(Seq::<char>::empty() + node_text(*self) =~= node_text(*self));
        }
        Ok(text)
    }
}

} // verus!
