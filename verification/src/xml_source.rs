//! The XML events of a byte text, read one at a time by `quick_xml`.
//!
//! The reader, the text it reads and the number of events it has returned
//! are held together, and only the two trusted functions of this module touch
//! them: `XmlSource::new` makes a reader over a text, and `XmlSource::next`
//! reads one event and counts it.
use quick_xml::events::Event::{CData, End, Eof, Start, Text};
use quick_xml::Reader;
use vstd::prelude::*;
use crate::parser::XmlEvent;
use crate::parser::XmlEventView;

verus! {

#[verifier::external_type_specification]
#[verifier::external_body]
#[verifier::reject_recursive_types(R)]
pub struct ExXmlReader<R>(quick_xml::Reader<R>);

/// The event that the `k`-th call (from 0) of `Reader::read_event_into`
/// returns on a `quick_xml::Reader` made by `Reader::from_reader` over
/// `input`, with the default configuration; names, texts and `CDATA`
/// contents decoded by `String::from_utf8_lossy`, an error by its `Display`.
pub uninterp spec fn xml_event_at(input: Seq<u8>, k: int) -> XmlEventView;

/// What `Reader::buffer_position` returns after that call: the number of
/// bytes of the text read so far.
pub uninterp spec fn xml_offset_after(input: Seq<u8>, k: int) -> int;

/// A `quick_xml` reader over a byte text, with that text and the number of
/// events it has returned.
pub struct XmlSource<'a> {
    reader: Reader<&'a [u8]>,
    input: Ghost<Seq<u8>>,
    count: Ghost<int>,
}

impl<'a> XmlSource<'a> {
    /// The text that the source reads.
    pub closed spec fn input(&self) -> Seq<u8> {
        self.input@
    }

    /// The number of events read so far.
    pub closed spec fn count(&self) -> int {
        self.count@
    }

    /// A reader over a text, by `Reader::from_reader`, that has read nothing.
    #[verifier::external_body]
    pub(crate) fn new(input: &'a [u8]) -> (r: Self)
        ensures
            r.input() == input@,
            r.count() == 0,
    {
        XmlSource { reader: Reader::from_reader(input), input: Ghost(input@), count: Ghost(0) }
    }

    /// The next event, by `Reader::read_event_into`, and the position after
    /// it, by `Reader::buffer_position`.
    ///
    /// Claims that they are those of the `count`-th read of a fresh reader
    /// over the text: `new` makes the reader over that text, and this
    /// function alone reads it and counts the reads.
    #[verifier::external_body]
    pub(crate) fn next(&mut self) -> (r: (XmlEvent, u64))
        ensures
            r.0@ == xml_event_at(old(self).input(), old(self).count()),
            r.1 == xml_offset_after(old(self).input(), old(self).count()),
            final(self).input() == old(self).input(),
            final(self).count() == old(self).count() + 1,
    {
        let text = |b: &[u8]| String::from_utf8_lossy(b).into_owned();
        let event = match self.reader.read_event_into(&mut vec![]) {
            Ok(Start(e)) => XmlEvent::Start(text(e.name().0)),
            Ok(End(e)) => XmlEvent::End(text(e.name().0)),
            Ok(Text(t)) => XmlEvent::Text(text(&t)),
            Ok(CData(t)) => XmlEvent::CData(text(&t)),
            Ok(Eof) => XmlEvent::Eof,
            Err(e) => XmlEvent::Error(e.to_string()),
            _ => XmlEvent::Other,
        };
        self.count = Ghost(self.count@ + 1);
        (event, self.reader.buffer_position())
    }
}

} // verus!
