//! What this library relies on from the `xmlwriter` crate.
//!
//! Nothing in this file is proved. A writer of that crate keeps the text
//! written so far, a stack of the elements that are open, and its state; the
//! names below stand for them. `start_element` writes `<` and the name only:
//! the start tag is pending until something is written inside the element,
//! which then writes the `>` first. Each item states, for a writer made
//! without indentation, what the source of the crate shows the method to do
//! to the text, to the stack and to the state.
use vstd::prelude::*;

verus! {

/// The writer of the `xmlwriter` crate, of which nothing is seen but what
/// the names below say.
#[verifier::external_type_specification]
#[verifier::external_body]
pub struct ExXmlWriter(xmlwriter::XmlWriter);

/// The text that a writer has produced so far.
pub uninterp spec fn xml_text(w: xmlwriter::XmlWriter) -> Seq<char>;

/// The names of the elements that a writer has started and not yet ended,
/// outermost first.
pub uninterp spec fn xml_open(w: xmlwriter::XmlWriter) -> Seq<Seq<char>>;

/// Whether nothing at all has been asked of a writer yet.
pub uninterp spec fn xml_fresh(w: xmlwriter::XmlWriter) -> bool;

/// Whether the start tag of the innermost open element still lacks its
/// closing bracket, which is the case until something is written inside it.
pub uninterp spec fn xml_tag_open(w: xmlwriter::XmlWriter) -> bool;

/// Whether a writer was made to write without indentation or line breaks and
/// with double quotes.
pub uninterp spec fn xml_compact(w: xmlwriter::XmlWriter) -> bool;

/// The XML declaration as `write_declaration` writes it with double quotes.
pub open spec fn xml_declaration() -> Seq<char> {
    "<?xml version=\"1.0\" encoding=\"UTF-8\" standalone=\"no\"?>"@
}

/// The bracket that closes a pending start tag, if there is one.
pub open spec fn tag_closer(pending: bool) -> Seq<char> {
    if pending {
        seq!['>']
    } else {
        Seq::<char>::empty()
    }
}

/// The end tag of an element.
pub open spec fn close_tag(name: Seq<char>) -> Seq<char> {
    seq!['<', '/'] + name + seq!['>']
}

/// Whether a text holds no `<`, the one character that `write_text` escapes.
pub open spec fn needs_no_escape(text: Seq<char>) -> bool {
    forall|i: int| 0 <= i < text.len() ==> text[i] != '<'
}

/// `XmlWriter::new` starts with an empty buffer and no open element. The
/// options handed to it are the default ones, which ask for double quotes
/// and no indentation of attributes, but with the indentation of nodes
/// switched off.
#[verifier::external_body]
pub(crate) fn compact_writer() -> (w: xmlwriter::XmlWriter)
    ensures
        xml_text(w) == Seq::<char>::empty(),
        xml_open(w) == Seq::<Seq<char>>::empty(),
        xml_fresh(w),
        !xml_tag_open(w),
        xml_compact(w),
{
    xmlwriter::XmlWriter::new(
        xmlwriter::Options { indent: xmlwriter::Indent::None, ..xmlwriter::Options::default() },
    )
}

/// `XmlWriter::write_declaration` panics unless it is the first thing asked
/// of the writer; then it appends the declaration with its three attributes.
pub assume_specification[ xmlwriter::XmlWriter::write_declaration ](w: &mut xmlwriter::XmlWriter)
    requires
        xml_compact(*old(w)),
        xml_fresh(*old(w)),
    ensures
        xml_text(*final(w)) == xml_text(*old(w)) + xml_declaration(),
        xml_open(*final(w)) == xml_open(*old(w)),
        !xml_fresh(*final(w)),
        !xml_tag_open(*final(w)),
        xml_compact(*final(w)),
;

/// `XmlWriter::start_element` closes a pending start tag, then writes `<`
/// and the name and leaves the new tag pending.
pub assume_specification[ xmlwriter::XmlWriter::start_element ](
    w: &mut xmlwriter::XmlWriter,
    name: &str,
)
    requires
        xml_compact(*old(w)),
    ensures
        xml_text(*final(w)) == xml_text(*old(w)) + tag_closer(xml_tag_open(*old(w))) + seq!['<']
            + name@,
        xml_open(*final(w)) == xml_open(*old(w)).push(name@),
        !xml_fresh(*final(w)),
        xml_tag_open(*final(w)),
        xml_compact(*final(w)),
;

/// `XmlWriter::write_text` panics outside an element; inside one it closes
/// a pending start tag and appends the text, which it would escape if it
/// held a `<`.
pub assume_specification[ xmlwriter::XmlWriter::write_text ](
    w: &mut xmlwriter::XmlWriter,
    text: &str,
)
    requires
        xml_compact(*old(w)),
        xml_open(*old(w)).len() > 0,
        needs_no_escape(text@),
    ensures
        xml_text(*final(w)) == xml_text(*old(w)) + tag_closer(xml_tag_open(*old(w))) + text@,
        xml_open(*final(w)) == xml_open(*old(w)),
        !xml_fresh(*final(w)),
        !xml_tag_open(*final(w)),
        xml_compact(*final(w)),
;

/// `XmlWriter::end_element` ends the innermost open element. Where
/// something has been written inside it, so that its start tag is no longer
/// pending, it writes `</`, the name of the element and `>`.
pub assume_specification[ xmlwriter::XmlWriter::end_element ](w: &mut xmlwriter::XmlWriter)
    requires
        xml_compact(*old(w)),
        xml_open(*old(w)).len() > 0,
        !xml_tag_open(*old(w)),
    ensures
        xml_text(*final(w)) == xml_text(*old(w)) + close_tag(xml_open(*old(w)).last()),
        xml_open(*final(w)) == xml_open(*old(w)).drop_last(),
        !xml_fresh(*final(w)),
        !xml_tag_open(*final(w)),
        xml_compact(*final(w)),
;

/// `XmlWriter::end_document` hands out the text written, once every element
/// has been ended.
pub assume_specification[ xmlwriter::XmlWriter::end_document ](w: xmlwriter::XmlWriter) -> (s:
    String)
    requires
        xml_compact(w),
        xml_open(w).len() == 0,
    ensures
        s@ == xml_text(w),
;

} // verus!
