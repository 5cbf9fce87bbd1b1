//! Markdown event streams from `pulldown-cmark`.

use pulldown_cmark::{Event, Tag, TagEnd};
use vstd::prelude::*;

verus! {

/// The mathematical view of a markdown event.
pub enum MdEventV {
    HeadingStart(u8),
    HeadingEnd(u8),
    Text(Seq<char>),
    SoftBreak,
    HardBreak,
    Other,
}

/// A markdown event, reduced to what section extraction looks at.
#[derive(Debug)]
pub enum MdEvent {
    /// The start of a heading of the given level (1 to 6).
    HeadingStart(u8),
    /// The end of a heading of the given level (1 to 6).
    HeadingEnd(u8),
    /// A run of text.
    Text(String),
    /// A soft line break.
    SoftBreak,
    /// A hard line break.
    HardBreak,
    /// Any other event.
    Other,
}

impl View for MdEvent {
    type V = MdEventV;

    open spec fn view(&self) -> MdEventV {
        match self {
            MdEvent::HeadingStart(l) => MdEventV::HeadingStart(*l),
            MdEvent::HeadingEnd(l) => MdEventV::HeadingEnd(*l),
            MdEvent::Text(t) => MdEventV::Text(t@),
            MdEvent::SoftBreak => MdEventV::SoftBreak,
            MdEvent::HardBreak => MdEventV::HardBreak,
            MdEvent::Other => MdEventV::Other,
        }
    }
}

pub open spec fn events_view(v: Seq<MdEvent>) -> Seq<MdEventV> {
    v.map_values(|e: MdEvent| e@)
}

/// The events `pulldown_cmark::Parser::new` (default options) yields for
/// `text`, heading starts and ends, text, and line breaks kept and every
/// other event reduced to `Other`.
pub uninterp spec fn markdown_events_of(text: Seq<char>) -> Seq<MdEventV>;

/// Runs `pulldown_cmark::Parser` over `text` and converts each event.
#[verifier::external_body]
pub(crate) fn markdown_events(text: &str) -> (r: Vec<MdEvent>)
    ensures
        events_view(r@) == markdown_events_of(text@),
{
    let mut out = Vec::new();
    for event in pulldown_cmark::Parser::new(text) {
        out.push(match event {
            Event::Start(Tag::Heading { level, .. }) => MdEvent::HeadingStart(level as u8),
            Event::End(TagEnd::Heading(l)) => MdEvent::HeadingEnd(l as u8),
            Event::Text(t) => MdEvent::Text(t.to_string()),
            Event::SoftBreak => MdEvent::SoftBreak,
            Event::HardBreak => MdEvent::HardBreak,
            _ => MdEvent::Other,
        });
    }
    out
}

} // verus!
