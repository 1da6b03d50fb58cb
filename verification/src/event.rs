//! Document events: what the executor consumes, one at a time, from a
//! markup event source.

use vstd::prelude::*;
use crate::program::{Attr, AttrV};

verus! {

/// One event of a markup document stream.  Anything the executor does not
/// act on (character data, comments, processing instructions) arrives as
/// `Other` and is ignored.
#[derive(Debug, Clone, PartialEq, Eq)]
pub enum Event {
    /// The document starts; emitted once, before everything else.
    StartDocument,
    /// A tag opens, with its name and its ordered attribute list.
    StartElement { name: String, attributes: Vec<Attr> },
    /// A tag closes.
    EndElement { name: String },
    /// The document ends; emitted once, after everything else.
    EndDocument,
    /// Any other event kind; ignored by execution.
    Other,
}

/// The mathematical image of an [`Event`].
pub enum EventV {
    StartDocument,
    StartElement { name: Seq<char>, attributes: Seq<AttrV> },
    EndElement { name: Seq<char> },
    EndDocument,
    Other,
}

impl View for Event {
    type V = EventV;

    open spec fn view(&self) -> EventV {
        match self {
            Event::StartDocument => EventV::StartDocument,
            Event::StartElement { name, attributes } => EventV::StartElement {
                name: name@,
                attributes: attributes.deep_view(),
            },
            Event::EndElement { name } => EventV::EndElement { name: name@ },
            Event::EndDocument => EventV::EndDocument,
            Event::Other => EventV::Other,
        }
    }
}

impl DeepView for Event {
    type V = EventV;

    open spec fn deep_view(&self) -> EventV {
        self@
    }
}

} // verus!
