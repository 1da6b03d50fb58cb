//! The document source: a narrow trusted boundary around the `xml` crate's
//! pull parser, and the streaming run that drives the executor over it one
//! event at a time.

use vstd::prelude::*;
use crate::errors::{ExecError, ExecErrorV};
use crate::event::{Event, EventV};
use crate::exec::{run_events, run_matching, Executor, RunOutcome, lemma_run_events_snoc};
use crate::program::{program_wf, spec_needs_ancestors, Attr, Instruction};

verus! {

/// What one pull from the event source yields: the next document event, or
/// the source's own fatal error, already rendered as text.
enum SourceItem {
    Ev(Event),
    Fault(String),
}

/// The `xml` crate's pull parser over the input bytes, held opaquely: the
/// parser type's own declaration is refused (its `Read` bound), so this
/// struct hides it and the two wrappers below make the only calls into it.
#[verifier::external_body]
struct DocReader<'a> {
    reader: xml::reader::EventReader<&'a [u8]>,
}

impl<'a> DocReader<'a> {
    /// Relies on xml::reader::EventReader::new: wraps the input bytes in a
    /// fresh pull parser that will walk one document from its beginning.
    #[verifier::external_body]
    fn new(input: &'a [u8]) -> DocReader<'a> {
        DocReader { reader: xml::reader::EventReader::new(input) }
    }

    /// Relies on xml::reader::EventReader::next: pulls the next event of
    /// the stream.  Element names are taken by their local name, attributes
    /// by local name and value; every event kind the executor ignores is
    /// handed over as `Other`, and a parse error as its message.  Nothing
    /// is assumed about which events come back or in what order.
    #[verifier::external_body]
    fn next_item(&mut self) -> (item: SourceItem) {
        match self.reader.next() {
            Err(e) => SourceItem::Fault(format!("{}", e)),
            Ok(xml::reader::XmlEvent::StartDocument { .. }) => SourceItem::Ev(Event::StartDocument),
            Ok(xml::reader::XmlEvent::StartElement { name, attributes, .. }) => {
                let convert = |a: xml::attribute::OwnedAttribute| Attr { name: a.name.local_name, value: a.value };
                let attributes = attributes.into_iter().map(convert).collect();
                SourceItem::Ev(Event::StartElement { name: name.local_name, attributes })
            },
            Ok(xml::reader::XmlEvent::EndElement { name }) => SourceItem::Ev(Event::EndElement { name: name.local_name }),
            Ok(xml::reader::XmlEvent::EndDocument) => SourceItem::Ev(Event::EndDocument),
            Ok(_) => SourceItem::Ev(Event::Other),
        }
    }
}

/// An error that ends a processing run: the source's fatal parse error,
/// propagated as text, or a resolution error during execution.
#[derive(Debug, Clone, PartialEq, Eq)]
pub enum ProcessError {
    Xml(String),
    Exec(ExecError),
}

/// The mathematical image of a [`ProcessError`].
pub enum ProcessErrorV {
    Xml(Seq<char>),
    Exec(ExecErrorV),
}

impl View for ProcessError {
    type V = ProcessErrorV;

    open spec fn view(&self) -> ProcessErrorV {
        match self {
            ProcessError::Xml(m) => ProcessErrorV::Xml(m@),
            ProcessError::Exec(e) => ProcessErrorV::Exec(e@),
        }
    }
}

impl ProcessError {
    /// The error's descriptive message.
    pub fn message(&self) -> (r: String)
        ensures
            (match self@ {
                ProcessErrorV::Xml(m) => r@ == m,
                ProcessErrorV::Exec(e) => r@ == crate::errors::spec_exec_error_message(e),
            }),
    {
        match self {
            ProcessError::Xml(m) => m.clone(),
            ProcessError::Exec(e) => e.message(),
        }
    }
}

/// Streams one document through the program: events are pulled lazily, one
/// at a time, each handled to completion and its output appended before the
/// next is requested.  The run ends at the document-end event, at the
/// source's first error, or at the first resolution error; whatever was
/// emitted before the failure point stays in `output`.  Whatever events the
/// source yields, the appended output and the outcome are exactly the
/// mathematical run over those events.
pub fn process(instructions: &Vec<Instruction>, input: &[u8], output: &mut String) -> (r: Result<
    (),
    ProcessError,
>)
    requires
        program_wf(instructions.deep_view()),
    ensures
        (match r {
            Ok(()) => exists|evs: Seq<EventV>|
                {
                    let o = #[trigger] run_events(instructions.deep_view(), Seq::empty(), evs);
                    o.err is None && evs.len() > 0 && evs.last() is EndDocument && final(output)@
                        == old(output)@ + o.out
                },
            Err(pe) => match pe@ {
                ProcessErrorV::Exec(e) => exists|evs: Seq<EventV>|
                    {
                        let o = #[trigger] run_events(instructions.deep_view(), Seq::empty(), evs);
                        o.err == Some(e) && final(output)@ == old(output)@ + o.out
                    },
                ProcessErrorV::Xml(_) => exists|evs: Seq<EventV>|
                    {
                        let o = #[trigger] run_events(instructions.deep_view(), Seq::empty(), evs);
                        o.err is None && final(output)@ == old(output)@ + o.out
                    },
            },
        }),
{
    let ghost prog = instructions.deep_view();
    let ghost out0 = output@;
    let ghost mut evs: Seq<EventV> = Seq::empty();
    let ghost mut emitted: Seq<char> = Seq::empty();
    let mut reader = DocReader::new(input);
    let mut ex = Executor::new(instructions);
    let mut fuel: u64 = u64::MAX;
    proof {
        assert(output@ =~= out0 + emitted);
        assert(run_events(prog, Seq::empty(), evs) =~= RunOutcome {
            out: emitted,
            stack: ex.stack.deep_view(),
            err: None,
        });
    }
    loop
        invariant
            prog == instructions.deep_view(),
            program_wf(prog),
            ex.track == spec_needs_ancestors(prog),
            out0 == old(output)@,
            output@ == out0 + emitted,
            run_events(prog, Seq::empty(), evs) == (RunOutcome {
                out: emitted,
                stack: ex.stack.deep_view(),
                err: None,
            }),
            forall|k: int| 0 <= k < evs.len() ==> !(#[trigger] evs[k] is EndDocument),
        decreases fuel,
    {
        if fuel == 0 {
            return Err(
                ProcessError::Xml(
                    "the event source yielded no document end in the step budget".to_owned(),
                ),
            );
        }
        fuel = fuel - 1;
        match reader.next_item() {
            SourceItem::Fault(m) => {
                return Err(ProcessError::Xml(m));
            },
            SourceItem::Ev(ev) => {
                let is_end = matches!(ev, Event::EndDocument);
                let ghost st_k = ex.stack.deep_view();
                let ghost emitted0 = emitted;
                proof {
                    lemma_run_events_snoc(prog, Seq::empty(), evs, ev@);
                }
                match ex.step(instructions, &ev, output) {
                    Ok(()) => {
                        proof {
                            let m = run_matching(prog, ev@, st_k);
                            evs = evs.push(ev@);
                            emitted = emitted + m.0;
                            assert(output@ =~= out0 + emitted);
                            assert(run_events(prog, Seq::empty(), evs) =~= RunOutcome {
                                out: emitted,
                                stack: ex.stack.deep_view(),
                                err: None,
                            });
                        }
                        if is_end {
                            proof {
                                assert(evs.last() is EndDocument);
                            }
                            return Ok(());
                        }
                    },
                    Err(e) => {
                        proof {
                            let m = run_matching(prog, ev@, st_k);
                            evs = evs.push(ev@);
                            emitted = emitted + m.0;
                            assert(output@ =~= out0 + emitted);
                            assert(run_events(prog, Seq::empty(), evs) =~= RunOutcome {
                                out: emitted,
                                stack: st_k,
                                err: Some(e@),
                            });
                        }
                        return Err(ProcessError::Exec(e));
                    },
                }
            },
        }
    }
}

} // verus!
