//! The streaming executor: replays the instruction program over a document
//! event stream, maintaining the ancestor context and emitting output in
//! event order.  Output already emitted stays emitted when a later event
//! fails; nothing is emitted after the failure point.

use vstd::prelude::*;
use crate::errors::{ExecError, ExecErrorV};
use crate::event::{Event, EventV};
use crate::filter::{chain_text, TextFilter};
use crate::program::{
    instruction_wf, levels_wf, program_wf, raw_only, spec_actions, spec_needs_ancestors,
    has_parent_attributes, Action, ActionV, Attr, AttrV, Instruction, InstructionV,
};
use crate::text::str_eq;

verus! {

/// One open element of the ancestor context: its tag and its attributes.
#[derive(Debug, Clone, PartialEq, Eq)]
pub struct Frame {
    pub tag: String,
    pub attrs: Vec<Attr>,
}

/// The mathematical image of a [`Frame`].
pub struct FrameV {
    pub tag: Seq<char>,
    pub attrs: Seq<AttrV>,
}

impl View for Frame {
    type V = FrameV;

    open spec fn view(&self) -> FrameV {
        FrameV { tag: self.tag@, attrs: self.attrs.deep_view() }
    }
}

impl DeepView for Frame {
    type V = FrameV;

    open spec fn deep_view(&self) -> FrameV {
        self@
    }
}

/// The first attribute of that name, searched left to right.
pub open spec fn spec_lookup(attrs: Seq<AttrV>, name: Seq<char>) -> Option<Seq<char>>
    decreases attrs.len(),
{
    if attrs.len() == 0 {
        None
    } else if attrs[0].name == name {
        Some(attrs[0].value)
    } else {
        spec_lookup(attrs.drop_first(), name)
    }
}

/// The names of the attributes, in order.
pub open spec fn spec_attr_names(attrs: Seq<AttrV>) -> Seq<Seq<char>> {
    attrs.map_values(|a: AttrV| a.name)
}

/// What one action emits, given the current element's tag and attributes
/// and the ancestor context; or the error it fails with.
pub open spec fn run_action(
    a: ActionV,
    tag: Seq<char>,
    attrs: Seq<AttrV>,
    stack: Seq<FrameV>,
) -> Result<Seq<char>, ExecErrorV> {
    match a {
        ActionV::RawString(s) => Ok(s),
        ActionV::Attribute(name, fs) => match spec_lookup(attrs, name) {
            Some(v) => Ok(chain_text(fs, v)),
            None => Err(
                ExecErrorV::MissingAttribute { attr: name, tag, present: spec_attr_names(attrs) },
            ),
        },
        ActionV::AttributeWithDefault(name, default, fs) => match spec_lookup(attrs, name) {
            Some(v) => Ok(chain_text(fs, v)),
            None => Ok(chain_text(fs, default)),
        },
        ActionV::ParentAttribute(level, name, fs) => if level > stack.len() {
            Err(ExecErrorV::AncestorTooDeep { level, depth: stack.len() as int })
        } else {
            let frame = stack[stack.len() - level];
            match spec_lookup(frame.attrs, name) {
                Some(v) => Ok(chain_text(fs, v)),
                None => Err(
                    ExecErrorV::MissingAttribute {
                        attr: name,
                        tag: frame.tag,
                        present: spec_attr_names(frame.attrs),
                    },
                ),
            }
        },
        ActionV::ParentAttributeWithDefault(level, name, default, fs) => if level > stack.len() {
            Err(ExecErrorV::AncestorTooDeep { level, depth: stack.len() as int })
        } else {
            let frame = stack[stack.len() - level];
            match spec_lookup(frame.attrs, name) {
                Some(v) => Ok(chain_text(fs, v)),
                None => Ok(chain_text(fs, default)),
            }
        },
    }
}

/// What an action list emits, in order, stopping at the first failing
/// action: the output of the actions before it is kept, nothing after it is
/// emitted.
pub open spec fn run_actions(
    acts: Seq<ActionV>,
    tag: Seq<char>,
    attrs: Seq<AttrV>,
    stack: Seq<FrameV>,
) -> (Seq<char>, Option<ExecErrorV>)
    decreases acts.len(),
{
    if acts.len() == 0 {
        (Seq::empty(), None)
    } else {
        match run_action(acts[0], tag, attrs, stack) {
            Ok(o) => {
                let rest = run_actions(acts.drop_first(), tag, attrs, stack);
                (o + rest.0, rest.1)
            },
            Err(e) => (Seq::empty(), Some(e)),
        }
    }
}

/// Whether an instruction fires on an event, and with what: its actions,
/// the tag used in lookups and error messages, and the attribute list the
/// lookups run against.
pub open spec fn event_actions(iv: InstructionV, ev: EventV) -> Option<
    (Seq<ActionV>, Seq<char>, Seq<AttrV>),
> {
    match iv {
        InstructionV::StartDocument { actions } => if ev is StartDocument {
            Some((actions, Seq::empty(), Seq::empty()))
        } else {
            None
        },
        InstructionV::StartTag { tag, actions } => match ev {
            EventV::StartElement { name, attributes } => if tag == name {
                Some((actions, tag, attributes))
            } else {
                None
            },
            _ => None,
        },
        InstructionV::EndTag { tag, actions } => match ev {
            EventV::EndElement { name } => if tag == name {
                Some((actions, tag, Seq::empty()))
            } else {
                None
            },
            _ => None,
        },
        InstructionV::EndDocument { actions } => if ev is EndDocument {
            Some((actions, Seq::empty(), Seq::empty()))
        } else {
            None
        },
    }
}

/// What one event makes the whole program emit: every firing instruction
/// runs in declaration order; the first error stops the run, keeping what
/// was emitted before it.
pub open spec fn run_matching(prog: Seq<InstructionV>, ev: EventV, stack: Seq<FrameV>) -> (
    Seq<char>,
    Option<ExecErrorV>,
)
    decreases prog.len(),
{
    if prog.len() == 0 {
        (Seq::empty(), None)
    } else {
        match event_actions(prog[0], ev) {
            None => run_matching(prog.drop_first(), ev, stack),
            Some(t) => {
                let ra = run_actions(t.0, t.1, t.2, stack);
                if ra.1 is Some {
                    ra
                } else {
                    let rest = run_matching(prog.drop_first(), ev, stack);
                    (ra.0 + rest.0, rest.1)
                }
            },
        }
    }
}

/// How the ancestor context changes after an event: a push on tag-open and
/// a pop on tag-close, and only when some instruction needs ancestors at
/// all.
pub open spec fn stack_update(prog: Seq<InstructionV>, stack: Seq<FrameV>, ev: EventV) -> Seq<
    FrameV,
> {
    match ev {
        EventV::StartElement { name, attributes } => if spec_needs_ancestors(prog) {
            stack.push(FrameV { tag: name, attrs: attributes })
        } else {
            stack
        },
        EventV::EndElement { name: _ } => if spec_needs_ancestors(prog) && stack.len() > 0 {
            stack.drop_last()
        } else {
            stack
        },
        _ => stack,
    }
}

/// The result of running a program over an event sequence: everything
/// emitted up to the end or up to the first error, the ancestor context
/// afterwards, and the error if one occurred.
#[verifier::ext_equal]
pub struct RunOutcome {
    pub out: Seq<char>,
    pub stack: Seq<FrameV>,
    pub err: Option<ExecErrorV>,
}

/// What a whole event sequence makes the program emit, event by event; an
/// error stops the run at once (the context keeps its state at the failing
/// event).
pub open spec fn run_events(
    prog: Seq<InstructionV>,
    stack: Seq<FrameV>,
    evs: Seq<EventV>,
) -> RunOutcome
    decreases evs.len(),
{
    if evs.len() == 0 {
        RunOutcome { out: Seq::empty(), stack, err: None }
    } else {
        let m = run_matching(prog, evs[0], stack);
        if m.1 is Some {
            RunOutcome { out: m.0, stack, err: m.1 }
        } else {
            let st2 = stack_update(prog, stack, evs[0]);
            let rest = run_events(prog, st2, evs.drop_first());
            RunOutcome { out: m.0 + rest.out, stack: rest.stack, err: rest.err }
        }
    }
}

/// Looks an attribute up by name, left to right; the first match wins.
fn lookup_attr(attributes: &Vec<Attr>, attr: &str) -> (r: Option<String>)
    ensures
        (match spec_lookup(attributes.deep_view(), attr@) {
            Some(v) => r matches Some(s) && s@ == v,
            None => r is None,
        }),
{
    let ghost av = attributes.deep_view();
    let n = attributes.len();
    let mut i: usize = 0;
    proof {
        assert(av.skip(0) =~= av);
    }
    while i < n
        invariant
            av == attributes.deep_view(),
            av.len() == n,
            n == attributes.len(),
            i <= n,
            spec_lookup(av, attr@) == spec_lookup(av.skip(i as int), attr@),
        decreases n - i,
    {
        proof {
            assert(attributes[i as int]@ == av[i as int]);
            assert(av.skip(i as int)[0] == av[i as int]);
            assert(av.skip(i as int).drop_first() =~= av.skip(i + 1));
        }
        if str_eq(attributes[i].name.as_str(), attr) {
            return Some(attributes[i].value.clone());
        }
        i = i + 1;
    }
    proof {
        assert(av.skip(n as int) =~= Seq::<AttrV>::empty());
    }
    None
}

/// The attribute names actually present, for error messages.
fn attr_names(attributes: &Vec<Attr>) -> (r: Vec<String>)
    ensures
        r.deep_view() == spec_attr_names(attributes.deep_view()),
{
    let ghost av = attributes.deep_view();
    let n = attributes.len();
    let mut r: Vec<String> = Vec::new();
    let mut i: usize = 0;
    proof {
        assert(r.deep_view() =~= spec_attr_names(av.take(0)));
    }
    while i < n
        invariant
            av == attributes.deep_view(),
            av.len() == n,
            n == attributes.len(),
            i <= n,
            r.deep_view() == spec_attr_names(av.take(i as int)),
        decreases n - i,
    {
        let ghost before = r.deep_view();
        proof {
            assert(attributes[i as int]@ == av[i as int]);
        }
        r.push(attributes[i].name.clone());
        proof {
            assert(r.deep_view() =~= before.push(av[i as int].name));
            assert(r.deep_view() =~= spec_attr_names(av.take(i + 1)));
        }
        i = i + 1;
    }
    proof {
        assert(av.take(n as int) =~= av);
    }
    r
}

/// Looks a required attribute up; when it is absent the error names the
/// attribute, the element, and the attributes actually present.
pub fn get_attr(attributes: &Vec<Attr>, attr: &str, tag: &str) -> (r: Result<String, ExecError>)
    ensures
        (match spec_lookup(attributes.deep_view(), attr@) {
            Some(v) => r matches Ok(s) && s@ == v,
            None => r matches Err(e) && e@ == (ExecErrorV::MissingAttribute {
                attr: attr@,
                tag: tag@,
                present: spec_attr_names(attributes.deep_view()),
            }),
        }),
{
    match lookup_attr(attributes, attr) {
        Some(v) => Ok(v),
        None => Err(
            ExecError::MissingAttribute {
                attr: attr.to_owned(),
                tag: tag.to_owned(),
                present: attr_names(attributes),
            },
        ),
    }
}

/// Clones an attribute list.
fn clone_attrs(attributes: &Vec<Attr>) -> (r: Vec<Attr>)
    ensures
        r.deep_view() == attributes.deep_view(),
{
    let n = attributes.len();
    let mut r: Vec<Attr> = Vec::new();
    let mut i: usize = 0;
    while i < n
        invariant
            n == attributes.len(),
            i <= n,
            r@.len() == i,
            forall|k: int| 0 <= k < i ==> #[trigger] r@[k]@ == attributes@[k]@,
        decreases n - i,
    {
        let a = &attributes[i];
        r.push(Attr { name: a.name.clone(), value: a.value.clone() });
        i = i + 1;
    }
    proof {
        assert(r.deep_view() =~= attributes.deep_view());
    }
    r
}

/// Runs one action, producing the text it emits or the error it fails
/// with.
fn run_action_exec(a: &Action, tag: &String, attrs: &Vec<Attr>, stack: &Vec<Frame>) -> (r: Result<
    String,
    ExecError,
>)
    requires
        (match a@ {
            ActionV::ParentAttribute(l, _, _) => l >= 1,
            ActionV::ParentAttributeWithDefault(l, _, _, _) => l >= 1,
            _ => true,
        }),
    ensures
        (match run_action(a@, tag@, attrs.deep_view(), stack.deep_view()) {
            Ok(v) => r matches Ok(s) && s@ == v,
            Err(e) => r matches Err(x) && x@ == e,
        }),
{
    match a {
        Action::RawString(s) => Ok(s.clone()),
        Action::Attribute(attr, filters) => match get_attr(attrs, attr.as_str(), tag.as_str()) {
            Ok(v) => Ok(filters.apply(v.as_str())),
            Err(e) => Err(e),
        },
        Action::AttributeWithDefault(attr, default, filters) => {
            let chosen = match lookup_attr(attrs, attr.as_str()) {
                Some(v) => v,
                None => default.clone(),
            };
            Ok(filters.apply(chosen.as_str()))
        },
        Action::ParentAttribute(level, attr, filters) => {
            if *level > stack.len() {
                Err(ExecError::AncestorTooDeep { level: *level, depth: stack.len() })
            } else {
                let frame = &stack[stack.len() - *level];
                proof {
                    assert(frame@ == stack.deep_view()[stack@.len() - (*level) as int]);
                }
                match get_attr(&frame.attrs, attr.as_str(), frame.tag.as_str()) {
                    Ok(v) => Ok(filters.apply(v.as_str())),
                    Err(e) => Err(e),
                }
            }
        },
        Action::ParentAttributeWithDefault(level, attr, default, filters) => {
            if *level > stack.len() {
                Err(ExecError::AncestorTooDeep { level: *level, depth: stack.len() })
            } else {
                let frame = &stack[stack.len() - *level];
                proof {
                    assert(frame@ == stack.deep_view()[stack@.len() - (*level) as int]);
                }
                let chosen = match lookup_attr(&frame.attrs, attr.as_str()) {
                    Some(v) => v,
                    None => default.clone(),
                };
                Ok(filters.apply(chosen.as_str()))
            }
        },
    }
}

/// Runs an action list in order, appending everything emitted to `out`; on
/// the first failing action, what the earlier actions emitted stays in
/// `out` and the error is returned.
fn run_actions_exec(
    actions: &Vec<Action>,
    tag: &String,
    attrs: &Vec<Attr>,
    stack: &Vec<Frame>,
    out: &mut String,
) -> (r: Result<(), ExecError>)
    requires
        levels_wf(actions.deep_view()),
    ensures
        ({
            let ra = run_actions(actions.deep_view(), tag@, attrs.deep_view(), stack.deep_view());
            match r {
                Ok(()) => ra.1 is None && final(out)@ == old(out)@ + ra.0,
                Err(e) => ra.1 == Some(e@) && final(out)@ == old(out)@ + ra.0,
            }
        }),
{
    let ghost av = actions.deep_view();
    let ghost tagv = tag@;
    let ghost atv = attrs.deep_view();
    let ghost stv = stack.deep_view();
    let ghost out0 = out@;
    let ghost mut done: Seq<char> = Seq::empty();
    let n = actions.len();
    let mut j: usize = 0;
    proof {
        assert(av.skip(0) =~= av);
        assert(out@ =~= out0 + done);
    }
    while j < n
        invariant
            av == actions.deep_view(),
            tagv == tag@,
            atv == attrs.deep_view(),
            stv == stack.deep_view(),
            levels_wf(av),
            av.len() == n,
            n == actions.len(),
            j <= n,
            out0 == old(out)@,
            out@ == out0 + done,
            run_actions(av, tagv, atv, stv).0 == done + run_actions(
                av.skip(j as int),
                tagv,
                atv,
                stv,
            ).0,
            run_actions(av, tagv, atv, stv).1 == run_actions(av.skip(j as int), tagv, atv, stv).1,
        decreases n - j,
    {
        proof {
            assert(actions[j as int]@ == av[j as int]);
            assert(av.skip(j as int)[0] == av[j as int]);
            assert(av.skip(j as int).drop_first() =~= av.skip(j + 1));
        }
        match run_action_exec(&actions[j], tag, attrs, stack) {
            Ok(s) => {
                out.append(s.as_str());
                proof {
                    let o = run_action(av[j as int], tagv, atv, stv)->Ok_0;
                    done = done + o;
                    assert(out@ =~= out0 + done);
                    assert((done.subrange(0, done.len() - o.len() as int) + (o + run_actions(
                        av.skip(j + 1),
                        tagv,
                        atv,
                        stv,
                    ).0)) =~= done + run_actions(av.skip(j + 1), tagv, atv, stv).0);
                }
            },
            Err(e) => {
                proof {
                    assert(run_actions(av.skip(j as int), tagv, atv, stv).0
                        =~= Seq::<char>::empty());
                    assert(done + Seq::<char>::empty() =~= done);
                }
                return Err(e);
            },
        }
        j = j + 1;
    }
    proof {
        assert(av.skip(n as int) =~= Seq::<ActionV>::empty());
        assert(done + Seq::<char>::empty() =~= done);
    }
    Ok(())
}


/// The executor's mutable state: the ancestor context, and whether it is
/// maintained at all (it is materialized only when some instruction needs
/// ancestor lookups; leaving it empty otherwise must not change output).
pub struct Executor {
    pub stack: Vec<Frame>,
    pub track: bool,
}

impl Executor {
    /// A fresh executor for this program: empty context, tracking enabled
    /// exactly when some instruction reads ancestor attributes.
    pub fn new(instructions: &Vec<Instruction>) -> (r: Executor)
        ensures
            r.track == spec_needs_ancestors(instructions.deep_view()),
            r.stack.deep_view() == Seq::<FrameV>::empty(),
    {
        let r = Executor { stack: Vec::new(), track: has_parent_attributes(instructions) };
        proof {
            assert(r.stack.deep_view() =~= Seq::<FrameV>::empty());
        }
        r
    }

    /// How many elements are currently open in the ancestor context.
    pub fn depth(&self) -> (d: usize)
        ensures
            d == self.stack.deep_view().len(),
    {
        self.stack.len()
    }

    /// Handles one event to completion: runs every firing instruction in
    /// declaration order, appends everything emitted to `output`, then
    /// pushes or pops the ancestor context.  On an error the context and
    /// the output of the earlier actions are kept and nothing more is
    /// emitted.
    pub fn step(
        &mut self,
        instructions: &Vec<Instruction>,
        event: &Event,
        output: &mut String,
    ) -> (r: Result<(), ExecError>)
        requires
            program_wf(instructions.deep_view()),
            old(self).track == spec_needs_ancestors(instructions.deep_view()),
        ensures
            final(self).track == old(self).track,
            ({
                let m = run_matching(
                    instructions.deep_view(),
                    event@,
                    old(self).stack.deep_view(),
                );
                match r {
                    Ok(()) => m.1 is None && final(output)@ == old(output)@ + m.0 && final(self).stack.deep_view() == stack_update(
                        instructions.deep_view(),
                        old(self).stack.deep_view(),
                        event@,
                    ),
                    Err(e) => m.1 == Some(e@) && final(output)@ == old(output)@ + m.0 && final(self).stack.deep_view() == old(self).stack.deep_view(),
                }
            }),
    {
        let ghost prog = instructions.deep_view();
        let ghost evv = event@;
        let ghost stack0 = self.stack.deep_view();
        let ghost out_fn0 = output@;
        let empty_tag = String::new();
        let empty_attrs: Vec<Attr> = Vec::new();
        let mut evout = String::new();
        let n = instructions.len();
        let mut i: usize = 0;
        proof {
            assert(empty_attrs.deep_view() =~= Seq::<AttrV>::empty());
            assert(prog.skip(0) =~= prog);
            assert(evout@ =~= Seq::<char>::empty());
            assert(Seq::<char>::empty() + run_matching(prog, evv, stack0).0 =~= run_matching(
                prog,
                evv,
                stack0,
            ).0);
        }
        while i < n
            invariant
                prog == instructions.deep_view(),
                program_wf(prog),
                evv == event@,
                stack0 == self.stack.deep_view(),
                self.track == old(self).track,
                out_fn0 == old(output)@,
                output@ == out_fn0,
                empty_tag@ == Seq::<char>::empty(),
                empty_attrs.deep_view() == Seq::<AttrV>::empty(),
                prog.len() == n,
                n == instructions.len(),
                i <= n,
                run_matching(prog, evv, stack0).0 == evout@ + run_matching(
                    prog.skip(i as int),
                    evv,
                    stack0,
                ).0,
                run_matching(prog, evv, stack0).1 == run_matching(
                    prog.skip(i as int),
                    evv,
                    stack0,
                ).1,
            decreases n - i,
        {
            let ghost evout0 = evout@;
            proof {
                assert(instructions[i as int]@ == prog[i as int]);
                assert(prog.skip(i as int)[0] == prog[i as int]);
                assert(prog.skip(i as int).drop_first() =~= prog.skip(i + 1));
                assert(instruction_wf(prog[i as int]));
            }
            let instr = &instructions[i];
            match instr {
                Instruction::StartDocument { actions } => {
                    match event {
                        Event::StartDocument => {
                            proof {
                                assert(raw_only(spec_actions(prog[i as int])));
                                assert(levels_wf(actions.deep_view()));
                                assert(event_actions(prog[i as int], evv) == Some(
                                    (
                                        spec_actions(prog[i as int]),
                                        Seq::<char>::empty(),
                                        Seq::<AttrV>::empty(),
                                    ),
                                ));
                            }
                            match run_actions_exec(
                                actions,
                                &empty_tag,
                                &empty_attrs,
                                &self.stack,
                                &mut evout,
                            ) {
                                Ok(()) => {
                                    proof {
                                        let ra = run_actions(
                                            actions.deep_view(),
                                            Seq::<char>::empty(),
                                            Seq::<AttrV>::empty(),
                                            stack0,
                                        );
                                        assert((evout0 + (ra.0 + run_matching(
                                            prog.skip(i + 1),
                                            evv,
                                            stack0,
                                        ).0)) =~= evout@ + run_matching(
                                            prog.skip(i + 1),
                                            evv,
                                            stack0,
                                        ).0);
                                    }
                                },
                                Err(e) => {
                                    output.append(evout.as_str());
                                    return Err(e);
                                },
                            }
                        },
                        _ => {
                            proof {
                                assert(event_actions(prog[i as int], evv) is None);
                            }
                        },
                    }
                },
                Instruction::StartTag { tag, actions } => {
                    match event {
                        Event::StartElement { name, attributes } => {
                            if str_eq(tag.as_str(), name.as_str()) {
                                proof {
                                    assert(levels_wf(actions.deep_view()));
                                    assert(event_actions(prog[i as int], evv) == Some(
                                        (
                                            spec_actions(prog[i as int]),
                                            tag@,
                                            attributes.deep_view(),
                                        ),
                                    ));
                                }
                                match run_actions_exec(
                                    actions,
                                    tag,
                                    attributes,
                                    &self.stack,
                                    &mut evout,
                                ) {
                                    Ok(()) => {
                                        proof {
                                            let ra = run_actions(
                                                actions.deep_view(),
                                                tag@,
                                                attributes.deep_view(),
                                                stack0,
                                            );
                                            assert((evout0 + (ra.0 + run_matching(
                                                prog.skip(i + 1),
                                                evv,
                                                stack0,
                                            ).0)) =~= evout@ + run_matching(
                                                prog.skip(i + 1),
                                                evv,
                                                stack0,
                                            ).0);
                                        }
                                    },
                                    Err(e) => {
                                        output.append(evout.as_str());
                                        return Err(e);
                                    },
                                }
                            } else {
                                proof {
                                    assert(event_actions(prog[i as int], evv) is None);
                                }
                            }
                        },
                        _ => {
                            proof {
                                assert(event_actions(prog[i as int], evv) is None);
                            }
                        },
                    }
                },
                Instruction::EndTag { tag, actions } => {
                    match event {
                        Event::EndElement { name } => {
                            if str_eq(tag.as_str(), name.as_str()) {
                                proof {
                                    assert(raw_only(spec_actions(prog[i as int])));
                                    assert(levels_wf(actions.deep_view()));
                                    assert(event_actions(prog[i as int], evv) == Some(
                                        (
                                            spec_actions(prog[i as int]),
                                            tag@,
                                            Seq::<AttrV>::empty(),
                                        ),
                                    ));
                                }
                                match run_actions_exec(
                                    actions,
                                    tag,
                                    &empty_attrs,
                                    &self.stack,
                                    &mut evout,
                                ) {
                                    Ok(()) => {
                                        proof {
                                            let ra = run_actions(
                                                actions.deep_view(),
                                                tag@,
                                                Seq::<AttrV>::empty(),
                                                stack0,
                                            );
                                            assert((evout0 + (ra.0 + run_matching(
                                                prog.skip(i + 1),
                                                evv,
                                                stack0,
                                            ).0)) =~= evout@ + run_matching(
                                                prog.skip(i + 1),
                                                evv,
                                                stack0,
                                            ).0);
                                        }
                                    },
                                    Err(e) => {
                                        output.append(evout.as_str());
                                        return Err(e);
                                    },
                                }
                            } else {
                                proof {
                                    assert(event_actions(prog[i as int], evv) is None);
                                }
                            }
                        },
                        _ => {
                            proof {
                                assert(event_actions(prog[i as int], evv) is None);
                            }
                        },
                    }
                },
                Instruction::EndDocument { actions } => {
                    match event {
                        Event::EndDocument => {
                            proof {
                                assert(raw_only(spec_actions(prog[i as int])));
                                assert(levels_wf(actions.deep_view()));
                                assert(event_actions(prog[i as int], evv) == Some(
                                    (
                                        spec_actions(prog[i as int]),
                                        Seq::<char>::empty(),
                                        Seq::<AttrV>::empty(),
                                    ),
                                ));
                            }
                            match run_actions_exec(
                                actions,
                                &empty_tag,
                                &empty_attrs,
                                &self.stack,
                                &mut evout,
                            ) {
                                Ok(()) => {
                                    proof {
                                        let ra = run_actions(
                                            actions.deep_view(),
                                            Seq::<char>::empty(),
                                            Seq::<AttrV>::empty(),
                                            stack0,
                                        );
                                        assert((evout0 + (ra.0 + run_matching(
                                            prog.skip(i + 1),
                                            evv,
                                            stack0,
                                        ).0)) =~= evout@ + run_matching(
                                            prog.skip(i + 1),
                                            evv,
                                            stack0,
                                        ).0);
                                    }
                                },
                                Err(e) => {
                                    output.append(evout.as_str());
                                    return Err(e);
                                },
                            }
                        },
                        _ => {
                            proof {
                                assert(event_actions(prog[i as int], evv) is None);
                            }
                        },
                    }
                },
            }
            i = i + 1;
        }
        proof {
            assert(prog.skip(n as int) =~= Seq::<InstructionV>::empty());
            assert(evout@ + Seq::<char>::empty() =~= evout@);
        }
        match event {
            Event::StartElement { name, attributes } => {
                if self.track {
                    let frame = Frame { tag: name.clone(), attrs: clone_attrs(attributes) };
                    proof {
                        assert(frame@ == FrameV { tag: name@, attrs: attributes.deep_view() });
                    }
                    self.stack.push(frame);
                    proof {
                        assert(self.stack.deep_view() =~= stack0.push(
                            FrameV { tag: name@, attrs: attributes.deep_view() },
                        ));
                    }
                }
            },
            Event::EndElement { .. } => {
                if self.track {
                    if self.stack.len() > 0 {
                        self.stack.pop();
                        proof {
                            assert(self.stack.deep_view() =~= stack0.drop_last());
                        }
                    }
                }
            },
            _ => {},
        }
        output.append(evout.as_str());
        Ok(())
    }
}

/// Runs the whole program over an in-memory event sequence, appending all
/// output to `output`.  The outcome is exactly the mathematical run: on
/// success everything emitted, on an error everything emitted before the
/// failure point, and the error itself.
pub fn process_events(
    instructions: &Vec<Instruction>,
    events: &Vec<Event>,
    output: &mut String,
) -> (r: Result<(), ExecError>)
    requires
        program_wf(instructions.deep_view()),
    ensures
        ({
            let o = run_events(instructions.deep_view(), Seq::empty(), events.deep_view());
            match r {
                Ok(()) => o.err is None && final(output)@ == old(output)@ + o.out,
                Err(e) => o.err == Some(e@) && final(output)@ == old(output)@ + o.out,
            }
        }),
{
    let ghost prog = instructions.deep_view();
    let ghost evs = events.deep_view();
    let ghost out0 = output@;
    let ghost mut emitted: Seq<char> = Seq::empty();
    let mut ex = Executor::new(instructions);
    let ne = events.len();
    let mut k: usize = 0;
    proof {
        assert(evs.len() == ne);
        assert(evs.skip(0) =~= evs);
        assert(output@ =~= out0 + emitted);
        assert(emitted + run_events(prog, ex.stack.deep_view(), evs).out =~= run_events(
            prog,
            ex.stack.deep_view(),
            evs,
        ).out);
    }
    while k < ne
        invariant
            prog == instructions.deep_view(),
            program_wf(prog),
            evs == events.deep_view(),
            evs.len() == ne,
            ne == events.len(),
            k <= ne,
            ex.track == spec_needs_ancestors(prog),
            out0 == old(output)@,
            output@ == out0 + emitted,
            run_events(prog, Seq::empty(), evs) == ({
                let rest = run_events(prog, ex.stack.deep_view(), evs.skip(k as int));
                RunOutcome { out: emitted + rest.out, stack: rest.stack, err: rest.err }
            }),
        decreases ne - k,
    {
        let ghost st_k = ex.stack.deep_view();
        let ghost emitted0 = emitted;
        proof {
            assert(events[k as int]@ == evs[k as int]);
            assert(evs.skip(k as int)[0] == evs[k as int]);
            assert(evs.skip(k as int).drop_first() =~= evs.skip(k + 1));
        }
        match ex.step(instructions, &events[k], output) {
            Ok(()) => {
                proof {
                    let m = run_matching(prog, evs[k as int], st_k);
                    emitted = emitted + m.0;
                    assert(output@ =~= out0 + emitted);
                    let rest = run_events(prog, ex.stack.deep_view(), evs.skip(k + 1));
                    assert(emitted0 + (m.0 + rest.out) =~= emitted + rest.out);
                    assert(run_events(prog, Seq::empty(), evs) =~= RunOutcome {
                        out: emitted + rest.out,
                        stack: rest.stack,
                        err: rest.err,
                    });
                }
            },
            Err(e) => {
                proof {
                    let m = run_matching(prog, evs[k as int], st_k);
                    emitted = emitted + m.0;
                    assert(output@ =~= out0 + emitted);
                    assert(run_events(prog, Seq::empty(), evs).err == Some(e@));
                    assert(run_events(prog, Seq::empty(), evs).out =~= emitted);
                }
                return Err(e);
            },
        }
        k = k + 1;
    }
    proof {
        assert(evs.skip(ne as int) =~= Seq::<EventV>::empty());
        assert(run_events(prog, Seq::empty(), evs).out =~= emitted);
    }
    Ok(())
}


/// With no ancestor-attribute action anywhere in the program, the ancestor
/// context is never touched, however deep or wide the document is: the
/// executor's memory is bounded by the program alone.
pub proof fn lemma_no_tracking_no_stack(
    prog: Seq<InstructionV>,
    stack: Seq<FrameV>,
    evs: Seq<EventV>,
)
    requires
        !spec_needs_ancestors(prog),
    ensures
        run_events(prog, stack, evs).stack == stack,
    decreases evs.len(),
{
    if evs.len() > 0 {
        let m = run_matching(prog, evs[0], stack);
        if !(m.1 is Some) {
            assert(stack_update(prog, stack, evs[0]) == stack);
            lemma_no_tracking_no_stack(prog, stack, evs.drop_first());
        }
    }
}

/// How one event changes the open-element depth; a close below depth zero
/// is ignored, as an unbalanced stream's extra close would be.
pub open spec fn depth_upd(d: int, e: EventV) -> int {
    match e {
        EventV::StartElement { .. } => d + 1,
        EventV::EndElement { .. } => if d > 0 {
            d - 1
        } else {
            0
        },
        _ => d,
    }
}

/// The open-element depth after a sequence of events, starting from a given
/// depth.
pub open spec fn depth_after(d: int, evs: Seq<EventV>) -> int
    decreases evs.len(),
{
    if evs.len() == 0 {
        d
    } else {
        depth_after(depth_upd(d, evs[0]), evs.drop_first())
    }
}

/// With ancestor tracking enabled, the context's size equals the current
/// open-element depth at every point of a run that does not fail: pushes
/// and pops balance exactly.
pub proof fn lemma_stack_depth(prog: Seq<InstructionV>, stack: Seq<FrameV>, evs: Seq<EventV>)
    requires
        spec_needs_ancestors(prog),
        run_events(prog, stack, evs).err is None,
    ensures
        run_events(prog, stack, evs).stack.len() == depth_after(stack.len() as int, evs),
    decreases evs.len(),
{
    if evs.len() > 0 {
        let st2 = stack_update(prog, stack, evs[0]);
        assert(st2.len() as int == depth_upd(stack.len() as int, evs[0]));
        lemma_stack_depth(prog, st2, evs.drop_first());
    }
}

/// An ancestor lookup whose level exceeds the number of open ancestors
/// fails at once with the depth error, with or without a default, whatever
/// the attribute name and whatever attributes any element holds.
pub proof fn lemma_ancestor_level_error(
    level: int,
    attr: Seq<char>,
    default: Seq<char>,
    fs: Seq<TextFilter>,
    tag: Seq<char>,
    attrs: Seq<AttrV>,
    stack: Seq<FrameV>,
)
    requires
        level > stack.len(),
    ensures
        run_action(ActionV::ParentAttribute(level, attr, fs), tag, attrs, stack) == Err::<
            Seq<char>,
            ExecErrorV,
        >(ExecErrorV::AncestorTooDeep { level, depth: stack.len() as int }),
        run_action(ActionV::ParentAttributeWithDefault(level, attr, default, fs), tag, attrs, stack)
            == Err::<Seq<char>, ExecErrorV>(
            ExecErrorV::AncestorTooDeep { level, depth: stack.len() as int },
        ),
{
}

/// A required attribute that is absent fails with an error naming the
/// attribute, the element, and the attribute names actually present.
pub proof fn lemma_missing_attribute_error(
    name: Seq<char>,
    fs: Seq<TextFilter>,
    tag: Seq<char>,
    attrs: Seq<AttrV>,
    stack: Seq<FrameV>,
)
    requires
        spec_lookup(attrs, name) is None,
    ensures
        run_action(ActionV::Attribute(name, fs), tag, attrs, stack) == Err::<Seq<char>, ExecErrorV>(
            ExecErrorV::MissingAttribute { attr: name, tag, present: spec_attr_names(attrs) },
        ),
{
}

/// An error is terminal for the run: once a prefix of the events has
/// failed, the remaining events contribute nothing, neither output nor
/// context changes.
pub proof fn lemma_error_is_final(
    prog: Seq<InstructionV>,
    stack: Seq<FrameV>,
    evs: Seq<EventV>,
    k: int,
)
    requires
        0 <= k <= evs.len(),
        run_events(prog, stack, evs.take(k)).err is Some,
    ensures
        run_events(prog, stack, evs) == run_events(prog, stack, evs.take(k)),
    decreases k,
{
    assert(evs.take(k).len() == k);
    assert(k > 0);
    assert(evs.take(k)[0] == evs[0]);
    let m = run_matching(prog, evs[0], stack);
    if m.1 is Some {
        assert(run_events(prog, stack, evs) =~= run_events(prog, stack, evs.take(k)));
    } else {
        let st2 = stack_update(prog, stack, evs[0]);
        assert(evs.take(k).drop_first() =~= evs.drop_first().take(k - 1));
        assert(stack_update(prog, stack, evs.take(k)[0]) == st2);
        lemma_error_is_final(prog, st2, evs.drop_first(), k - 1);
    }
}


/// Extending a run that has not failed by one more event: the event's
/// output is appended, and the run either updates the context or ends with
/// that event's error.
pub proof fn lemma_run_events_snoc(
    prog: Seq<InstructionV>,
    st0: Seq<FrameV>,
    evs: Seq<EventV>,
    e: EventV,
)
    requires
        run_events(prog, st0, evs).err is None,
    ensures
        ({
            let o = run_events(prog, st0, evs);
            let m = run_matching(prog, e, o.stack);
            run_events(prog, st0, evs.push(e)) == (if m.1 is Some {
                RunOutcome { out: o.out + m.0, stack: o.stack, err: m.1 }
            } else {
                RunOutcome { out: o.out + m.0, stack: stack_update(prog, o.stack, e), err: None }
            })
        }),
    decreases evs.len(),
{
    if evs.len() == 0 {
        assert(evs.push(e)[0] == e);
        assert(evs.push(e).drop_first() =~= Seq::<EventV>::empty());
        let m = run_matching(prog, e, st0);
        if m.1 is Some {
            assert(run_events(prog, st0, evs.push(e)) =~= RunOutcome {
                out: run_events(prog, st0, evs).out + m.0,
                stack: st0,
                err: m.1,
            });
        } else {
            let st2 = stack_update(prog, st0, e);
            assert(run_events(prog, st2, evs.push(e).drop_first()) == RunOutcome {
                out: Seq::<char>::empty(),
                stack: st2,
                err: None,
            });
            assert(run_events(prog, st0, evs.push(e)) =~= RunOutcome {
                out: run_events(prog, st0, evs).out + m.0,
                stack: st2,
                err: None,
            });
        }
    } else {
        assert(evs.push(e)[0] == evs[0]);
        assert(evs.push(e).drop_first() =~= evs.drop_first().push(e));
        let m0 = run_matching(prog, evs[0], st0);
        assert(!(m0.1 is Some));
        let st2 = stack_update(prog, st0, evs[0]);
        lemma_run_events_snoc(prog, st2, evs.drop_first(), e);
        let o2 = run_events(prog, st2, evs.drop_first());
        let o = run_events(prog, st0, evs);
        assert(o.out == m0.0 + o2.out && o.stack == o2.stack && o.err == o2.err);
        let m = run_matching(prog, e, o.stack);
        if m.1 is Some {
            assert((m0.0 + (o2.out + m.0)) =~= (o.out + m.0));
            assert(run_events(prog, st0, evs.push(e)) =~= RunOutcome {
                out: o.out + m.0,
                stack: o.stack,
                err: m.1,
            });
        } else {
            assert((m0.0 + (o2.out + m.0)) =~= (o.out + m.0));
            assert(run_events(prog, st0, evs.push(e)) =~= RunOutcome {
                out: o.out + m.0,
                stack: stack_update(prog, o.stack, e),
                err: None,
            });
        }
    }
}

} // verus!
