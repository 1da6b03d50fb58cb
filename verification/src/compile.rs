//! The instruction compiler: one left-to-right pass over an ordered sequence
//! of (directive, values) pairs, producing the ordered instruction list.

use vstd::prelude::*;
use crate::errors::{CompileError, CompileErrorV};
use crate::program::{
    levels_wf, spec_actions, spec_with_actions, Action, ActionV, Instruction, InstructionV,
};
use crate::specifier::{lemma_strip_levels_nonneg, parse_specifier, spec_parse_specifier};
use crate::text::str_eq;

verus! {

/// One directive occurrence: its name and its argument values, in the order
/// the user supplied them.
#[derive(Debug, Clone, PartialEq, Eq)]
pub struct Directive {
    pub name: String,
    pub values: Vec<String>,
}

/// The mathematical image of a [`Directive`].
pub struct DirectiveV {
    pub name: Seq<char>,
    pub values: Seq<Seq<char>>,
}

impl View for Directive {
    type V = DirectiveV;

    open spec fn view(&self) -> DirectiveV {
        DirectiveV { name: self.name@, values: self.values.deep_view() }
    }
}

impl DeepView for Directive {
    type V = DirectiveV;

    open spec fn deep_view(&self) -> DirectiveV {
        self@
    }
}

/// The still-open instruction committed onto the finished list, if one is
/// open.
pub open spec fn commit(committed: Seq<InstructionV>, cur: Option<InstructionV>) -> Seq<
    InstructionV,
> {
    match cur {
        None => committed,
        Some(iv) => committed.push(iv),
    }
}

/// The instruction the given action is appended to, with the action
/// appended.
pub open spec fn push_action(iv: InstructionV, a: ActionV) -> InstructionV {
    spec_with_actions(iv, spec_actions(iv).push(a))
}

/// The action an attribute value specifier compiles to: a direct lookup at
/// level zero, an ancestor lookup otherwise.
pub open spec fn value_action(level: int, name: Seq<char>, fs: Seq<crate::filter::TextFilter>)
    -> ActionV {
    if level == 0 {
        ActionV::Attribute(name, fs)
    } else {
        ActionV::ParentAttribute(level, name, fs)
    }
}

/// As [`value_action`], with a fallback default.
pub open spec fn value_default_action(
    level: int,
    name: Seq<char>,
    default: Seq<char>,
    fs: Seq<crate::filter::TextFilter>,
) -> ActionV {
    if level == 0 {
        ActionV::AttributeWithDefault(name, default, fs)
    } else {
        ActionV::ParentAttributeWithDefault(level, name, default, fs)
    }
}

/// What one directive does to the compiler state: either a new (committed,
/// open) pair, or a compilation error.
pub open spec fn step_directive(
    committed: Seq<InstructionV>,
    cur: Option<InstructionV>,
    d: DirectiveV,
) -> Result<(Seq<InstructionV>, Option<InstructionV>), CompileErrorV> {
    if d.name == "startdoc"@ {
        Ok((commit(committed, cur), Some(InstructionV::StartDocument { actions: Seq::empty() })))
    } else if d.name == "startelement"@ {
        if d.values.len() < 1 {
            Err(CompileErrorV::MissingArgument(d.name))
        } else {
            Ok(
                (
                    commit(committed, cur),
                    Some(InstructionV::StartTag { tag: d.values[0], actions: Seq::empty() }),
                ),
            )
        }
    } else if d.name == "endelement"@ {
        if d.values.len() < 1 {
            Err(CompileErrorV::MissingArgument(d.name))
        } else {
            Ok(
                (
                    commit(committed, cur),
                    Some(InstructionV::EndTag { tag: d.values[0], actions: Seq::empty() }),
                ),
            )
        }
    } else if d.name == "enddoc"@ {
        Ok((commit(committed, cur), Some(InstructionV::EndDocument { actions: Seq::empty() })))
    } else if d.name == "raw"@ {
        match cur {
            None => Err(CompileErrorV::ActionBeforeScope(d.name)),
            Some(iv) => if d.values.len() < 1 {
                Err(CompileErrorV::MissingArgument(d.name))
            } else {
                Ok((committed, Some(push_action(iv, ActionV::RawString(d.values[0])))))
            },
        }
    } else if d.name == "newline"@ {
        match cur {
            None => Err(CompileErrorV::ActionBeforeScope(d.name)),
            Some(iv) => Ok((committed, Some(push_action(iv, ActionV::RawString("\n"@))))),
        }
    } else if d.name == "tab"@ {
        match cur {
            None => Err(CompileErrorV::ActionBeforeScope(d.name)),
            Some(iv) => Ok((committed, Some(push_action(iv, ActionV::RawString("\t"@))))),
        }
    } else if d.name == "value"@ {
        if d.values.len() < 1 {
            Err(CompileErrorV::MissingArgument(d.name))
        } else {
            match cur {
                None => Err(CompileErrorV::ActionBeforeScope(d.name)),
                Some(iv) => match spec_parse_specifier(d.values[0]) {
                    Ok(t) => Ok((committed, Some(push_action(iv, value_action(t.0, t.1, t.2))))),
                    Err(n) => Err(CompileErrorV::UnknownFilter(n)),
                },
            }
        }
    } else if d.name == "value_with_default"@ {
        match cur {
            None => Err(CompileErrorV::ActionBeforeScope(d.name)),
            Some(iv) => if d.values.len() < 2 {
                Err(CompileErrorV::MissingArgument(d.name))
            } else {
                match spec_parse_specifier(d.values[0]) {
                    Ok(t) => Ok(
                        (
                            committed,
                            Some(
                                push_action(
                                    iv,
                                    value_default_action(t.0, t.1, d.values[1], t.2),
                                ),
                            ),
                        ),
                    ),
                    Err(n) => Err(CompileErrorV::UnknownFilter(n)),
                }
            },
        }
    } else {
        Err(CompileErrorV::UnknownDirective(d.name))
    }
}

/// Compilation continued from a given state over the remaining directives.
pub open spec fn compile_from(
    committed: Seq<InstructionV>,
    cur: Option<InstructionV>,
    dirs: Seq<DirectiveV>,
) -> Result<Seq<InstructionV>, CompileErrorV>
    decreases dirs.len(),
{
    if dirs.len() == 0 {
        Ok(commit(committed, cur))
    } else {
        match step_directive(committed, cur, dirs[0]) {
            Ok(st) => compile_from(st.0, st.1, dirs.drop_first()),
            Err(e) => Err(e),
        }
    }
}

/// What a whole directive sequence compiles to.
pub open spec fn spec_compile(dirs: Seq<DirectiveV>) -> Result<Seq<InstructionV>, CompileErrorV> {
    compile_from(Seq::empty(), None, dirs)
}

/// The open instruction as the spec sees it.
pub open spec fn opt_view(cur: Option<Instruction>) -> Option<InstructionV> {
    match cur {
        None => None,
        Some(i) => Some(i@),
    }
}

/// A fresh, empty action list.
fn empty_actions() -> (r: Vec<Action>)
    ensures
        r.deep_view() == Seq::<ActionV>::empty(),
{
    let r: Vec<Action> = Vec::new();
    proof {
        assert(r.deep_view() =~= Seq::<ActionV>::empty());
    }
    r
}

/// Appends one action to the open instruction.
fn push_to_current(current: &mut Option<Instruction>, action: Action)
    requires
        (*old(current)) is Some,
    ensures
        (*final(current)) is Some,
        (*final(current))->Some_0@ == push_action((*old(current))->Some_0@, action@),
{
    let ghost pre = (*old(current))->Some_0@;
    let ghost av = action@;
    match current {
        Some(open_instr) => {
            let acts = open_instr.actions_mut();
            acts.push(action);
        },
        None => {},
    }
    proof {
        assert(spec_actions((*current)->Some_0@) =~= spec_actions(pre).push(av));
        assert((*current)->Some_0@ == push_action(pre, av));
    }
}

/// Commits a still-open instruction onto the finished list.
fn commit_current(instructions: &mut Vec<Instruction>, current: Option<Instruction>)
    ensures
        final(instructions).deep_view() == commit(old(instructions).deep_view(), opt_view(current)),
{
    let ghost before = instructions.deep_view();
    match current {
        Some(prev) => {
            instructions.push(prev);
            proof {
                assert(instructions.deep_view() =~= before.push(prev@));
            }
        },
        None => {},
    }
}

/// Compiles an ordered directive sequence into the instruction list, in one
/// left-to-right pass; any error aborts compilation with nothing produced.
pub fn parse_to_instructions(directives: &Vec<Directive>) -> (r: Result<
    Vec<Instruction>,
    CompileError,
>)
    ensures
        (match spec_compile(directives.deep_view()) {
            Ok(prog) => r matches Ok(v) && v.deep_view() == prog,
            Err(e) => r matches Err(err) && err@ == e,
        }),
{
    let ghost dirs = directives.deep_view();
    let mut instructions: Vec<Instruction> = Vec::new();
    let mut current: Option<Instruction> = None;
    let n = directives.len();
    let mut i: usize = 0;
    proof {
        assert(dirs.len() == n);
        assert(dirs.skip(0) =~= dirs);
        assert(instructions.deep_view() =~= Seq::<InstructionV>::empty());
    }
    while i < n
        invariant
            dirs == directives.deep_view(),
            dirs.len() == n,
            n == directives.len(),
            i <= n,
            compile_from(instructions.deep_view(), opt_view(current), dirs.skip(i as int))
                == spec_compile(dirs),
        decreases n - i,
    {
        let ghost committed0 = instructions.deep_view();
        let ghost cur0 = opt_view(current);
        let ghost dv = dirs[i as int];
        proof {
            assert(directives[i as int].deep_view() == dv);
            assert(dirs.skip(i as int)[0] == dv);
            assert(dirs.skip(i as int).drop_first() =~= dirs.skip(i + 1));
        }
        let d = &directives[i];
        if str_eq(d.name.as_str(), "startdoc") {
            commit_current(&mut instructions, current);
            current = Some(Instruction::StartDocument { actions: empty_actions() });
            proof {
                assert(opt_view(current)->Some_0 == InstructionV::StartDocument {
                    actions: Seq::empty(),
                });
            }
        } else if str_eq(d.name.as_str(), "startelement") {
            if d.values.len() < 1 {
                return Err(CompileError::MissingArgument(d.name.clone()));
            }
            commit_current(&mut instructions, current);
            current = Some(
                Instruction::StartTag { tag: d.values[0].clone(), actions: empty_actions() },
            );
            proof {
                assert(opt_view(current)->Some_0 == InstructionV::StartTag {
                    tag: dv.values[0],
                    actions: Seq::empty(),
                });
            }
        } else if str_eq(d.name.as_str(), "endelement") {
            if d.values.len() < 1 {
                return Err(CompileError::MissingArgument(d.name.clone()));
            }
            commit_current(&mut instructions, current);
            current = Some(Instruction::EndTag { tag: d.values[0].clone(), actions: empty_actions() });
            proof {
                assert(opt_view(current)->Some_0 == InstructionV::EndTag {
                    tag: dv.values[0],
                    actions: Seq::empty(),
                });
            }
        } else if str_eq(d.name.as_str(), "enddoc") {
            commit_current(&mut instructions, current);
            current = Some(Instruction::EndDocument { actions: empty_actions() });
            proof {
                assert(opt_view(current)->Some_0 == InstructionV::EndDocument {
                    actions: Seq::empty(),
                });
            }
        } else if str_eq(d.name.as_str(), "raw") {
            if current.is_none() {
                return Err(CompileError::ActionBeforeScope(d.name.clone()));
            }
            if d.values.len() < 1 {
                return Err(CompileError::MissingArgument(d.name.clone()));
            }
            push_to_current(&mut current, Action::RawString(d.values[0].clone()));
        } else if str_eq(d.name.as_str(), "newline") {
            if current.is_none() {
                return Err(CompileError::ActionBeforeScope(d.name.clone()));
            }
            push_to_current(&mut current, Action::RawString("\n".to_owned()));
        } else if str_eq(d.name.as_str(), "tab") {
            if current.is_none() {
                return Err(CompileError::ActionBeforeScope(d.name.clone()));
            }
            push_to_current(&mut current, Action::RawString("\t".to_owned()));
        } else if str_eq(d.name.as_str(), "value") {
            if d.values.len() < 1 {
                return Err(CompileError::MissingArgument(d.name.clone()));
            }
            if current.is_none() {
                return Err(CompileError::ActionBeforeScope(d.name.clone()));
            }
            match parse_specifier(d.values[0].as_str()) {
                Ok((level, name, filters)) => {
                    let action = if level == 0 {
                        Action::Attribute(name, filters)
                    } else {
                        Action::ParentAttribute(level, name, filters)
                    };
                    proof {
                        assert(action@ == value_action(
                            spec_parse_specifier(dv.values[0])->Ok_0.0,
                            spec_parse_specifier(dv.values[0])->Ok_0.1,
                            spec_parse_specifier(dv.values[0])->Ok_0.2,
                        ));
                    }
                    push_to_current(&mut current, action);
                },
                Err(e) => {
                    return Err(e);
                },
            }
        } else if str_eq(d.name.as_str(), "value_with_default") {
            if current.is_none() {
                return Err(CompileError::ActionBeforeScope(d.name.clone()));
            }
            if d.values.len() < 2 {
                return Err(CompileError::MissingArgument(d.name.clone()));
            }
            match parse_specifier(d.values[0].as_str()) {
                Ok((level, name, filters)) => {
                    let action = if level == 0 {
                        Action::AttributeWithDefault(name, d.values[1].clone(), filters)
                    } else {
                        Action::ParentAttributeWithDefault(
                            level,
                            name,
                            d.values[1].clone(),
                            filters,
                        )
                    };
                    proof {
                        assert(action@ == value_default_action(
                            spec_parse_specifier(dv.values[0])->Ok_0.0,
                            spec_parse_specifier(dv.values[0])->Ok_0.1,
                            dv.values[1],
                            spec_parse_specifier(dv.values[0])->Ok_0.2,
                        ));
                    }
                    push_to_current(&mut current, action);
                },
                Err(e) => {
                    return Err(e);
                },
            }
        } else {
            return Err(CompileError::UnknownDirective(d.name.clone()));
        }
        proof {
            assert(step_directive(committed0, cur0, dv) == Ok::<_, CompileErrorV>(
                (instructions.deep_view(), opt_view(current)),
            ));
        }
        i = i + 1;
    }
    proof {
        assert(dirs.skip(n as int) =~= Seq::<DirectiveV>::empty());
    }
    let mut out = instructions;
    commit_current(&mut out, current);
    Ok(out)
}


/// Ancestor levels are well formed in every instruction the compiler can
/// build: a zero ancestor level compiles to a direct lookup, a nonzero one
/// to an ancestor lookup carrying that level, so no ancestor action ever
/// holds a level below one.
proof fn lemma_step_keeps_levels(
    committed: Seq<InstructionV>,
    cur: Option<InstructionV>,
    d: DirectiveV,
)
    requires
        forall|i: int| 0 <= i < committed.len() ==> levels_wf(spec_actions(#[trigger] committed[i])),
        cur matches Some(iv) ==> levels_wf(spec_actions(iv)),
    ensures
        (match step_directive(committed, cur, d) {
            Ok(st) => (forall|i: int| 0 <= i < st.0.len() ==> levels_wf(
                spec_actions(#[trigger] st.0[i]),
            )) && (st.1 matches Some(iv2) ==> levels_wf(spec_actions(iv2))),
            Err(_) => true,
        }),
{
    if d.name == "value"@ || d.name == "value_with_default"@ {
        lemma_strip_levels_nonneg(d.values[0]);
    }
    match step_directive(committed, cur, d) {
        Ok(st) => {
            assert forall|i: int| 0 <= i < st.0.len() implies levels_wf(
                spec_actions(#[trigger] st.0[i]),
            ) by {
                if i < committed.len() {
                    assert(levels_wf(spec_actions(committed[i])));
                }
            }
        },
        Err(_) => {},
    }
}

/// Every program the compiler produces has well-formed ancestor levels.
pub proof fn lemma_compiled_levels_wf(dirs: Seq<DirectiveV>)
    ensures
        (match spec_compile(dirs) {
            Ok(prog) => forall|i: int| 0 <= i < prog.len() ==> levels_wf(
                spec_actions(#[trigger] prog[i]),
            ),
            Err(_) => true,
        }),
{
    lemma_compile_from_levels(Seq::empty(), None, dirs);
}

/// The inductive core of [`lemma_compiled_levels_wf`], generalized over the
/// compiler state.
proof fn lemma_compile_from_levels(
    committed: Seq<InstructionV>,
    cur: Option<InstructionV>,
    dirs: Seq<DirectiveV>,
)
    requires
        forall|i: int| 0 <= i < committed.len() ==> levels_wf(spec_actions(#[trigger] committed[i])),
        cur matches Some(iv) ==> levels_wf(spec_actions(iv)),
    ensures
        (match compile_from(committed, cur, dirs) {
            Ok(prog) => forall|i: int| 0 <= i < prog.len() ==> levels_wf(
                spec_actions(#[trigger] prog[i]),
            ),
            Err(_) => true,
        }),
    decreases dirs.len(),
{
    if dirs.len() == 0 {
        match cur {
            Some(iv) => {
                assert forall|i: int| 0 <= i < commit(committed, cur).len() implies levels_wf(
                    spec_actions(#[trigger] commit(committed, cur)[i]),
                ) by {
                    if i < committed.len() {
                        assert(levels_wf(spec_actions(committed[i])));
                    }
                }
            },
            None => {},
        }
    } else {
        lemma_step_keeps_levels(committed, cur, dirs[0]);
        match step_directive(committed, cur, dirs[0]) {
            Ok(st) => {
                lemma_compile_from_levels(st.0, st.1, dirs.drop_first());
            },
            Err(_) => {},
        }
    }
}

} // verus!
