//! The instruction program: actions, instructions, and their well-formedness.

use vstd::prelude::*;
use crate::filter::{Filters, TextFilter};

verus! {

/// One attribute of an element: a name and a value.
#[derive(Debug, Clone, PartialEq, Eq)]
pub struct Attr {
    pub name: String,
    pub value: String,
}

/// The mathematical image of an [`Attr`].
pub struct AttrV {
    pub name: Seq<char>,
    pub value: Seq<char>,
}

impl View for Attr {
    type V = AttrV;

    open spec fn view(&self) -> AttrV {
        AttrV { name: self.name@, value: self.value@ }
    }
}

impl DeepView for Attr {
    type V = AttrV;

    open spec fn deep_view(&self) -> AttrV {
        self@
    }
}

/// A unit of output behaviour within an instruction.
#[derive(Debug, PartialEq, Eq)]
pub enum Action {
    /// Emit this text verbatim.
    RawString(String),
    /// Emit the named attribute of the current element; absence is an error.
    Attribute(String, Filters),
    /// Emit the named attribute of the current element, or the default when
    /// it is absent.
    AttributeWithDefault(String, String, Filters),
    /// Emit the named attribute of the ancestor at this level (1 = parent);
    /// absence is an error.
    ParentAttribute(usize, String, Filters),
    /// Emit the named attribute of the ancestor at this level, or the
    /// default when it is absent on that ancestor.
    ParentAttributeWithDefault(usize, String, String, Filters),
}

/// The mathematical image of an [`Action`].
pub enum ActionV {
    RawString(Seq<char>),
    Attribute(Seq<char>, Seq<TextFilter>),
    AttributeWithDefault(Seq<char>, Seq<char>, Seq<TextFilter>),
    ParentAttribute(int, Seq<char>, Seq<TextFilter>),
    ParentAttributeWithDefault(int, Seq<char>, Seq<char>, Seq<TextFilter>),
}

impl View for Action {
    type V = ActionV;

    open spec fn view(&self) -> ActionV {
        match self {
            Action::RawString(s) => ActionV::RawString(s@),
            Action::Attribute(a, fs) => ActionV::Attribute(a@, fs@),
            Action::AttributeWithDefault(a, d, fs) => ActionV::AttributeWithDefault(a@, d@, fs@),
            Action::ParentAttribute(l, a, fs) => ActionV::ParentAttribute(*l as int, a@, fs@),
            Action::ParentAttributeWithDefault(l, a, d, fs) => ActionV::ParentAttributeWithDefault(
                *l as int,
                a@,
                d@,
                fs@,
            ),
        }
    }
}

impl DeepView for Action {
    type V = ActionV;

    open spec fn deep_view(&self) -> ActionV {
        self@
    }
}

/// Whether an action reads an ancestor attribute.
pub open spec fn spec_is_parent_attr(a: ActionV) -> bool {
    a is ParentAttribute || a is ParentAttributeWithDefault
}

impl Action {
    /// Whether this action reads an ancestor attribute.
    pub fn is_parent_attr(&self) -> (b: bool)
        ensures
            b == spec_is_parent_attr(self@),
    {
        matches!(
            self,
            Action::ParentAttribute(_, _, _) | Action::ParentAttributeWithDefault(_, _, _, _)
        )
    }
}

/// A rule binding one document event kind to an ordered list of actions.
#[derive(Debug, PartialEq, Eq)]
pub enum Instruction {
    /// Fires once, when the document starts.
    StartDocument { actions: Vec<Action> },
    /// Fires whenever a tag of this name opens, at any depth.
    StartTag { tag: String, actions: Vec<Action> },
    /// Fires whenever a tag of this name closes, at any depth.
    EndTag { tag: String, actions: Vec<Action> },
    /// Fires once, when the document ends.
    EndDocument { actions: Vec<Action> },
}

/// The mathematical image of an [`Instruction`].
pub enum InstructionV {
    StartDocument { actions: Seq<ActionV> },
    StartTag { tag: Seq<char>, actions: Seq<ActionV> },
    EndTag { tag: Seq<char>, actions: Seq<ActionV> },
    EndDocument { actions: Seq<ActionV> },
}

impl View for Instruction {
    type V = InstructionV;

    open spec fn view(&self) -> InstructionV {
        match self {
            Instruction::StartDocument { actions } => InstructionV::StartDocument {
                actions: actions.deep_view(),
            },
            Instruction::StartTag { tag, actions } => InstructionV::StartTag {
                tag: tag@,
                actions: actions.deep_view(),
            },
            Instruction::EndTag { tag, actions } => InstructionV::EndTag {
                tag: tag@,
                actions: actions.deep_view(),
            },
            Instruction::EndDocument { actions } => InstructionV::EndDocument {
                actions: actions.deep_view(),
            },
        }
    }
}

impl DeepView for Instruction {
    type V = InstructionV;

    open spec fn deep_view(&self) -> InstructionV {
        self@
    }
}

/// The actions of an instruction, whatever its event kind.
pub open spec fn spec_actions(iv: InstructionV) -> Seq<ActionV> {
    match iv {
        InstructionV::StartDocument { actions } => actions,
        InstructionV::StartTag { tag: _, actions } => actions,
        InstructionV::EndTag { tag: _, actions } => actions,
        InstructionV::EndDocument { actions } => actions,
    }
}

/// The same instruction with its actions replaced.
pub open spec fn spec_with_actions(iv: InstructionV, acts: Seq<ActionV>) -> InstructionV {
    match iv {
        InstructionV::StartDocument { actions: _ } => InstructionV::StartDocument { actions: acts },
        InstructionV::StartTag { tag, actions: _ } => InstructionV::StartTag { tag, actions: acts },
        InstructionV::EndTag { tag, actions: _ } => InstructionV::EndTag { tag, actions: acts },
        InstructionV::EndDocument { actions: _ } => InstructionV::EndDocument { actions: acts },
    }
}

impl Instruction {
    /// Read access to this instruction's actions.
    pub fn actions(&self) -> (r: &Vec<Action>)
        ensures
            r.deep_view() == spec_actions(self@),
    {
        match self {
            Instruction::StartDocument { actions } => actions,
            Instruction::StartTag { tag: _, actions } => actions,
            Instruction::EndTag { tag: _, actions } => actions,
            Instruction::EndDocument { actions } => actions,
        }
    }

    /// Write access to this instruction's actions; the event kind and tag
    /// stay as they were.
    pub fn actions_mut(&mut self) -> (r: &mut Vec<Action>)
        ensures
            r.deep_view() == spec_actions(old(self)@),
            final(self)@ == spec_with_actions(old(self)@, final(r).deep_view()),
    {
        match self {
            Instruction::StartDocument { actions } => actions,
            Instruction::StartTag { tag: _, actions } => actions,
            Instruction::EndTag { tag: _, actions } => actions,
            Instruction::EndDocument { actions } => actions,
        }
    }
}

/// Ancestor levels in an instruction's actions are at least one: a level of
/// zero means the current element and is compiled to a direct lookup, never
/// to an ancestor action.
pub open spec fn levels_wf(acts: Seq<ActionV>) -> bool {
    forall|j: int| 0 <= j < acts.len() ==> (match #[trigger] acts[j] {
        ActionV::ParentAttribute(l, _, _) => l >= 1,
        ActionV::ParentAttributeWithDefault(l, _, _, _) => l >= 1,
        _ => true,
    })
}

/// Only literal text emission appears in this action list.
pub open spec fn raw_only(acts: Seq<ActionV>) -> bool {
    forall|j: int| 0 <= j < acts.len() ==> #[trigger] acts[j] is RawString
}

/// A well-formed instruction: attribute lookups appear only on tag-open
/// instructions (no element context exists for the other kinds), and
/// ancestor levels are at least one.
pub open spec fn instruction_wf(iv: InstructionV) -> bool {
    match iv {
        InstructionV::StartDocument { actions } => raw_only(actions),
        InstructionV::StartTag { tag: _, actions } => levels_wf(actions),
        InstructionV::EndTag { tag: _, actions } => raw_only(actions),
        InstructionV::EndDocument { actions } => raw_only(actions),
    }
}

/// A well-formed program: every instruction is well-formed.
pub open spec fn program_wf(prog: Seq<InstructionV>) -> bool {
    forall|i: int| 0 <= i < prog.len() ==> instruction_wf(#[trigger] prog[i])
}

/// Whether an instruction holds an ancestor-attribute action.
pub open spec fn instr_needs_ancestors(iv: InstructionV) -> bool {
    exists|j: int| 0 <= j < spec_actions(iv).len() && spec_is_parent_attr(
        #[trigger] spec_actions(iv)[j],
    )
}

/// Whether any instruction of the program holds an ancestor-attribute
/// action; only then is the ancestor context maintained.
pub open spec fn spec_needs_ancestors(prog: Seq<InstructionV>) -> bool {
    exists|i: int| 0 <= i < prog.len() && instr_needs_ancestors(#[trigger] prog[i])
}

/// Whether any instruction's action reads an ancestor attribute.
pub fn has_parent_attributes(instructions: &Vec<Instruction>) -> (b: bool)
    ensures
        b == spec_needs_ancestors(instructions.deep_view()),
{
    let ghost prog = instructions.deep_view();
    let n = instructions.len();
    let mut i: usize = 0;
    proof {
        assert(prog.len() == n);
    }
    while i < n
        invariant
            prog == instructions.deep_view(),
            prog.len() == n,
            n == instructions.len(),
            i <= n,
            forall|k: int| 0 <= k < i ==> !instr_needs_ancestors(#[trigger] prog[k]),
        decreases n - i,
    {
        let acts = instructions[i].actions();
        let m = acts.len();
        let mut j: usize = 0;
        proof {
            assert(instructions[i as int].deep_view() == prog[i as int]);
            assert(acts.deep_view().len() == m);
        }
        while j < m
            invariant
                prog == instructions.deep_view(),
                acts.deep_view() == spec_actions(prog[i as int]),
                0 <= i < prog.len(),
                acts.deep_view().len() == m,
                m == acts.len(),
                j <= m,
                forall|k: int| 0 <= k < j ==> !spec_is_parent_attr(
                    #[trigger] spec_actions(prog[i as int])[k],
                ),
            decreases m - j,
        {
            if acts[j].is_parent_attr() {
                proof {
                    assert(acts[j as int].deep_view() == spec_actions(prog[i as int])[j as int]);
                    assert(instr_needs_ancestors(prog[i as int]));
                }
                return true;
            }
            proof {
                assert(acts[j as int].deep_view() == spec_actions(prog[i as int])[j as int]);
            }
            j = j + 1;
        }
        proof {
            assert(!instr_needs_ancestors(prog[i as int]));
        }
        i = i + 1;
    }
    false
}

/// Whether the whole program is well-formed; execution requires this.
pub fn check_program_wf(instructions: &Vec<Instruction>) -> (b: bool)
    ensures
        b == program_wf(instructions.deep_view()),
{
    let ghost prog = instructions.deep_view();
    let n = instructions.len();
    let mut i: usize = 0;
    proof {
        assert(prog.len() == n);
    }
    while i < n
        invariant
            prog == instructions.deep_view(),
            prog.len() == n,
            n == instructions.len(),
            i <= n,
            forall|k: int| 0 <= k < i ==> instruction_wf(#[trigger] prog[k]),
        decreases n - i,
    {
        let raw_needed: bool = matches!(
            &instructions[i],
            Instruction::StartDocument { .. } | Instruction::EndTag { .. }
                | Instruction::EndDocument { .. }
        );
        let acts = instructions[i].actions();
        let m = acts.len();
        let mut j: usize = 0;
        proof {
            assert(instructions[i as int].deep_view() == prog[i as int]);
            assert(acts.deep_view().len() == m);
        }
        while j < m
            invariant
                prog == instructions.deep_view(),
                acts.deep_view() == spec_actions(prog[i as int]),
                0 <= i < prog.len(),
                acts.deep_view().len() == m,
                m == acts.len(),
                j <= m,
                raw_needed == !(prog[i as int] is StartTag),
                raw_needed ==> forall|k: int| 0 <= k < j ==> #[trigger] spec_actions(
                    prog[i as int],
                )[k] is RawString,
                !raw_needed ==> forall|k: int| 0 <= k < j ==> (match #[trigger] spec_actions(
                    prog[i as int],
                )[k] {
                    ActionV::ParentAttribute(l, _, _) => l >= 1,
                    ActionV::ParentAttributeWithDefault(l, _, _, _) => l >= 1,
                    _ => true,
                }),
            decreases m - j,
        {
            let ghost av = spec_actions(prog[i as int]);
            proof {
                assert(acts[j as int].deep_view() == av[j as int]);
            }
            if raw_needed {
                let ok: bool = matches!(&acts[j], Action::RawString(_));
                if !ok {
                    proof {
                        assert(!(av[j as int] is RawString));
                        assert(!raw_only(av));
                        assert(!instruction_wf(prog[i as int]));
                        assert(!program_wf(prog));
                    }
                    return false;
                }
            } else {
                match &acts[j] {
                    Action::ParentAttribute(l, _, _) => {
                        if *l == 0 {
                            proof {
                                assert(av[j as int] is ParentAttribute);
                                assert(!levels_wf(av));
                                assert(!instruction_wf(prog[i as int]));
                                assert(!program_wf(prog));
                            }
                            return false;
                        }
                    },
                    Action::ParentAttributeWithDefault(l, _, _, _) => {
                        if *l == 0 {
                            proof {
                                assert(av[j as int] is ParentAttributeWithDefault);
                                assert(!levels_wf(av));
                                assert(!instruction_wf(prog[i as int]));
                                assert(!program_wf(prog));
                            }
                            return false;
                        }
                    },
                    _ => {},
                }
            }
            j = j + 1;
        }
        proof {
            assert(instruction_wf(prog[i as int]));
        }
        i = i + 1;
    }
    true
}

} // verus!
