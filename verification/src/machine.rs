use vstd::prelude::*;

use crate::grammar::{Directive, DirectiveView};
use crate::pattern::{class_matches, run_byte_matches, ClassPattern};

verus! {

/// The guard of one compiled branch: what must hold of the next input
/// event for the branch to fire.
#[derive(Clone, Copy, Debug, PartialEq, Eq, Structural)]
pub enum Guard {
    /// Exactly this byte.
    Byte(u8),
    /// This alphabetic byte in either case, for case-folded literal runs.
    CaselessByte(u8),
    /// Any byte of the built-in class.
    Class(ClassPattern),
    /// No byte left in the current chunk, and the chunk is not the last.
    Eoc,
    /// No byte left at all.
    Eof,
    /// A byte for which the host predicate in this capability slot answers
    /// true.
    Cond(usize),
    /// Anything.
    Any,
}

/// A compiled invocation of a host action: the capability slot of its
/// directive and the declared argument bindings.
#[derive(Clone, Debug, PartialEq, Eq)]
pub struct ActionCall {
    pub directive: usize,
    pub args: Vec<Vec<u8>>,
}

pub struct ActionCallView {
    pub directive: usize,
    pub args: Seq<Seq<u8>>,
}

impl DeepView for ActionCall {
    type V = ActionCallView;

    open spec fn deep_view(&self) -> ActionCallView {
        ActionCallView { directive: self.directive, args: self.args.deep_view() }
    }
}

/// One compiled decision branch: its guard, the optional host action, and
/// the optional transition target.
#[derive(Clone, Debug, PartialEq, Eq)]
pub struct Branch {
    pub guard: Guard,
    pub action: Option<ActionCall>,
    pub target: Option<usize>,
}

pub struct BranchView {
    pub guard: Guard,
    pub action: Option<ActionCallView>,
    pub target: Option<usize>,
}

impl DeepView for Branch {
    type V = BranchView;

    open spec fn deep_view(&self) -> BranchView {
        BranchView {
            guard: self.guard,
            action: self.action.deep_view(),
            target: self.target,
        }
    }
}

/// One state of the compiled machine: the one-shot entry prelude, if any,
/// and the ordered dispatch branches.
#[derive(Clone, Debug, PartialEq, Eq)]
pub struct MachineState {
    pub prelude: Option<ActionCall>,
    pub branches: Vec<Branch>,
}

pub struct MachineStateView {
    pub prelude: Option<ActionCallView>,
    pub branches: Seq<BranchView>,
}

impl DeepView for MachineState {
    type V = MachineStateView;

    open spec fn deep_view(&self) -> MachineStateView {
        MachineStateView {
            prelude: self.prelude.deep_view(),
            branches: self.branches.deep_view(),
        }
    }
}

/// The generated artifact: the closed state identifier space (the declared
/// states first, then the implicit ones the expander synthesized), the
/// dispatch table of every state, and the directive table the host must
/// supply one capability slot for.
#[derive(Clone, Debug, PartialEq, Eq)]
pub struct Machine {
    /// The names of the declared states; the state with identifier `i`
    /// below the length of this table is the declared state named here.
    pub user_names: Vec<Vec<u8>>,
    /// All states, declared and implicit, by identifier.
    pub states: Vec<MachineState>,
    /// The capability surface: one slot per declared directive.
    pub directives: Vec<Directive>,
}

pub struct MachineView {
    pub user_names: Seq<Seq<u8>>,
    pub states: Seq<MachineStateView>,
    pub directives: Seq<DirectiveView>,
}

impl DeepView for Machine {
    type V = MachineView;

    open spec fn deep_view(&self) -> MachineView {
        MachineView {
            user_names: self.user_names.deep_view(),
            states: self.states.deep_view(),
            directives: self.directives.deep_view(),
        }
    }
}

/// Every identifier a compiled machine holds stays inside the machine: all
/// targets address a state, all capability slots address a directive.
pub open spec fn machine_wf(m: MachineView) -> bool {
    &&& m.user_names.len() <= m.states.len()
    &&& forall|i: int|
        0 <= i < m.states.len() ==> state_wf(#[trigger] m.states[i], m.states.len() as int, m.directives.len() as int)
}

pub open spec fn state_wf(s: MachineStateView, n_states: int, n_dirs: int) -> bool {
    &&& match s.prelude {
        Some(a) => a.directive < n_dirs,
        None => true,
    }
    &&& forall|j: int| 0 <= j < s.branches.len() ==> branch_wf(#[trigger] s.branches[j], n_states, n_dirs)
}

pub open spec fn branch_wf(b: BranchView, n_states: int, n_dirs: int) -> bool {
    &&& match b.guard {
        Guard::Cond(c) => c < n_dirs,
        _ => true,
    }
    &&& match b.action {
        Some(a) => a.directive < n_dirs,
        None => true,
    }
    &&& match b.target {
        Some(t) => t < n_states,
        None => true,
    }
}

/// Whether a guard accepts one input event. The event is either one byte
/// or the absence of a byte; `last_chunk` answers the host query "is the
/// current chunk the final chunk of the stream"; `conds` holds the host
/// predicates' answers on the current byte, one per capability slot.
pub open spec fn guard_matches(g: Guard, byte: Option<u8>, last_chunk: bool, conds: Seq<bool>) -> bool {
    match g {
        Guard::Byte(b) => byte == Some(b),
        Guard::CaselessByte(b) => match byte {
            Some(v) => run_byte_matches(b, true, v),
            None => false,
        },
        Guard::Class(c) => match byte {
            Some(v) => class_matches(c, v),
            None => false,
        },
        Guard::Eoc => byte is None && !last_chunk,
        Guard::Eof => byte is None,
        Guard::Cond(k) => byte is Some && 0 <= k < conds.len() && conds[k as int],
        Guard::Any => true,
    }
}

impl Guard {
    /// Decides this guard on one input event.
    pub fn matches(&self, byte: Option<u8>, last_chunk: bool, conds: &Vec<bool>) -> (r: bool)
        ensures
            r == guard_matches(*self, byte, last_chunk, conds@),
    {
        match self {
            Guard::Byte(b) => match byte {
                Some(v) => v == *b,
                None => false,
            },
            Guard::CaselessByte(b) => match byte {
                Some(v) => v == *b || v == crate::pattern::flip_case(*b),
                None => false,
            },
            Guard::Class(c) => match byte {
                Some(v) => c.matches(v),
                None => false,
            },
            Guard::Eoc => byte.is_none() && !last_chunk,
            Guard::Eof => byte.is_none(),
            Guard::Cond(k) => match byte {
                Some(_) => *k < conds.len() && conds[*k],
                None => false,
            },
            Guard::Any => true,
        }
    }
}

/// The first branch, from position `i` on, whose guard accepts the event.
pub open spec fn first_match_from(
    branches: Seq<BranchView>,
    byte: Option<u8>,
    last_chunk: bool,
    conds: Seq<bool>,
    i: int,
) -> Option<int>
    decreases branches.len() - i,
{
    if i < 0 || i >= branches.len() {
        None
    } else if guard_matches(branches[i].guard, byte, last_chunk, conds) {
        Some(i)
    } else {
        first_match_from(branches, byte, last_chunk, conds, i + 1)
    }
}

/// The first branch whose guard accepts the event: declaration order is
/// the tie-break, earlier wins.
pub open spec fn first_match(
    branches: Seq<BranchView>,
    byte: Option<u8>,
    last_chunk: bool,
    conds: Seq<bool>,
) -> Option<int> {
    first_match_from(branches, byte, last_chunk, conds, 0)
}

/// The running position of one machine instance: the current state and the
/// just-entered flag that arms the entry prelude.
#[derive(Clone, Copy, Debug, PartialEq, Eq, Structural)]
pub struct Run {
    pub state: usize,
    pub entered: bool,
}

/// What one step reports back to the host: whether the entry prelude fired
/// (the host then performs the prelude action of the current state), and
/// which branch of the current state matched, if any (the host then
/// performs that branch's action).
#[derive(Clone, Copy, Debug, PartialEq, Eq, Structural)]
pub struct StepOutput {
    pub prelude_fired: bool,
    pub matched: Option<usize>,
}

/// The entry prelude fires exactly when the just-entered flag stands and
/// the current state has a prelude.
pub open spec fn spec_prelude_fires(m: MachineView, r: Run) -> bool {
    r.entered && 0 <= r.state < m.states.len() && m.states[r.state as int].prelude is Some
}

/// The position after one step: the matched branch's target with a fresh
/// just-entered flag, or the same state with the flag down when the branch
/// keeps the machine in place or nothing matched.
pub open spec fn spec_next_run(
    m: MachineView,
    r: Run,
    byte: Option<u8>,
    last_chunk: bool,
    conds: Seq<bool>,
) -> Run {
    match first_match(m.states[r.state as int].branches, byte, last_chunk, conds) {
        Some(k) => match m.states[r.state as int].branches[k].target {
            Some(t) => Run { state: t, entered: true },
            None => Run { state: r.state, entered: false },
        },
        None => Run { state: r.state, entered: false },
    }
}

impl Machine {
    /// The position a fresh instance starts in: the first declared state,
    /// just entered.
    pub fn start(&self) -> (r: Run)
        ensures
            r == (Run { state: 0, entered: true }),
    {
        Run { state: 0, entered: true }
    }

    /// Drives the machine by one input event. Fires the entry prelude
    /// first if it is armed, lowers the flag, then dispatches the event to
    /// the first branch of the current state whose guard accepts it, and
    /// follows that branch's transition, arming the flag of the entered
    /// state; without a transition the machine stays in place with the
    /// flag down.
    pub fn step(&self, r: &mut Run, byte: Option<u8>, last_chunk: bool, conds: &Vec<bool>) -> (out:
        StepOutput)
        requires
            machine_wf(self.deep_view()),
            old(r).state < self.states@.len(),
            conds@.len() == self.directives@.len(),
        ensures
            out.prelude_fired == spec_prelude_fires(self.deep_view(), *old(r)),
            *final(r) == spec_next_run(self.deep_view(), *old(r), byte, last_chunk, conds@),
            match out.matched {
                Some(k) => first_match(
                    self.deep_view().states[old(r).state as int].branches,
                    byte,
                    last_chunk,
                    conds@,
                ) == Some(k as int),
                None => first_match(
                    self.deep_view().states[old(r).state as int].branches,
                    byte,
                    last_chunk,
                    conds@,
                ) is None,
            },
            final(r).state < self.states@.len(),
    {
        let st = &self.states[r.state];
        proof {
            assert(self.deep_view().states[r.state as int] == self.states@[r.state as int].deep_view());
        }
        let fired = r.entered && st.prelude.is_some();
        r.entered = false;
        let ghost branches = self.deep_view().states[r.state as int].branches;
        let mut k: usize = 0;
        let mut matched: Option<usize> = None;
        while k < st.branches.len()
            invariant
                old(r).state < self.states@.len(),
                self.deep_view().states.len() == self.states@.len(),
                self.deep_view().states[old(r).state as int] == self.states@[old(r).state as int].deep_view(),
                fired == (old(r).entered && self.deep_view().states[old(r).state as int].prelude is Some),
                k <= st.branches@.len(),
                branches == st.branches.deep_view(),
                branches.len() == st.branches@.len(),
                forall|l: int| 0 <= l < branches.len() ==> #[trigger] branches[l] == st.branches@[l].deep_view(),
                conds@.len() == self.directives@.len(),
                state_wf(
                    self.deep_view().states[old(r).state as int],
                    self.states@.len() as int,
                    self.directives@.len() as int,
                ),
                self.deep_view().states[old(r).state as int].branches == branches,
                first_match_from(branches, byte, last_chunk, conds@, 0) == first_match_from(
                    branches,
                    byte,
                    last_chunk,
                    conds@,
                    k as int,
                ),
                matched is None,
                r.state == old(r).state,
                r.entered == false,
            decreases st.branches@.len() - k,
        {
            if st.branches[k].guard.matches(byte, last_chunk, conds) {
                proof {
                    assert(branches[k as int] == st.branches@[k as int].deep_view());
                    assert(branch_wf(
                        branches[k as int],
                        self.states@.len() as int,
                        self.directives@.len() as int,
                    ));
                    assert(first_match_from(branches, byte, last_chunk, conds@, k as int) == Some(
                        k as int,
                    ));
                }
                matched = Some(k);
                let b = &st.branches[k];
                match &b.target {
                    Some(t) => {
                        r.state = *t;
                        r.entered = true;
                    },
                    None => {},
                }
                return StepOutput { prelude_fired: fired, matched };
            }
            k = k + 1;
        }
        StepOutput { prelude_fired: fired, matched: None }
    }
}

/// End-of-input disambiguation: an `Eoc` guard accepts only the absence of
/// a byte while more chunks are pending, never when the current chunk is
/// the final one; an `Eof` guard accepts only the absence of a byte; no
/// byte event satisfies either.
pub proof fn lemma_end_of_input_disambiguation(byte: Option<u8>, last_chunk: bool, conds: Seq<bool>)
    ensures
        guard_matches(Guard::Eoc, byte, last_chunk, conds) <==> byte is None && !last_chunk,
        guard_matches(Guard::Eof, byte, last_chunk, conds) <==> byte is None,
        last_chunk ==> !guard_matches(Guard::Eoc, byte, last_chunk, conds),
        byte is Some ==> !guard_matches(Guard::Eoc, byte, last_chunk, conds) && !guard_matches(
            Guard::Eof,
            byte,
            last_chunk,
            conds,
        ),
{
}

/// The selected branch accepts the event and every branch declared before
/// it rejects it; when none is selected, every branch rejects the event.
pub proof fn lemma_first_match_characterization(
    branches: Seq<BranchView>,
    byte: Option<u8>,
    last_chunk: bool,
    conds: Seq<bool>,
    i: int,
)
    requires
        0 <= i <= branches.len(),
    ensures
        match first_match_from(branches, byte, last_chunk, conds, i) {
            Some(k) => i <= k < branches.len() && guard_matches(branches[k].guard, byte, last_chunk, conds)
                && forall|l: int|
                    i <= l < k ==> !guard_matches(#[trigger] branches[l].guard, byte, last_chunk, conds),
            None => forall|l: int|
                i <= l < branches.len() ==> !guard_matches(
                    #[trigger] branches[l].guard,
                    byte,
                    last_chunk,
                    conds,
                ),
        },
    decreases branches.len() - i,
{
    if i < branches.len() && !guard_matches(branches[i].guard, byte, last_chunk, conds) {
        lemma_first_match_characterization(branches, byte, last_chunk, conds, i + 1);
    }
}

/// First declared wins: wherever two branches both accept the event, the
/// dispatch never selects the later one; it selects it or an even earlier
/// branch.
pub proof fn lemma_earlier_arm_wins(
    branches: Seq<BranchView>,
    byte: Option<u8>,
    last_chunk: bool,
    conds: Seq<bool>,
    i: int,
    j: int,
)
    requires
        0 <= i < j < branches.len(),
        guard_matches(branches[i].guard, byte, last_chunk, conds),
    ensures
        match first_match(branches, byte, last_chunk, conds) {
            Some(k) => k <= i,
            None => false,
        },
{
    lemma_first_match_characterization(branches, byte, last_chunk, conds, 0);
}

/// The entry prelude fires exactly once per activation, before that
/// activation's first dispatch: it fires only while the flag raised by the
/// transition into the state still stands, every step lowers the flag, and
/// only a new transition (a new activation) raises it again.
pub proof fn lemma_state_enter_once(
    m: MachineView,
    r: Run,
    byte: Option<u8>,
    last_chunk: bool,
    conds: Seq<bool>,
)
    requires
        0 <= r.state < m.states.len(),
    ensures
        spec_prelude_fires(m, r) ==> r.entered,
        !spec_next_run(m, r, byte, last_chunk, conds).entered ==> !spec_prelude_fires(
            m,
            spec_next_run(m, r, byte, last_chunk, conds),
        ),
        spec_next_run(m, r, byte, last_chunk, conds).entered ==> match first_match(
            m.states[r.state as int].branches,
            byte,
            last_chunk,
            conds,
        ) {
            Some(k) => m.states[r.state as int].branches[k].target is Some,
            None => false,
        },
{
}

} // verus!
