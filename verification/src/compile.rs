use vstd::prelude::*;

use crate::grammar::{
    arm_in_range, arm_valid, bytes_clone, error_cause, find_directive, find_state, grammar_valid,
    lemma_find_directive_from, lemma_find_state_from, ActionRef, ActionRefView, Arm, ArmView,
    CompileError, Directive, DirectiveView, Grammar, GrammarView, State, StateView,
};
use crate::machine::{
    branch_wf, machine_wf, state_wf, ActionCall, ActionCallView, Branch, BranchView, Guard,
    Machine, MachineState, MachineStateView, MachineView,
};
use crate::pattern::{is_alpha, is_ascii_alpha, Pattern, PatternView};

verus! {

/// The first state of the view with the given name, searching from `i`.
pub open spec fn find_state_v_from(states: Seq<StateView>, name: Seq<u8>, i: int) -> Option<int>
    decreases states.len() - i,
{
    if i < 0 || i >= states.len() {
        None
    } else if states[i].name == name {
        Some(i)
    } else {
        find_state_v_from(states, name, i + 1)
    }
}

pub open spec fn find_state_v(states: Seq<StateView>, name: Seq<u8>) -> Option<int> {
    find_state_v_from(states, name, 0)
}

/// The first directive of the view with the given name, searching from `i`.
pub open spec fn find_directive_v_from(dirs: Seq<DirectiveView>, name: Seq<u8>, i: int) -> Option<
    int,
>
    decreases dirs.len() - i,
{
    if i < 0 || i >= dirs.len() {
        None
    } else if dirs[i].name == name {
        Some(i)
    } else {
        find_directive_v_from(dirs, name, i + 1)
    }
}

pub open spec fn find_directive_v(dirs: Seq<DirectiveView>, name: Seq<u8>) -> Option<int> {
    find_directive_v_from(dirs, name, 0)
}

/// Looking a state up in a grammar and in its view agree.
pub proof fn lemma_find_state_bridge(states: Seq<State>, sv: Seq<StateView>, name: Seq<u8>, i: int)
    requires
        sv.len() == states.len(),
        forall|k: int| 0 <= k < states.len() ==> #[trigger] sv[k] == states[k].deep_view(),
    ensures
        find_state_v_from(sv, name, i) == find_state_from(states, name, i),
    decreases states.len() - i,
{
    if 0 <= i < states.len() {
        lemma_find_state_bridge(states, sv, name, i + 1);
    }
}

/// Looking a directive up in a grammar and in its view agree.
pub proof fn lemma_find_directive_bridge(
    dirs: Seq<Directive>,
    dv: Seq<DirectiveView>,
    name: Seq<u8>,
    i: int,
)
    requires
        dv.len() == dirs.len(),
        forall|k: int| 0 <= k < dirs.len() ==> #[trigger] dv[k] == dirs[k].deep_view(),
    ensures
        find_directive_v_from(dv, name, i) == find_directive_from(dirs, name, i),
    decreases dirs.len() - i,
{
    if 0 <= i < dirs.len() {
        lemma_find_directive_bridge(dirs, dv, name, i + 1);
    }
}

use crate::grammar::{find_directive_from, find_state_from};

/// The capability slot of a named directive.
pub open spec fn dir_slot(dirs: Seq<DirectiveView>, name: Seq<u8>) -> usize {
    match find_directive_v(dirs, name) {
        Some(k) => k as usize,
        None => 0,
    }
}

/// The compiled invocation of an optional action reference.
pub open spec fn view_call(a: Option<ActionRefView>, dirs: Seq<DirectiveView>) -> Option<
    ActionCallView,
> {
    match a {
        Some(ar) => Some(ActionCallView { directive: dir_slot(dirs, ar.directive), args: ar.args }),
        None => None,
    }
}

/// The compiled target of an optional transition; absence means "remain in
/// the current state". A name that resolves nowhere falls back to the
/// first identifier only formally: validation rejects such a grammar
/// before anything is assembled.
pub open spec fn view_target(t: Option<Seq<u8>>, states: Seq<StateView>) -> Option<usize> {
    match t {
        Some(n) => match find_state_v(states, n) {
            Some(k) => Some(k as usize),
            None => Some(0),
        },
        None => None,
    }
}

/// The guard of one position of a literal run: the exact byte, or either
/// case variant of an alphabetic byte when the run is case-folded.
pub open spec fn run_guard(b: u8, ignore_case: bool) -> Guard {
    if ignore_case && is_ascii_alpha(b) {
        Guard::CaselessByte(b)
    } else {
        Guard::Byte(b)
    }
}

/// The guard of a single-event pattern. Literal runs and the entry
/// pseudo-pattern never reach a single guard; they fall to the wildcard
/// here only formally.
pub open spec fn single_guard(p: PatternView, dirs: Seq<DirectiveView>) -> Guard {
    match p {
        PatternView::Byte(b) => Guard::Byte(b),
        PatternView::Class(c) => Guard::Class(c),
        PatternView::InputState(s) => match s {
            crate::pattern::InputStatePattern::Eoc => Guard::Eoc,
            crate::pattern::InputStatePattern::Eof => Guard::Eof,
        },
        PatternView::Condition(n) => Guard::Cond(dir_slot(dirs, n)),
        _ => Guard::Any,
    }
}

/// How many implicit states one arm asks the expander for: one per
/// position of a literal run after the first.
pub open spec fn arm_extra(a: ArmView) -> nat {
    match a.pattern {
        PatternView::Sequence(bytes, _) => if bytes.len() >= 2 {
            (bytes.len() - 1) as nat
        } else {
            0
        },
        _ => 0,
    }
}

/// Implicit states asked for by the first `j` arms of a state.
pub open spec fn arms_extra_upto(arms: Seq<ArmView>, j: int) -> nat
    decreases j,
{
    if j <= 0 {
        0
    } else {
        arms_extra_upto(arms, j - 1) + arm_extra(arms[j - 1])
    }
}

/// Implicit states asked for by the first `i` states of a grammar.
pub open spec fn states_extra_upto(states: Seq<StateView>, i: int) -> nat
    decreases i,
{
    if i <= 0 {
        0
    } else {
        states_extra_upto(states, i - 1) + arms_extra_upto(
            states[i - 1].arms,
            states[i - 1].arms.len() as int,
        )
    }
}

/// The identifier of the first implicit state of the chain belonging to
/// arm `j` of state `i`: implicit states stand after all declared states,
/// in declaration order of their owning arms.
pub open spec fn chain_base(g: GrammarView, i: int, j: int) -> int {
    g.states.len() + states_extra_upto(g.states, i) + arms_extra_upto(g.states[i].arms, j) as int
}

/// The total size of the identifier space.
pub open spec fn total_states(g: GrammarView) -> int {
    g.states.len() + states_extra_upto(g.states, g.states.len() as int) as int
}

pub open spec fn arm_call(g: GrammarView, a: ArmView) -> Option<ActionCallView> {
    view_call(a.action, g.directives)
}

pub open spec fn arm_target(g: GrammarView, a: ArmView) -> Option<usize> {
    view_target(a.transition, g.states)
}

/// The branches arm `j` of state `i` contributes to its own state's
/// dispatch: none for the entry pseudo-pattern (it becomes the prelude)
/// and for an empty literal run (no byte can ever be observed against it),
/// the head of the chain for a longer run, and one plain branch otherwise.
pub open spec fn owner_branches(g: GrammarView, i: int, j: int) -> Seq<BranchView> {
    let a = g.states[i].arms[j];
    match a.pattern {
        PatternView::StateEnter => Seq::empty(),
        PatternView::Sequence(bytes, ic) => if bytes.len() == 0 {
            Seq::empty()
        } else if bytes.len() == 1 {
            seq![
                BranchView {
                    guard: run_guard(bytes[0], ic),
                    action: arm_call(g, a),
                    target: arm_target(g, a),
                },
            ]
        } else {
            seq![
                BranchView {
                    guard: run_guard(bytes[0], ic),
                    action: None,
                    target: Some(chain_base(g, i, j) as usize),
                },
            ]
        },
        _ => seq![
            BranchView {
                guard: single_guard(a.pattern, g.directives),
                action: arm_call(g, a),
                target: arm_target(g, a),
            },
        ],
    }
}

/// The dispatch of state `i` assembled from its first `j` arms, in
/// declaration order.
pub open spec fn state_branches_upto(g: GrammarView, i: int, j: int) -> Seq<BranchView>
    decreases j,
{
    if j <= 0 {
        Seq::empty()
    } else {
        state_branches_upto(g, i, j - 1) + owner_branches(g, i, j - 1)
    }
}

/// The first entry arm among the first `j` arms, if any.
pub open spec fn first_enter_upto(arms: Seq<ArmView>, j: int) -> Option<int>
    decreases j,
{
    if j <= 0 {
        None
    } else {
        match first_enter_upto(arms, j - 1) {
            Some(k) => Some(k),
            None => if arms[j - 1].pattern is StateEnter {
                Some(j - 1)
            } else {
                None
            },
        }
    }
}

/// The prelude of state `i`: the action of its first entry arm.
pub open spec fn state_prelude(g: GrammarView, i: int) -> Option<ActionCallView> {
    match first_enter_upto(g.states[i].arms, g.states[i].arms.len() as int) {
        Some(k) => arm_call(g, g.states[i].arms[k]),
        None => None,
    }
}

/// The compiled form of declared state `i`.
pub open spec fn user_state_view(g: GrammarView, i: int) -> MachineStateView {
    MachineStateView {
        prelude: state_prelude(g, i),
        branches: state_branches_upto(g, i, g.states[i].arms.len() as int),
    }
}

/// The implicit state holding position `p` of the literal run of arm `j`
/// of state `i`: a single branch that advances the chain, or applies the
/// arm's declared effects at the last position.
pub open spec fn implicit_state(g: GrammarView, i: int, j: int, p: int) -> MachineStateView {
    let a = g.states[i].arms[j];
    match a.pattern {
        PatternView::Sequence(bytes, ic) => MachineStateView {
            prelude: None,
            branches: seq![
                if p == bytes.len() - 1 {
                    BranchView {
                        guard: run_guard(bytes[p], ic),
                        action: arm_call(g, a),
                        target: arm_target(g, a),
                    }
                } else {
                    BranchView {
                        guard: run_guard(bytes[p], ic),
                        action: None,
                        target: Some((chain_base(g, i, j) + p) as usize),
                    }
                },
            ],
        },
        _ => MachineStateView { prelude: None, branches: Seq::empty() },
    }
}

/// The chain of implicit states of arm `j` of state `i`, positions one
/// onward.
pub open spec fn arm_implicits(g: GrammarView, i: int, j: int) -> Seq<MachineStateView> {
    Seq::new(arm_extra(g.states[i].arms[j]), |q: int| implicit_state(g, i, j, q + 1))
}

/// The implicit states of the first `j` arms of state `i`, in order.
pub open spec fn arms_implicits_upto(g: GrammarView, i: int, j: int) -> Seq<MachineStateView>
    decreases j,
{
    if j <= 0 {
        Seq::empty()
    } else {
        arms_implicits_upto(g, i, j - 1) + arm_implicits(g, i, j - 1)
    }
}

/// The implicit states of the first `i` states, in order.
pub open spec fn states_implicits_upto(g: GrammarView, i: int) -> Seq<MachineStateView>
    decreases i,
{
    if i <= 0 {
        Seq::empty()
    } else {
        states_implicits_upto(g, i - 1) + arms_implicits_upto(
            g,
            i - 1,
            g.states[i - 1].arms.len() as int,
        )
    }
}

/// The whole generated artifact, as a function of the grammar alone:
/// compiling equal grammars gives equal machines.
pub open spec fn spec_assemble(g: GrammarView) -> MachineView {
    MachineView {
        user_names: Seq::new(g.states.len(), |i: int| g.states[i].name),
        states: Seq::new(g.states.len(), |i: int| user_state_view(g, i)) + states_implicits_upto(
            g,
            g.states.len() as int,
        ),
        directives: g.directives,
    }
}

/// As many implicit states stand in the chain table of a prefix of arms as
/// the prefix asked for.
pub proof fn lemma_arms_implicits_len(g: GrammarView, i: int, j: int)
    ensures
        arms_implicits_upto(g, i, j).len() == arms_extra_upto(g.states[i].arms, j),
    decreases j,
{
    if j > 0 {
        lemma_arms_implicits_len(g, i, j - 1);
    }
}

/// As many implicit states stand in the table of a prefix of states as the
/// prefix asked for.
pub proof fn lemma_states_implicits_len(g: GrammarView, i: int)
    ensures
        states_implicits_upto(g, i).len() == states_extra_upto(g.states, i),
    decreases i,
{
    if i > 0 {
        lemma_states_implicits_len(g, i - 1);
        lemma_arms_implicits_len(g, i - 1, g.states[i - 1].arms.len() as int);
    }
}

/// Prefix sums of implicit-state counts grow monotonically.
pub proof fn lemma_arms_extra_mono(arms: Seq<ArmView>, j1: int, j2: int)
    requires
        j1 <= j2,
    ensures
        arms_extra_upto(arms, j1) <= arms_extra_upto(arms, j2),
    decreases j2 - j1,
{
    if j1 < j2 {
        lemma_arms_extra_mono(arms, j1, j2 - 1);
    }
}

pub proof fn lemma_states_extra_mono(states: Seq<StateView>, i1: int, i2: int)
    requires
        i1 <= i2,
    ensures
        states_extra_upto(states, i1) <= states_extra_upto(states, i2),
    decreases i2 - i1,
{
    if i1 < i2 {
        lemma_states_extra_mono(states, i1, i2 - 1);
    }
}

/// The prelude assembled from the first `j` arms of state `i`.
pub open spec fn state_prelude_upto(g: GrammarView, i: int, j: int) -> Option<ActionCallView> {
    match first_enter_upto(g.states[i].arms, j) {
        Some(k) => arm_call(g, g.states[i].arms[k]),
        None => None,
    }
}

/// Every chain position of every arm stays inside the identifier space.
pub proof fn lemma_chain_in_space(g: GrammarView, i: int, j: int)
    requires
        0 <= i < g.states.len(),
        0 <= j < g.states[i].arms.len(),
    ensures
        chain_base(g, i, j) + arm_extra(g.states[i].arms[j]) <= total_states(g),
{
    lemma_arms_extra_mono(g.states[i].arms, j + 1, g.states[i].arms.len() as int);
    assert(states_extra_upto(g.states, i + 1) == states_extra_upto(g.states, i) + arms_extra_upto(
        g.states[i].arms,
        g.states[i].arms.len() as int,
    ));
    lemma_states_extra_mono(g.states, i + 1, g.states.len() as int);
}

/// Within one state's chain table, the implicit states of arm `j` stand
/// right after those of the arms declared before it.
proof fn lemma_arms_implicits_index(g: GrammarView, i: int, j: int, jj: int, q: int)
    requires
        0 <= j < jj,
        0 <= q < arm_implicits(g, i, j).len(),
    ensures
        arms_implicits_upto(g, i, jj).len() > arms_extra_upto(g.states[i].arms, j) + q,
        arms_implicits_upto(g, i, jj)[arms_extra_upto(g.states[i].arms, j) as int + q]
            == arm_implicits(g, i, j)[q],
    decreases jj,
{
    lemma_arms_implicits_len(g, i, j);
    lemma_arms_implicits_len(g, i, jj);
    if jj == j + 1 {
    } else {
        lemma_arms_implicits_index(g, i, j, jj - 1, q);
        lemma_arms_implicits_len(g, i, jj - 1);
    }
}

/// In the whole chain table, the implicit states of state `i` stand right
/// after those of the states declared before it.
proof fn lemma_states_implicits_index(g: GrammarView, i: int, ii: int, off: int)
    requires
        0 <= i < ii,
        0 <= off < arms_implicits_upto(g, i, g.states[i].arms.len() as int).len(),
    ensures
        states_implicits_upto(g, ii).len() > states_extra_upto(g.states, i) + off,
        states_implicits_upto(g, ii)[states_extra_upto(g.states, i) as int + off]
            == arms_implicits_upto(g, i, g.states[i].arms.len() as int)[off],
    decreases ii,
{
    lemma_states_implicits_len(g, i);
    lemma_states_implicits_len(g, ii);
    if ii == i + 1 {
    } else {
        lemma_states_implicits_index(g, i, ii - 1, off);
        lemma_states_implicits_len(g, ii - 1);
    }
}

/// The expander's output, read off the finished artifact: position `p` of
/// a multi-byte literal run on arm `j` of state `i` stands as the implicit
/// state with identifier `chain_base + p - 1`, past every declared state;
/// it guards exactly that position of the run and advances the chain, or
/// applies the arm's declared effects at the last position, as
/// `implicit_state` spells out.
pub proof fn lemma_expanded_chain(g: GrammarView, i: int, j: int, p: int)
    requires
        0 <= i < g.states.len(),
        0 <= j < g.states[i].arms.len(),
        1 <= p <= arm_extra(g.states[i].arms[j]),
    ensures
        g.states.len() <= chain_base(g, i, j) + p - 1 < total_states(g),
        spec_assemble(g).states.len() == total_states(g),
        spec_assemble(g).states[chain_base(g, i, j) + p - 1] == implicit_state(g, i, j, p),
{
    let arms = g.states[i].arms;
    let n = g.states.len() as int;
    lemma_chain_in_space(g, i, j);
    lemma_states_implicits_len(g, n);
    lemma_arms_extra_mono(arms, j + 1, arms.len() as int);
    lemma_arms_implicits_index(g, i, j, arms.len() as int, p - 1);
    lemma_arms_implicits_len(g, i, arms.len() as int);
    lemma_states_implicits_index(
        g,
        i,
        n,
        arms_extra_upto(arms, j) as int + p - 1,
    );
    lemma_states_extra_mono(g.states, i + 1, n);
}

/// How the machine behaves inside an expanded literal run. Standing in
/// the implicit state of position `p`, a byte matching that position
/// advances to the next chain state, or, at the last position, applies
/// the arm's declared transition; any other event leaves the machine in
/// place without a transition — a failed in-flight run is abandoned, and
/// the bytes already consumed are never rewound.
pub proof fn lemma_chain_step(
    g: GrammarView,
    i: int,
    j: int,
    p: int,
    r: crate::machine::Run,
    v: Option<u8>,
    last_chunk: bool,
    conds: Seq<bool>,
)
    requires
        0 <= i < g.states.len(),
        0 <= j < g.states[i].arms.len(),
        1 <= p <= arm_extra(g.states[i].arms[j]),
        total_states(g) <= usize::MAX as int,
        r.state == chain_base(g, i, j) + p - 1,
    ensures
        ({
            let m = spec_assemble(g);
            let next = crate::machine::spec_next_run(m, r, v, last_chunk, conds);
            let a = g.states[i].arms[j];
            match a.pattern {
                PatternView::Sequence(bytes, ic) => match v {
                    Some(b) => if crate::pattern::run_byte_matches(bytes[p], ic, b) {
                        if p < arm_extra(a) {
                            next == (crate::machine::Run {
                                state: (r.state + 1) as usize,
                                entered: true,
                            })
                        } else {
                            match arm_target(g, a) {
                                Some(t) => next == (crate::machine::Run {
                                    state: t,
                                    entered: true,
                                }),
                                None => next == (crate::machine::Run {
                                    state: r.state,
                                    entered: false,
                                }),
                            }
                        }
                    } else {
                        next == (crate::machine::Run { state: r.state, entered: false })
                    },
                    None => next == (crate::machine::Run { state: r.state, entered: false }),
                },
                _ => true,
            }
        }),
{
    lemma_expanded_chain(g, i, j, p);
    let m = spec_assemble(g);
    let st = m.states[r.state as int];
    assert(st == implicit_state(g, i, j, p));
    let a = g.states[i].arms[j];
    if let PatternView::Sequence(bytes, ic) = a.pattern {
        assert(st.branches.len() == 1);
        let bv = st.branches[0];
        assert(bv.guard == run_guard(bytes[p], ic));
        match v {
            Some(b) => {
                lemma_case_folded_run_guard(bytes[p], ic, b, last_chunk, conds);
                if crate::pattern::run_byte_matches(bytes[p], ic, b) {
                    assert(crate::machine::first_match(st.branches, v, last_chunk, conds)
                        == Some(0int));
                    if p < arm_extra(a) {
                        assert(bv.target == Some((chain_base(g, i, j) + p) as usize));
                        assert(chain_base(g, i, j) + p == r.state + 1);
                    }
                } else {
                    assert(crate::machine::first_match_from(st.branches, v, last_chunk, conds, 1)
                        is None);
                    assert(crate::machine::first_match(st.branches, v, last_chunk, conds)
                        is None);
                }
            },
            None => {
                assert(!crate::machine::guard_matches(bv.guard, v, last_chunk, conds));
                assert(crate::machine::first_match_from(st.branches, v, last_chunk, conds, 1)
                    is None);
                assert(crate::machine::first_match(st.branches, v, last_chunk, conds) is None);
            },
        }
    }
}

/// Case-folded matching of one literal-run position: the compiled guard
/// accepts exactly the position's byte and, for an alphabetic byte of a
/// case-folded run, exactly its other case variant as well; nothing else.
pub proof fn lemma_case_folded_run_guard(
    b: u8,
    ignore_case: bool,
    v: u8,
    last_chunk: bool,
    conds: Seq<bool>,
)
    ensures
        crate::machine::guard_matches(run_guard(b, ignore_case), Some(v), last_chunk, conds)
            <==> crate::pattern::run_byte_matches(b, ignore_case, v),
        is_ascii_alpha(b) ==> (crate::pattern::run_byte_matches(b, true, v) <==> v == b || v
            == crate::pattern::case_flipped(b)),
        !crate::machine::guard_matches(
            run_guard(b, ignore_case),
            None,
            last_chunk,
            conds,
        ),
{
}

/// Compiling one grammar is a pure function of the grammar's content:
/// two grammars with the same content compile to the same artifact, in
/// this process or any other.
pub proof fn lemma_compile_deterministic(g1: Grammar, g2: Grammar)
    requires
        g1.deep_view() == g2.deep_view(),
    ensures
        spec_assemble(g1.deep_view()) == spec_assemble(g2.deep_view()),
{
}

/// Copies a list of argument bindings.
fn args_clone(v: &Vec<Vec<u8>>) -> (r: Vec<Vec<u8>>)
    ensures
        r.deep_view() == v.deep_view(),
{
    let mut out: Vec<Vec<u8>> = Vec::new();
    let mut i: usize = 0;
    while i < v.len()
        invariant
            i <= v@.len(),
            out@.len() == i,
            forall|k: int| 0 <= k < i ==> #[trigger] out@[k]@ == v@[k]@,
        decreases v@.len() - i,
    {
        out.push(bytes_clone(&v[i]));
        i = i + 1;
    }
    proof {
        assert forall|k: int| 0 <= k < v@.len() implies out.deep_view()[k] == v.deep_view()[k] by {
            assert(out@[k].deep_view() =~= out@[k]@);
            assert(v@[k].deep_view() =~= v@[k]@);
        }
        assert(out.deep_view() =~= v.deep_view());
    }
    out
}

/// Copies the directive table into the artifact's capability surface.
fn directives_clone(v: &Vec<Directive>) -> (r: Vec<Directive>)
    ensures
        r.deep_view() == v.deep_view(),
{
    let mut out: Vec<Directive> = Vec::new();
    let mut i: usize = 0;
    while i < v.len()
        invariant
            i <= v@.len(),
            out@.len() == i,
            forall|k: int| 0 <= k < i ==> #[trigger] out@[k].deep_view() == v@[k].deep_view(),
        decreases v@.len() - i,
    {
        out.push(Directive { name: bytes_clone(&v[i].name), arity: v[i].arity });
        i = i + 1;
    }
    proof {
        assert(out.deep_view() =~= v.deep_view());
    }
    out
}

/// Compiles an optional action reference into its capability invocation.
fn make_call(g: &Grammar, a: &Option<ActionRef>) -> (r: Option<ActionCall>)
    requires
        match a {
            Some(ar) => find_directive(g.directives@, ar.directive@) is Some,
            None => true,
        },
    ensures
        r.deep_view() == view_call(a.deep_view(), g.deep_view().directives),
        match r {
            Some(c) => c.directive < g.directives@.len(),
            None => true,
        },
{
    match a {
        None => None,
        Some(ar) => {
            let d: usize = match g.find_directive(ar.directive.as_slice()) {
                Some(d) => d,
                None => {
                    proof {
                        assert(false);
                    }
                    0
                },
            };
            proof {
                lemma_find_directive_from(g.directives@, ar.directive@, 0);
                lemma_find_directive_bridge(
                    g.directives@,
                    g.deep_view().directives,
                    ar.directive@,
                    0,
                );
            }
            Some(ActionCall { directive: d, args: args_clone(&ar.args) })
        },
    }
}

/// Compiles an optional transition into its target identifier.
fn make_target(g: &Grammar, t: &Option<Vec<u8>>) -> (r: Option<usize>)
    requires
        match t {
            Some(n) => find_state(g.states@, n@) is Some,
            None => true,
        },
    ensures
        r == view_target(t.deep_view(), g.deep_view().states),
        match r {
            Some(k) => k < g.states@.len(),
            None => true,
        },
{
    match t {
        None => None,
        Some(n) => {
            let k: usize = match g.find_state(n.as_slice()) {
                Some(k) => k,
                None => {
                    proof {
                        assert(false);
                    }
                    0
                },
            };
            proof {
                lemma_find_state_from(g.states@, n@, 0);
                lemma_find_state_bridge(g.states@, g.deep_view().states, n@, 0);
                assert(n.deep_view() =~= n@);
            }
            Some(k)
        },
    }
}

/// Compiles a single-event pattern into its guard.
fn make_single_guard(g: &Grammar, p: &Pattern) -> (r: Guard)
    requires
        match p {
            Pattern::Condition(n) => find_directive(g.directives@, n@) is Some,
            _ => true,
        },
    ensures
        r == single_guard(p.deep_view(), g.deep_view().directives),
        match r {
            Guard::Cond(c) => c < g.directives@.len(),
            _ => true,
        },
{
    match p {
        Pattern::Byte(b) => Guard::Byte(*b),
        Pattern::Class(c) => Guard::Class(*c),
        Pattern::InputState(s) => match s {
            crate::pattern::InputStatePattern::Eoc => Guard::Eoc,
            crate::pattern::InputStatePattern::Eof => Guard::Eof,
        },
        Pattern::Condition(n) => {
            let d: usize = match g.find_directive(n.as_slice()) {
                Some(d) => d,
                None => {
                    proof {
                        assert(false);
                    }
                    0
                },
            };
            proof {
                lemma_find_directive_from(g.directives@, n@, 0);
                lemma_find_directive_bridge(g.directives@, g.deep_view().directives, n@, 0);
            }
            Guard::Cond(d)
        },
        _ => Guard::Any,
    }
}

/// Compiles one position of a literal run into its guard.
fn make_run_guard(b: u8, ignore_case: bool) -> (r: Guard)
    ensures
        r == run_guard(b, ignore_case),
{
    if ignore_case && is_alpha(b) {
        Guard::CaselessByte(b)
    } else {
        Guard::Byte(b)
    }
}

/// Appends one branch, extending the dispatch view by its view.
fn push_branch(v: &mut Vec<Branch>, b: Branch)
    ensures
        final(v).deep_view() == old(v).deep_view().push(b.deep_view()),
{
    let ghost prev = v.deep_view();
    let ghost bv = b.deep_view();
    v.push(b);
    proof {
        assert forall|k: int| 0 <= k < prev.len() implies v.deep_view()[k] == prev[k] by {
        }
        assert(v.deep_view() =~= prev.push(bv));
    }
}

/// Appends one compiled state, extending the table view by its view.
fn push_mstate(v: &mut Vec<MachineState>, s: MachineState)
    ensures
        final(v).deep_view() == old(v).deep_view().push(s.deep_view()),
{
    let ghost prev = v.deep_view();
    let ghost sv = s.deep_view();
    v.push(s);
    proof {
        assert forall|k: int| 0 <= k < prev.len() implies v.deep_view()[k] == prev[k] by {
        }
        assert(v.deep_view() =~= prev.push(sv));
    }
}

/// Appends one state name, extending the name table view by its bytes.
fn push_name(v: &mut Vec<Vec<u8>>, n: Vec<u8>)
    ensures
        final(v).deep_view() == old(v).deep_view().push(n@),
{
    let ghost prev = v.deep_view();
    let ghost nv = n@;
    v.push(n);
    proof {
        assert forall|k: int| 0 <= k < prev.len() implies v.deep_view()[k] == prev[k] by {
        }
        assert(v.deep_view()[prev.len() as int] =~= nv);
        assert(v.deep_view() =~= prev.push(nv));
    }
}

/// Wraps one branch as a whole implicit state.
fn chain_state(b: Branch) -> (r: MachineState)
    ensures
        r.deep_view() == (MachineStateView {
            prelude: None,
            branches: seq![b.deep_view()],
        }),
{
    let ghost bv = b.deep_view();
    let mut branches: Vec<Branch> = Vec::new();
    push_branch(&mut branches, b);
    proof {
        assert(branches.deep_view() =~= seq![bv]);
    }
    MachineState { prelude: None, branches }
}

impl Grammar {
    /// Compiles the whole grammar: validates every cross-reference, then
    /// assembles the artifact in one pure pass. A valid grammar, and only
    /// a valid grammar, yields a machine; the machine is a function of the
    /// grammar alone, so compiling an identical grammar again yields an
    /// identical artifact. An invalid grammar yields the diagnostic of a
    /// fault that is really present, and no artifact at all.
    pub fn compile(&self) -> (r: Result<Machine, CompileError>)
        requires
            total_states(self.deep_view()) <= usize::MAX as int,
        ensures
            r is Ok <==> grammar_valid(*self),
            r matches Err(e) ==> error_cause(*self, e),
            r matches Ok(m) ==> m.deep_view() == spec_assemble(self.deep_view()) && machine_wf(
                m.deep_view(),
            ) && m.user_names@.len() == self.states@.len() && m.states@.len() == total_states(
                self.deep_view(),
            ) && m.directives@.len() == self.directives@.len(),
    {
        if let Err(e) = self.validate() {
            return Err(e);
        }
        let ghost gv = self.deep_view();
        let ghost nd = gv.directives.len() as int;
        let n = self.states.len();
        let mut names: Vec<Vec<u8>> = Vec::new();
        let mut user: Vec<MachineState> = Vec::new();
        let mut extra: Vec<MachineState> = Vec::new();
        let mut i: usize = 0;
        while i < n
            invariant
                grammar_valid(*self),
                gv == self.deep_view(),
                nd == gv.directives.len() as int,
                total_states(gv) <= usize::MAX as int,
                n == self.states@.len(),
                n == gv.states.len(),
                i <= n,
                names.deep_view() == Seq::new(i as nat, |k: int| gv.states[k].name),
                user.deep_view() == Seq::new(i as nat, |k: int| user_state_view(gv, k)),
                user@.len() == i,
                extra.deep_view() == states_implicits_upto(gv, i as int),
                extra@.len() == states_extra_upto(gv.states, i as int),
                forall|k: int|
                    0 <= k < user@.len() ==> state_wf(
                        #[trigger] user.deep_view()[k],
                        total_states(gv),
                        nd,
                    ),
                forall|k: int|
                    0 <= k < extra@.len() ==> state_wf(
                        #[trigger] extra.deep_view()[k],
                        total_states(gv),
                        nd,
                    ),
            decreases n - i,
        {
            proof {
                assert(gv.states[i as int] == self.states@[i as int].deep_view());
            }
            push_name(&mut names, bytes_clone(&self.states[i].name));
            proof {
                assert(names.deep_view() =~= Seq::new(
                    i as nat + 1,
                    |k: int| gv.states[k].name,
                ));
            }
            let m = self.states[i].arms.len();
            let mut branches: Vec<Branch> = Vec::new();
            let mut prelude: Option<ActionCall> = None;
            let mut enter_seen = false;
            let mut j: usize = 0;
            while j < m
                invariant
                    grammar_valid(*self),
                    gv == self.deep_view(),
                    nd == gv.directives.len() as int,
                    total_states(gv) <= usize::MAX as int,
                    n == self.states@.len(),
                    n == gv.states.len(),
                    i < n,
                    m == self.states@[i as int].arms@.len(),
                    m == gv.states[i as int].arms.len(),
                    j <= m,
                    gv.states[i as int] == self.states@[i as int].deep_view(),
                    branches.deep_view() == state_branches_upto(gv, i as int, j as int),
                    prelude.deep_view() == state_prelude_upto(gv, i as int, j as int),
                    enter_seen == (first_enter_upto(gv.states[i as int].arms, j as int) is Some),
                    extra.deep_view() == states_implicits_upto(gv, i as int)
                        + arms_implicits_upto(gv, i as int, j as int),
                    extra@.len() == states_extra_upto(gv.states, i as int) + arms_extra_upto(
                        gv.states[i as int].arms,
                        j as int,
                    ),
                    match prelude {
                        Some(c) => c.directive < self.directives@.len(),
                        None => true,
                    },
                    forall|k: int|
                        0 <= k < branches.deep_view().len() ==> branch_wf(
                            #[trigger] branches.deep_view()[k],
                            total_states(gv),
                            nd,
                        ),
                    forall|k: int|
                        0 <= k < extra@.len() ==> state_wf(
                            #[trigger] extra.deep_view()[k],
                            total_states(gv),
                            nd,
                        ),
                decreases m - j,
            {
                let arm = &self.states[i].arms[j];
                let ghost av = gv.states[i as int].arms[j as int];
                proof {
                    assert(arm_in_range(*self, i as int, j as int));
                    assert(arm_valid(*self, self.states@[i as int].arms@[j as int]));
                    assert(av == self.states@[i as int].arms@[j as int].deep_view());
                }
                match &arm.pattern {
                    Pattern::StateEnter => {
                        if !enter_seen {
                            enter_seen = true;
                            prelude = make_call(self, &arm.action);
                        }
                        proof {
                            assert(owner_branches(gv, i as int, j as int) =~= Seq::<
                                BranchView,
                            >::empty());
                            assert(branches.deep_view() =~= state_branches_upto(
                                gv,
                                i as int,
                                j as int + 1,
                            ));
                            assert(arm_implicits(gv, i as int, j as int) =~= Seq::<
                                MachineStateView,
                            >::empty());
                            assert(extra.deep_view() =~= states_implicits_upto(gv, i as int)
                                + arms_implicits_upto(gv, i as int, j as int + 1));
                        }
                    },
                    Pattern::Sequence(q) => {
                        let nb = q.bytes.len();
                        if nb == 0 {
                            proof {
                                assert(owner_branches(gv, i as int, j as int) =~= Seq::<
                                    BranchView,
                                >::empty());
                                assert(branches.deep_view() =~= state_branches_upto(
                                    gv,
                                    i as int,
                                    j as int + 1,
                                ));
                                assert(arm_implicits(gv, i as int, j as int) =~= Seq::<
                                    MachineStateView,
                                >::empty());
                                assert(extra.deep_view() =~= states_implicits_upto(gv, i as int)
                                    + arms_implicits_upto(gv, i as int, j as int + 1));
                            }
                        } else if nb == 1 {
                            let br = Branch {
                                guard: make_run_guard(q.bytes[0], q.ignore_case),
                                action: make_call(self, &arm.action),
                                target: make_target(self, &arm.transition),
                            };
                            push_branch(&mut branches, br);
                            proof {
                                assert(branches.deep_view() =~= state_branches_upto(
                                    gv,
                                    i as int,
                                    j as int + 1,
                                ));
                                assert(arm_implicits(gv, i as int, j as int) =~= Seq::<
                                    MachineStateView,
                                >::empty());
                                assert(extra.deep_view() =~= states_implicits_upto(gv, i as int)
                                    + arms_implicits_upto(gv, i as int, j as int + 1));
                            }
                        } else {
                            proof {
                                lemma_chain_in_space(gv, i as int, j as int);
                            }
                            let base = n + extra.len();
                            let br = Branch {
                                guard: make_run_guard(q.bytes[0], q.ignore_case),
                                action: None,
                                target: Some(base),
                            };
                            push_branch(&mut branches, br);
                            proof {
                                assert(base == chain_base(gv, i as int, j as int));
                                assert(branches.deep_view() =~= state_branches_upto(
                                    gv,
                                    i as int,
                                    j as int + 1,
                                ));
                            }
                            let ghost pre_extra = extra.deep_view();
                            let ghost base_len = extra@.len() as int;
                            let mut p: usize = 1;
                            while p < nb
                                invariant
                                    grammar_valid(*self),
                                    gv == self.deep_view(),
                                    nd == gv.directives.len() as int,
                                    total_states(gv) <= usize::MAX as int,
                                    n == self.states@.len(),
                                    n == gv.states.len(),
                                    i < n,
                                    m == gv.states[i as int].arms.len(),
                                    j < m,
                                    av == gv.states[i as int].arms[j as int],
                                    av == self.states@[i as int].arms@[j as int].deep_view(),
                                    arm_valid(*self, self.states@[i as int].arms@[j as int]),
                                    arm == self.states@[i as int].arms@[j as int],
                                    av.pattern == PatternView::Sequence(q.bytes@, q.ignore_case),
                                    nb == q.bytes@.len(),
                                    2 <= nb,
                                    1 <= p <= nb,
                                    arm_extra(av) == nb - 1,
                                    base_len == states_extra_upto(gv.states, i as int)
                                        + arms_extra_upto(gv.states[i as int].arms, j as int),
                                    base_len + nb - 1 + gv.states.len() <= total_states(gv),
                                    pre_extra == states_implicits_upto(gv, i as int)
                                        + arms_implicits_upto(gv, i as int, j as int),
                                    pre_extra.len() == base_len,
                                    extra@.len() == base_len + p - 1,
                                    extra.deep_view() == pre_extra + arm_implicits(
                                        gv,
                                        i as int,
                                        j as int,
                                    ).subrange(0, p - 1),
                                    forall|k: int|
                                        0 <= k < extra@.len() ==> state_wf(
                                            #[trigger] extra.deep_view()[k],
                                            total_states(gv),
                                            nd,
                                        ),
                                decreases nb - p,
                            {
                                let guard = make_run_guard(q.bytes[p], q.ignore_case);
                                let ms: MachineState;
                                if p == nb - 1 {
                                    ms = chain_state(Branch {
                                        guard,
                                        action: make_call(self, &arm.action),
                                        target: make_target(self, &arm.transition),
                                    });
                                } else {
                                    let idx = n + extra.len();
                                    ms = chain_state(Branch {
                                        guard,
                                        action: None,
                                        target: Some(idx + 1),
                                    });
                                    proof {
                                        assert(idx + 1 == chain_base(gv, i as int, j as int) + p);
                                    }
                                }
                                proof {
                                    assert(ms.deep_view() == implicit_state(
                                        gv,
                                        i as int,
                                        j as int,
                                        p as int,
                                    ));
                                }
                                push_mstate(&mut extra, ms);
                                proof {
                                    assert(extra.deep_view() =~= pre_extra + arm_implicits(
                                        gv,
                                        i as int,
                                        j as int,
                                    ).subrange(0, p as int));
                                }
                                p = p + 1;
                            }
                            proof {
                                assert(arm_implicits(gv, i as int, j as int).subrange(
                                    0,
                                    nb as int - 1,
                                ) =~= arm_implicits(gv, i as int, j as int));
                                assert(extra.deep_view() =~= states_implicits_upto(gv, i as int)
                                    + arms_implicits_upto(gv, i as int, j as int + 1));
                            }
                        }
                    },
                    _ => {
                        let br = Branch {
                            guard: make_single_guard(self, &arm.pattern),
                            action: make_call(self, &arm.action),
                            target: make_target(self, &arm.transition),
                        };
                        push_branch(&mut branches, br);
                        proof {
                            assert(branches.deep_view() =~= state_branches_upto(
                                gv,
                                i as int,
                                j as int + 1,
                            ));
                            assert(arm_implicits(gv, i as int, j as int) =~= Seq::<
                                MachineStateView,
                            >::empty());
                            assert(extra.deep_view() =~= states_implicits_upto(gv, i as int)
                                + arms_implicits_upto(gv, i as int, j as int + 1));
                        }
                    },
                }
                j = j + 1;
            }
            let st = MachineState { prelude, branches };
            proof {
                assert(st.deep_view() == user_state_view(gv, i as int));
            }
            push_mstate(&mut user, st);
            proof {
                assert(user.deep_view() =~= Seq::new(
                    i as nat + 1,
                    |k: int| user_state_view(gv, k),
                ));
            }
            i = i + 1;
        }
        let mut states = user;
        let ghost user_dv = states.deep_view();
        let mut tail = extra;
        let ghost extra_dv = tail.deep_view();
        states.append(&mut tail);
        let machine = Machine {
            user_names: names,
            states,
            directives: directives_clone(&self.directives),
        };
        proof {
            lemma_states_implicits_len(gv, n as int);
            assert forall|k: int|
                0 <= k < machine.states@.len() implies machine.states.deep_view()[k]
                == (user_dv + extra_dv)[k] by {
            }
            assert(machine.states.deep_view() =~= user_dv + extra_dv);
            assert(machine.deep_view().states =~= spec_assemble(gv).states);
            assert(machine.deep_view().user_names =~= spec_assemble(gv).user_names);
            assert(machine.deep_view().directives =~= spec_assemble(gv).directives);
            assert(machine.deep_view() == spec_assemble(gv));
            assert forall|k: int|
                0 <= k < machine.deep_view().states.len() implies state_wf(
                #[trigger] machine.deep_view().states[k],
                machine.deep_view().states.len() as int,
                machine.deep_view().directives.len() as int,
            ) by {
                assert(machine.deep_view().states[k] == (user_dv + extra_dv)[k]);
            }
            assert(machine_wf(machine.deep_view()));
        }
        Ok(machine)
    }
}

} // verus!
