use vstd::prelude::*;

use crate::pattern::Pattern;

verus! {

/// A named, fixed-arity host-supplied action or predicate that arms may
/// reference.
#[derive(Clone, Debug, PartialEq, Eq)]
pub struct Directive {
    pub name: Vec<u8>,
    pub arity: usize,
}

/// A reference to a directive together with its argument bindings.
#[derive(Clone, Debug, PartialEq, Eq)]
pub struct ActionRef {
    pub directive: Vec<u8>,
    pub args: Vec<Vec<u8>>,
}

/// One pattern, an optional action and an optional transition; arms are
/// tried in declaration order, first match wins.
#[derive(Clone, Debug, PartialEq, Eq)]
pub struct Arm {
    pub pattern: Pattern,
    pub action: Option<ActionRef>,
    pub transition: Option<Vec<u8>>,
}

/// A named state: its ordered arms.
#[derive(Clone, Debug, PartialEq, Eq)]
pub struct State {
    pub name: Vec<u8>,
    pub arms: Vec<Arm>,
}

/// A whole grammar: named states plus the table of declared directives.
#[derive(Clone, Debug, PartialEq, Eq)]
pub struct Grammar {
    pub name: Vec<u8>,
    pub states: Vec<State>,
    pub directives: Vec<Directive>,
}

pub struct DirectiveView {
    pub name: Seq<u8>,
    pub arity: usize,
}

impl DeepView for Directive {
    type V = DirectiveView;

    open spec fn deep_view(&self) -> DirectiveView {
        DirectiveView { name: self.name@, arity: self.arity }
    }
}

pub struct ActionRefView {
    pub directive: Seq<u8>,
    pub args: Seq<Seq<u8>>,
}

impl DeepView for ActionRef {
    type V = ActionRefView;

    open spec fn deep_view(&self) -> ActionRefView {
        ActionRefView { directive: self.directive@, args: self.args.deep_view() }
    }
}

pub struct ArmView {
    pub pattern: crate::pattern::PatternView,
    pub action: Option<ActionRefView>,
    pub transition: Option<Seq<u8>>,
}

impl DeepView for Arm {
    type V = ArmView;

    open spec fn deep_view(&self) -> ArmView {
        ArmView {
            pattern: self.pattern.deep_view(),
            action: self.action.deep_view(),
            transition: self.transition.deep_view(),
        }
    }
}

pub struct StateView {
    pub name: Seq<u8>,
    pub arms: Seq<ArmView>,
}

impl DeepView for State {
    type V = StateView;

    open spec fn deep_view(&self) -> StateView {
        StateView { name: self.name@, arms: self.arms.deep_view() }
    }
}

pub struct GrammarView {
    pub name: Seq<u8>,
    pub states: Seq<StateView>,
    pub directives: Seq<DirectiveView>,
}

impl DeepView for Grammar {
    type V = GrammarView;

    open spec fn deep_view(&self) -> GrammarView {
        GrammarView {
            name: self.name@,
            states: self.states.deep_view(),
            directives: self.directives.deep_view(),
        }
    }
}

/// Copies a byte string.
pub fn bytes_clone(v: &Vec<u8>) -> (r: Vec<u8>)
    ensures
        r@ == v@,
{
    vstd::slice::slice_to_vec(v.as_slice())
}

/// Compares two byte strings for equality.
pub fn bytes_eq(a: &[u8], b: &[u8]) -> (r: bool)
    ensures
        r == (a@ == b@),
{
    if a.len() != b.len() {
        proof {
            assert(a@ != b@);
        }
        return false;
    }
    let mut i: usize = 0;
    while i < a.len()
        invariant
            i <= a.len(),
            a@.len() == b@.len(),
            forall|k: int| 0 <= k < i ==> a@[k] == b@[k],
        decreases a.len() - i,
    {
        if a[i] != b[i] {
            proof {
                assert(a@[i as int] != b@[i as int]);
            }
            return false;
        }
        i = i + 1;
    }
    proof {
        assert(a@ =~= b@);
    }
    true
}

/// The first state with the given name, searching from position `i`.
pub open spec fn find_state_from(states: Seq<State>, name: Seq<u8>, i: int) -> Option<int>
    decreases states.len() - i,
{
    if i < 0 || i >= states.len() {
        None
    } else if states[i].name@ == name {
        Some(i)
    } else {
        find_state_from(states, name, i + 1)
    }
}

/// The position of the first state with the given name, if any.
pub open spec fn find_state(states: Seq<State>, name: Seq<u8>) -> Option<int> {
    find_state_from(states, name, 0)
}

/// The first directive with the given name, searching from position `i`.
pub open spec fn find_directive_from(dirs: Seq<Directive>, name: Seq<u8>, i: int) -> Option<int>
    decreases dirs.len() - i,
{
    if i < 0 || i >= dirs.len() {
        None
    } else if dirs[i].name@ == name {
        Some(i)
    } else {
        find_directive_from(dirs, name, i + 1)
    }
}

/// The position of the first directive with the given name, if any.
pub open spec fn find_directive(dirs: Seq<Directive>, name: Seq<u8>) -> Option<int> {
    find_directive_from(dirs, name, 0)
}

/// A found state position lies in range and carries the name searched for.
pub proof fn lemma_find_state_from(states: Seq<State>, name: Seq<u8>, i: int)
    ensures
        match find_state_from(states, name, i) {
            Some(k) => i <= k < states.len() && states[k].name@ == name,
            None => true,
        },
    decreases states.len() - i,
{
    if 0 <= i < states.len() && states[i].name@ != name {
        lemma_find_state_from(states, name, i + 1);
    }
}

/// A found directive position lies in range and carries the name searched
/// for.
pub proof fn lemma_find_directive_from(dirs: Seq<Directive>, name: Seq<u8>, i: int)
    ensures
        match find_directive_from(dirs, name, i) {
            Some(k) => i <= k < dirs.len() && dirs[k].name@ == name,
            None => true,
        },
    decreases dirs.len() - i,
{
    if 0 <= i < dirs.len() && dirs[i].name@ != name {
        lemma_find_directive_from(dirs, name, i + 1);
    }
}

impl Grammar {
    /// Looks a state up by name: the first declared state carrying it.
    pub fn find_state(&self, name: &[u8]) -> (r: Option<usize>)
        ensures
            match r {
                Some(k) => find_state(self.states@, name@) == Some(k as int),
                None => find_state(self.states@, name@) is None,
            },
    {
        let mut i: usize = 0;
        while i < self.states.len()
            invariant
                i <= self.states@.len(),
                find_state_from(self.states@, name@, 0) == find_state_from(
                    self.states@,
                    name@,
                    i as int,
                ),
            decreases self.states@.len() - i,
        {
            if bytes_eq(self.states[i].name.as_slice(), name) {
                return Some(i);
            }
            i = i + 1;
        }
        None
    }

    /// Looks a directive up by name: the first declared directive carrying it.
    pub fn find_directive(&self, name: &[u8]) -> (r: Option<usize>)
        ensures
            match r {
                Some(k) => find_directive(self.directives@, name@) == Some(k as int),
                None => find_directive(self.directives@, name@) is None,
            },
    {
        let mut i: usize = 0;
        while i < self.directives.len()
            invariant
                i <= self.directives@.len(),
                find_directive_from(self.directives@, name@, 0) == find_directive_from(
                    self.directives@,
                    name@,
                    i as int,
                ),
            decreases self.directives@.len() - i,
        {
            if bytes_eq(self.directives[i].name.as_slice(), name) {
                return Some(i);
            }
            i = i + 1;
        }
        None
    }
}

/// No two declared states share a name.
pub open spec fn state_names_unique(states: Seq<State>) -> bool {
    forall|a: int, b: int|
        0 <= a < b < states.len() ==> (#[trigger] states[a]).name@ != (#[trigger] states[b]).name@
}

/// An action reference resolves: its directive is declared and is called
/// with as many arguments as the directive's arity.
pub open spec fn action_resolves(dirs: Seq<Directive>, a: ActionRef) -> bool {
    match find_directive(dirs, a.directive@) {
        Some(d) => dirs[d].arity == a.args@.len(),
        None => false,
    }
}

/// A condition reference resolves: its directive is declared and takes one
/// parameter, the current byte.
pub open spec fn condition_resolves(dirs: Seq<Directive>, name: Seq<u8>) -> bool {
    match find_directive(dirs, name) {
        Some(d) => dirs[d].arity == 1,
        None => false,
    }
}

/// Every cross-reference of one arm resolves within the grammar.
pub open spec fn arm_valid(g: Grammar, arm: Arm) -> bool {
    &&& match arm.transition {
        Some(t) => find_state(g.states@, t@) is Some,
        None => true,
    }
    &&& match arm.action {
        Some(a) => action_resolves(g.directives@, a),
        None => true,
    }
    &&& match arm.pattern {
        Pattern::Condition(n) => condition_resolves(g.directives@, n@),
        _ => true,
    }
}

/// Whether the pair `(i, j)` addresses an arm of the grammar.
pub open spec fn arm_in_range(g: Grammar, i: int, j: int) -> bool {
    0 <= i < g.states@.len() && 0 <= j < g.states@[i].arms@.len()
}

/// A grammar is valid when its state names are unique and every transition
/// target, action reference and condition reference of every arm resolves.
pub open spec fn grammar_valid(g: Grammar) -> bool {
    &&& state_names_unique(g.states@)
    &&& forall|i: int, j: int| arm_in_range(g, i, j) ==> arm_valid(g, #[trigger] g.states@[i].arms@[j])
}

/// A structured diagnostic tied to the offending grammar element; any of
/// these aborts compilation with no artifact produced.
#[derive(Clone, Debug, PartialEq, Eq)]
pub enum CompileError {
    /// Two states share this name.
    DuplicateState(Vec<u8>),
    /// Some arm's transition names this state, which is not declared.
    DanglingTransition(Vec<u8>),
    /// Some arm references this directive, which is not declared.
    UnknownDirective(Vec<u8>),
    /// Some arm calls this directive with the wrong number of arguments.
    ArityMismatch(Vec<u8>),
}

/// An arm whose transition names the undeclared state `t`.
pub open spec fn arm_dangles_to(g: Grammar, arm: Arm, t: Seq<u8>) -> bool {
    match arm.transition {
        Some(tt) => tt@ == t && find_state(g.states@, t) is None,
        None => false,
    }
}

/// An arm that references the undeclared directive `n`, as an action or as
/// a condition.
pub open spec fn arm_misses_directive(g: Grammar, arm: Arm, n: Seq<u8>) -> bool {
    ||| match arm.action {
        Some(a) => a.directive@ == n && find_directive(g.directives@, n) is None,
        None => false,
    }
    ||| match arm.pattern {
        Pattern::Condition(c) => c@ == n && find_directive(g.directives@, n) is None,
        _ => false,
    }
}

/// An arm that calls the declared directive `n` with the wrong arity.
pub open spec fn arm_arity_clash(g: Grammar, arm: Arm, n: Seq<u8>) -> bool {
    ||| match arm.action {
        Some(a) => a.directive@ == n && match find_directive(g.directives@, n) {
            Some(d) => g.directives@[d].arity != a.args@.len(),
            None => false,
        },
        None => false,
    }
    ||| match arm.pattern {
        Pattern::Condition(c) => c@ == n && match find_directive(g.directives@, n) {
            Some(d) => g.directives@[d].arity != 1,
            None => false,
        },
        _ => false,
    }
}

/// What each diagnostic asserts of the grammar: the named fault is really
/// there.
pub open spec fn error_cause(g: Grammar, e: CompileError) -> bool {
    match e {
        CompileError::DuplicateState(n) => exists|a: int, b: int|
            0 <= a < b < g.states@.len() && (#[trigger] g.states@[a]).name@ == n@
                && (#[trigger] g.states@[b]).name@ == n@,
        CompileError::DanglingTransition(t) => exists|i: int, j: int|
            arm_in_range(g, i, j) && arm_dangles_to(g, #[trigger] g.states@[i].arms@[j], t@),
        CompileError::UnknownDirective(n) => exists|i: int, j: int|
            arm_in_range(g, i, j) && arm_misses_directive(g, #[trigger] g.states@[i].arms@[j], n@),
        CompileError::ArityMismatch(n) => exists|i: int, j: int|
            arm_in_range(g, i, j) && arm_arity_clash(g, #[trigger] g.states@[i].arms@[j], n@),
    }
}

impl Grammar {
    /// Validates the whole grammar: unique state names, every transition
    /// target declared, every directive reference declared with matching
    /// arity. Returns the first fault found, walking states in declaration
    /// order and each state's arms in order; a valid grammar and only a
    /// valid grammar passes.
    pub fn validate(&self) -> (r: Result<(), CompileError>)
        ensures
            r is Ok <==> grammar_valid(*self),
            r matches Err(e) ==> error_cause(*self, e),
    {
        let n = self.states.len();
        let mut i: usize = 0;
        while i < n
            invariant
                n == self.states@.len(),
                i <= n,
                forall|a: int, b: int|
                    0 <= a < b < n && a < i ==> (#[trigger] self.states@[a]).name@ != (
                    #[trigger] self.states@[b]).name@,
            decreases n - i,
        {
            let mut j: usize = i + 1;
            while j < n
                invariant
                    n == self.states@.len(),
                    i < j || i + 1 == j,
                    i < n,
                    i + 1 <= j <= n,
                    forall|b: int|
                        i < b < j ==> self.states@[i as int].name@ != (#[trigger] self.states@[b]).name@,
                decreases n - j,
            {
                if bytes_eq(self.states[i].name.as_slice(), self.states[j].name.as_slice()) {
                    let dup = bytes_clone(&self.states[i].name);
                    proof {
                        assert(self.states@[i as int].name@ == dup@ && self.states@[j as int].name@
                            == dup@);
                    }
                    return Err(CompileError::DuplicateState(dup));
                }
                j = j + 1;
            }
            i = i + 1;
        }
        proof {
            assert(state_names_unique(self.states@));
        }
        let mut i: usize = 0;
        while i < n
            invariant
                n == self.states@.len(),
                i <= n,
                state_names_unique(self.states@),
                forall|a: int, b: int|
                    arm_in_range(*self, a, b) && a < i ==> arm_valid(
                        *self,
                        #[trigger] self.states@[a].arms@[b],
                    ),
            decreases n - i,
        {
            let m = self.states[i].arms.len();
            let mut j: usize = 0;
            while j < m
                invariant
                    n == self.states@.len(),
                    i < n,
                    m == self.states@[i as int].arms@.len(),
                    j <= m,
                    state_names_unique(self.states@),
                    forall|a: int, b: int|
                        arm_in_range(*self, a, b) && a < i ==> arm_valid(
                            *self,
                            #[trigger] self.states@[a].arms@[b],
                        ),
                    forall|b: int|
                        0 <= b < j ==> arm_valid(*self, #[trigger] self.states@[i as int].arms@[b]),
                decreases m - j,
            {
                let arm = &self.states[i].arms[j];
                if let Some(t) = &arm.transition {
                    if self.find_state(t.as_slice()).is_none() {
                        let miss = bytes_clone(t);
                        proof {
                            assert(arm_in_range(*self, i as int, j as int) && arm_dangles_to(
                                *self,
                                self.states@[i as int].arms@[j as int],
                                miss@,
                            ));
                        }
                        return Err(CompileError::DanglingTransition(miss));
                    }
                }
                if let Some(a) = &arm.action {
                    match self.find_directive(a.directive.as_slice()) {
                        None => {
                            let miss = bytes_clone(&a.directive);
                            proof {
                                assert(arm_in_range(*self, i as int, j as int)
                                    && arm_misses_directive(
                                    *self,
                                    self.states@[i as int].arms@[j as int],
                                    miss@,
                                ));
                            }
                            return Err(CompileError::UnknownDirective(miss));
                        },
                        Some(d) => {
                            proof {
                                lemma_find_directive_from(self.directives@, a.directive@, 0);
                            }
                            if self.directives[d].arity != a.args.len() {
                                let miss = bytes_clone(&a.directive);
                                proof {
                                    assert(arm_in_range(*self, i as int, j as int)
                                        && arm_arity_clash(
                                        *self,
                                        self.states@[i as int].arms@[j as int],
                                        miss@,
                                    ));
                                }
                                return Err(CompileError::ArityMismatch(miss));
                            }
                        },
                    }
                }
                if let Pattern::Condition(c) = &arm.pattern {
                    match self.find_directive(c.as_slice()) {
                        None => {
                            let miss = bytes_clone(c);
                            proof {
                                assert(arm_in_range(*self, i as int, j as int)
                                    && arm_misses_directive(
                                    *self,
                                    self.states@[i as int].arms@[j as int],
                                    miss@,
                                ));
                            }
                            return Err(CompileError::UnknownDirective(miss));
                        },
                        Some(d) => {
                            proof {
                                lemma_find_directive_from(self.directives@, c@, 0);
                            }
                            if self.directives[d].arity != 1 {
                                let miss = bytes_clone(c);
                                proof {
                                    assert(arm_in_range(*self, i as int, j as int)
                                        && arm_arity_clash(
                                        *self,
                                        self.states@[i as int].arms@[j as int],
                                        miss@,
                                    ));
                                }
                                return Err(CompileError::ArityMismatch(miss));
                            }
                        },
                    }
                }
                proof {
                    assert(arm_valid(*self, self.states@[i as int].arms@[j as int]));
                }
                j = j + 1;
            }
            i = i + 1;
        }
        Ok(())
    }
}

} // verus!
