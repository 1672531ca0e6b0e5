use byte_muncher::{
    ActionRef, Arm, ClassPattern, CompileError, Directive, Grammar, InputStatePattern, Machine,
    Pattern, SequencePattern, State,
};

fn arm(pattern: Pattern, transition: Option<&[u8]>) -> Arm {
    Arm {
        pattern,
        action: None,
        transition: transition.map(|t| t.to_vec()),
    }
}

fn state(name: &[u8], arms: Vec<Arm>) -> State {
    State {
        name: name.to_vec(),
        arms,
    }
}

fn grammar(states: Vec<State>, directives: Vec<Directive>) -> Grammar {
    Grammar {
        name: b"scanner".to_vec(),
        states,
        directives,
    }
}

fn compiled(states: Vec<State>, directives: Vec<Directive>) -> Machine {
    grammar(states, directives)
        .compile()
        .expect("grammar should compile")
}

#[test]
fn class_predicates_accept_exactly_their_byte_sets() {
    for b in 0..=255u8 {
        let lower = (b'a'..=b'z').contains(&b);
        let upper = (b'A'..=b'Z').contains(&b);
        let digit = (b'0'..=b'9').contains(&b);
        let hex_letter = (b'a'..=b'f').contains(&b) || (b'A'..=b'F').contains(&b);
        let space = b == 0x20 || b == 0x0a || b == 0x0d || b == 0x09 || b == 0x0c;
        assert_eq!(ClassPattern::Alnum.matches(b), lower || upper || digit);
        assert_eq!(ClassPattern::Alpha.matches(b), lower || upper);
        assert_eq!(ClassPattern::Ascii.matches(b), b <= 0x7f);
        assert_eq!(ClassPattern::Lower.matches(b), lower);
        assert_eq!(ClassPattern::Upper.matches(b), upper);
        assert_eq!(ClassPattern::Digit.matches(b), digit);
        assert_eq!(ClassPattern::Xdigit.matches(b), digit || hex_letter);
        assert_eq!(ClassPattern::Space.matches(b), space);
    }
}

#[test]
fn end_to_end_byte_and_wildcard() {
    let m = compiled(
        vec![
            state(
                b"Start",
                vec![
                    arm(Pattern::Byte(0x61), Some(b"Next")),
                    arm(Pattern::Any, None),
                ],
            ),
            state(b"Next", vec![]),
        ],
        vec![],
    );
    let conds: Vec<bool> = vec![];

    let mut run = m.start();
    let out = m.step(&mut run, Some(0x61), true, &conds);
    assert_eq!(out.matched, Some(0));
    assert!(!out.prelude_fired);
    assert!(m.states[0].branches[0].action.is_none());
    assert_eq!(run.state, 1);
    assert!(run.entered);

    let mut run = m.start();
    let out = m.step(&mut run, Some(0x62), true, &conds);
    assert_eq!(out.matched, Some(1));
    assert!(m.states[0].branches[1].action.is_none());
    assert_eq!(run.state, 0);
    assert!(!run.entered);
}

#[test]
fn eoc_fires_only_between_chunks_and_eof_only_at_the_end() {
    let m = compiled(
        vec![
            state(
                b"Read",
                vec![
                    arm(Pattern::InputState(InputStatePattern::Eoc), Some(b"Wait")),
                    arm(Pattern::InputState(InputStatePattern::Eof), Some(b"Done")),
                    arm(Pattern::Any, None),
                ],
            ),
            state(b"Wait", vec![]),
            state(b"Done", vec![]),
        ],
        vec![],
    );
    let conds: Vec<bool> = vec![];

    // Chunk exhausted, more chunks pending: the Eoc arm fires.
    let mut run = m.start();
    let out = m.step(&mut run, None, false, &conds);
    assert_eq!(out.matched, Some(0));
    assert_eq!(run.state, 1);

    // True stream exhaustion: the Eoc arm never fires, the Eof arm does.
    let mut run = m.start();
    let out = m.step(&mut run, None, true, &conds);
    assert_eq!(out.matched, Some(1));
    assert_eq!(run.state, 2);

    // A byte event satisfies neither marker.
    let mut run = m.start();
    let out = m.step(&mut run, Some(0x20), true, &conds);
    assert_eq!(out.matched, Some(2));
    assert_eq!(run.state, 0);
}

#[test]
fn earlier_arm_wins_on_overlap() {
    let m = compiled(
        vec![
            state(
                b"Start",
                vec![
                    arm(Pattern::Class(ClassPattern::Lower), Some(b"ByClass")),
                    arm(Pattern::Byte(0x61), Some(b"ByByte")),
                    arm(Pattern::Any, None),
                ],
            ),
            state(b"ByClass", vec![]),
            state(b"ByByte", vec![]),
        ],
        vec![],
    );
    let conds: Vec<bool> = vec![];

    // Every byte of the overlap goes to the earlier arm, 0x61 included.
    for b in b'a'..=b'z' {
        let mut run = m.start();
        let out = m.step(&mut run, Some(b), true, &conds);
        assert_eq!(out.matched, Some(0));
        assert_eq!(run.state, 1);
    }
}

#[test]
fn state_enter_fires_once_per_activation() {
    let mark = Directive {
        name: b"mark".to_vec(),
        arity: 0,
    };
    let enter_arm = Arm {
        pattern: Pattern::StateEnter,
        action: Some(ActionRef {
            directive: b"mark".to_vec(),
            args: vec![],
        }),
        transition: None,
    };
    let m = compiled(
        vec![state(
            b"Loop",
            vec![
                enter_arm,
                arm(Pattern::Byte(b'r'), Some(b"Loop")),
                arm(Pattern::Any, None),
            ],
        )],
        vec![mark],
    );
    let conds = vec![false];

    assert!(m.states[0].prelude.is_some());
    let mut run = m.start();

    // First event of the activation: the prelude fires, before dispatch;
    // the entry arm itself is no competing branch, so the event falls to
    // the wildcard.
    let out = m.step(&mut run, Some(b'x'), true, &conds);
    assert!(out.prelude_fired);
    assert_eq!(out.matched, Some(1));

    // Later events of the same activation: never again.
    let out = m.step(&mut run, Some(b'y'), true, &conds);
    assert!(!out.prelude_fired);

    // A self-transition starts a new activation and re-arms it.
    let out = m.step(&mut run, Some(b'r'), true, &conds);
    assert!(!out.prelude_fired);
    let out = m.step(&mut run, Some(b'z'), true, &conds);
    assert!(out.prelude_fired);
    assert!(out.matched.is_some());
}

#[test]
fn case_folded_sequence_reaches_the_terminal_for_all_variants() {
    let build = || {
        grammar(
            vec![
                state(
                    b"Start",
                    vec![
                        Arm {
                            pattern: Pattern::Sequence(SequencePattern {
                                bytes: b"AB".to_vec(),
                                ignore_case: true,
                            }),
                            action: None,
                            transition: Some(b"Done".to_vec()),
                        },
                        arm(Pattern::Any, None),
                    ],
                ),
                state(b"Done", vec![]),
            ],
            vec![],
        )
    };
    let m = build().compile().expect("grammar should compile");
    let conds: Vec<bool> = vec![];

    // Two declared states and one implicit chain state.
    assert_eq!(m.user_names.len(), 2);
    assert_eq!(m.states.len(), 3);

    for (first, second) in [(b'a', b'b'), (b'A', b'b'), (b'a', b'B'), (b'A', b'B')] {
        let mut run = m.start();
        m.step(&mut run, Some(first), true, &conds);
        assert_eq!(run.state, 2);
        let out = m.step(&mut run, Some(second), true, &conds);
        assert!(out.matched.is_some());
        assert_eq!(run.state, 1);
    }

    // A mismatch at the second position never reaches the terminal.
    let mut run = m.start();
    m.step(&mut run, Some(b'a'), true, &conds);
    assert_eq!(run.state, 2);
    let out = m.step(&mut run, Some(b'c'), true, &conds);
    assert_eq!(out.matched, None);
    assert_eq!(run.state, 2);
}

#[test]
fn long_case_folded_sequence_runs_to_its_terminal() {
    let m = compiled(
        vec![
            state(
                b"Start",
                vec![
                    Arm {
                        pattern: Pattern::Sequence(SequencePattern {
                            bytes: b"FooBar".to_vec(),
                            ignore_case: true,
                        }),
                        action: None,
                        transition: Some(b"Done".to_vec()),
                    },
                    arm(Pattern::Any, None),
                ],
            ),
            state(b"Done", vec![]),
        ],
        vec![],
    );
    let conds: Vec<bool> = vec![];

    // Two declared states plus five implicit chain states.
    assert_eq!(m.states.len(), 7);

    let mut run = m.start();
    for b in b"fOoBaR" {
        m.step(&mut run, Some(*b), true, &conds);
    }
    assert_eq!(run.state, 1);

    // A mismatch partway through abandons the run in its chain state.
    let mut run = m.start();
    for b in b"foox" {
        m.step(&mut run, Some(*b), true, &conds);
    }
    assert_ne!(run.state, 1);
}

#[test]
fn several_sequences_get_disjoint_implicit_states() {
    let m = compiled(
        vec![
            state(
                b"Start",
                vec![
                    Arm {
                        pattern: Pattern::Sequence(SequencePattern {
                            bytes: b"ab".to_vec(),
                            ignore_case: false,
                        }),
                        action: None,
                        transition: Some(b"First".to_vec()),
                    },
                    Arm {
                        pattern: Pattern::Sequence(SequencePattern {
                            bytes: b"xyz".to_vec(),
                            ignore_case: false,
                        }),
                        action: None,
                        transition: Some(b"Second".to_vec()),
                    },
                    arm(Pattern::Any, None),
                ],
            ),
            state(b"First", vec![]),
            state(b"Second", vec![]),
        ],
        vec![],
    );
    let conds: Vec<bool> = vec![];

    // Three declared states, one chain state for `ab`, two for `xyz`.
    assert_eq!(m.user_names.len(), 3);
    assert_eq!(m.states.len(), 6);

    let mut run = m.start();
    m.step(&mut run, Some(b'a'), true, &conds);
    m.step(&mut run, Some(b'b'), true, &conds);
    assert_eq!(run.state, 1);

    let mut run = m.start();
    m.step(&mut run, Some(b'x'), true, &conds);
    m.step(&mut run, Some(b'y'), true, &conds);
    m.step(&mut run, Some(b'z'), true, &conds);
    assert_eq!(run.state, 2);
}

#[test]
fn compiling_twice_yields_identical_output() {
    let build = || {
        grammar(
            vec![
                state(
                    b"Start",
                    vec![
                        Arm {
                            pattern: Pattern::Sequence(SequencePattern {
                                bytes: b"FooBar".to_vec(),
                                ignore_case: true,
                            }),
                            action: None,
                            transition: Some(b"Done".to_vec()),
                        },
                        arm(Pattern::Class(ClassPattern::Digit), None),
                        arm(Pattern::Any, None),
                    ],
                ),
                state(b"Done", vec![]),
            ],
            vec![],
        )
    };
    let m1 = build().compile().expect("grammar should compile");
    let m2 = build().compile().expect("grammar should compile");
    assert_eq!(m1, m2);
}

#[test]
fn dangling_transition_is_rejected() {
    let r = grammar(
        vec![state(b"Start", vec![arm(Pattern::Any, Some(b"Missing"))])],
        vec![],
    )
    .compile();
    assert_eq!(r, Err(CompileError::DanglingTransition(b"Missing".to_vec())));
}

#[test]
fn duplicate_state_names_are_rejected() {
    let r = grammar(
        vec![state(b"S", vec![]), state(b"S", vec![])],
        vec![],
    )
    .compile();
    assert_eq!(r, Err(CompileError::DuplicateState(b"S".to_vec())));
}

#[test]
fn unresolved_directive_is_rejected() {
    let r = grammar(
        vec![state(
            b"Start",
            vec![Arm {
                pattern: Pattern::Any,
                action: Some(ActionRef {
                    directive: b"boom".to_vec(),
                    args: vec![],
                }),
                transition: None,
            }],
        )],
        vec![],
    )
    .compile();
    assert_eq!(r, Err(CompileError::UnknownDirective(b"boom".to_vec())));
}

#[test]
fn wrong_action_arity_is_rejected() {
    let r = grammar(
        vec![state(
            b"Start",
            vec![Arm {
                pattern: Pattern::Any,
                action: Some(ActionRef {
                    directive: b"mark".to_vec(),
                    args: vec![b"x".to_vec()],
                }),
                transition: None,
            }],
        )],
        vec![Directive {
            name: b"mark".to_vec(),
            arity: 2,
        }],
    )
    .compile();
    assert_eq!(r, Err(CompileError::ArityMismatch(b"mark".to_vec())));
}

#[test]
fn condition_needs_a_single_byte_predicate() {
    let r = grammar(
        vec![state(
            b"Start",
            vec![arm(Pattern::Condition(b"hot".to_vec()), None)],
        )],
        vec![Directive {
            name: b"hot".to_vec(),
            arity: 0,
        }],
    )
    .compile();
    assert_eq!(r, Err(CompileError::ArityMismatch(b"hot".to_vec())));
}

#[test]
fn condition_branch_follows_the_host_predicate() {
    let m = compiled(
        vec![
            state(
                b"Start",
                vec![
                    arm(Pattern::Condition(b"hot".to_vec()), Some(b"Hit")),
                    arm(Pattern::Any, None),
                ],
            ),
            state(b"Hit", vec![]),
        ],
        vec![Directive {
            name: b"hot".to_vec(),
            arity: 1,
        }],
    );

    let mut run = m.start();
    let out = m.step(&mut run, Some(b'q'), true, &vec![true]);
    assert_eq!(out.matched, Some(0));
    assert_eq!(run.state, 1);

    let mut run = m.start();
    let out = m.step(&mut run, Some(b'q'), true, &vec![false]);
    assert_eq!(out.matched, Some(1));
    assert_eq!(run.state, 0);

    // The absence of a byte never reaches a predicate.
    let mut run = m.start();
    let out = m.step(&mut run, None, true, &vec![true]);
    assert_eq!(out.matched, Some(1));
}

#[test]
fn empty_grammar_compiles_to_an_empty_machine() {
    let m = compiled(vec![], vec![]);
    assert_eq!(m.user_names.len(), 0);
    assert_eq!(m.states.len(), 0);
    assert_eq!(m.directives.len(), 0);
}

#[test]
fn byte_value_bounds_in_patterns() {
    assert_eq!(
        Pattern::parse(b"255"),
        Ok(Pattern::Byte(0xff))
    );
    let e = Pattern::parse(b"256").expect_err("value should be rejected");
    assert_eq!(e.message, b"byte value out of range".to_vec());
    let e = Pattern::parse(b"0x100").expect_err("value should be rejected");
    assert_eq!(e.message, b"byte value out of range".to_vec());
}
