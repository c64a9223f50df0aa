//! What a compiled switch does when no case is chosen: it falls from case to
//! case and ends by pushing null.

use crate::buffer::{be16, lemma_be16_round_trip};
use crate::code::code::{
    Jump, JumpNotMatch, JumpNotTrue, Null, OpCode, OpCodeMake, OpCodeMakeWithU16, PopMatch,
    PushMatch,
};
use crate::compiler::layout::{
    code_size, continues, lemma_compile_body, lemma_compile_expr, lemma_emit, lemma_patch,
    operands_within, well_scoped,
};
use crate::compiler::model::{
    compile_body, compile_cases, compile_expr, emit, patch, patch_all, patch_pending,
    CompilerState, PLACEHOLDER,
};
use crate::object::value::{equals, truthy, Value};
use crate::parser::ast::{Case, ExprST};
use crate::vm::model::{
    lemma_run_one, lemma_run_split, lemma_step_narrow, lemma_step_pop_match, lemma_step_wide,
    op_pop_match, run, step, Machine, Run, Step,
};
use vstd::prelude::*;

verus! {

/// Whether a position lies in none of the jump operands that are still to be
/// patched.
pub open spec fn outside_operands(p: int, pending: Option<int>, exits: Seq<int>) -> bool {
    &&& (pending matches Some(at) ==> !(at <= p < at + 2))
    &&& forall|i: int| 0 <= i < exits.len() ==> !(#[trigger] exits[i] <= p < exits[i] + 2)
}

/// Whether the pending operand overlaps none of the exits' operands.
pub open spec fn apart(pending: Option<int>, exits: Seq<int>) -> bool {
    pending matches Some(at) ==> forall|i: int|
        0 <= i < exits.len() ==> (#[trigger] exits[i]) + 2 <= at || at + 2 <= exits[i]
}

/// Whether every case from position `from` on has a condition.
pub open spec fn all_conditional(cases: Seq<Case>, from: int) -> bool {
    forall|i: int| from <= i < cases.len() ==> (#[trigger] cases[i]).condition is Some
}

/// Patching jumps changes no byte outside their operands.
pub proof fn lemma_patch_all_frame(st: CompilerState, ats: Seq<int>, target: int)
    requires
        well_scoped(st),
        operands_within(ats, 0, st.code().len() as int),
    ensures
        patch_all(st, ats, target).code().len() == st.code().len(),
        forall|p: int|
            0 <= p < st.code().len() && outside_operands(p, None, ats) ==> #[trigger] patch_all(
                st,
                ats,
                target,
            ).code()[p] == st.code()[p],
    decreases ats.len(),
{
    if ats.len() > 0 {
        let next = patch(st, ats[0], target);
        lemma_patch(st, ats[0], target);
        reveal(continues);
        assert(operands_within(ats.drop_first(), 0, next.code().len() as int)) by {
            assert forall|i: int| 0 <= i < ats.drop_first().len() implies 0
                <= #[trigger] ats.drop_first()[i] && ats.drop_first()[i] + 2
                <= next.code().len() by {
                assert(ats.drop_first()[i] == ats[i + 1]);
            }
        }
        lemma_patch_all_frame(next, ats.drop_first(), target);
        assert forall|p: int|
            0 <= p < st.code().len() && outside_operands(p, None, ats) implies #[trigger] patch_all(
            st,
            ats,
            target,
        ).code()[p] == st.code()[p] by {
            assert(!(ats[0] <= p < ats[0] + 2));
            assert(outside_operands(p, None, ats.drop_first())) by {
                assert forall|i: int| 0 <= i < ats.drop_first().len() implies !(
                #[trigger] ats.drop_first()[i] <= p < ats.drop_first()[i] + 2) by {
                    assert(ats.drop_first()[i] == ats[i + 1]);
                }
            }
        }
    }
}

/// The states that compiling one case with a condition goes through.
pub struct CaseStates {
    /// The pending jump is patched.
    pub s0: CompilerState,
    /// The condition is compiled.
    pub s1: CompilerState,
    /// The conditional jump is emitted.
    pub s2: CompilerState,
    /// The body is compiled.
    pub s3: CompilerState,
    /// The jump to the end is emitted.
    pub s4: CompilerState,
}

/// The states that compiling the case at `from` goes through, where it has a
/// condition and compiles.
pub open spec fn case_states(
    st: CompilerState,
    cases: Seq<Case>,
    from: int,
    jump_byte: u8,
    pending: Option<int>,
) -> CaseStates {
    let s0 = patch_pending(st, pending);
    let s1 = compile_expr(s0, *cases[from].condition->Some_0)->Ok_0;
    let s2 = emit(s1, seq![jump_byte] + be16(PLACEHOLDER))->Ok_0;
    let s3 = compile_body(s2, cases[from].consequence@, 0, cases[from].null_return)->Ok_0;
    let s4 = emit(s3, Jump.encoding(PLACEHOLDER))->Ok_0;
    CaseStates { s0, s1, s2, s3, s4 }
}

/// Compiling one case with a condition: the code grows, what was there stays
/// but for the pending operand, and the cases that follow are compiled from
/// the state behind the jump to the end.
pub proof fn lemma_case_states(
    st: CompilerState,
    cases: Seq<Case>,
    from: int,
    jump_byte: u8,
    pending: Option<int>,
    exits: Seq<int>,
)
    requires
        well_scoped(st),
        0 <= from < cases.len(),
        cases[from].condition is Some,
        pending matches Some(at) ==> 0 <= at && at + 2 <= st.code().len(),
        compile_cases(st, cases, from, jump_byte, pending, exits) is Ok,
    ensures
        ({
            let states = case_states(st, cases, from, jump_byte, pending);
            let test = states.s1.code().len() as int;
            let exit = states.s3.code().len() as int;
            &&& well_scoped(states.s0)
            &&& well_scoped(states.s4)
            &&& states.s0.code().len() == st.code().len()
            &&& forall|p: int|
                0 <= p < st.code().len() && outside_operands(p, pending, Seq::empty())
                    ==> #[trigger] states.s0.code()[p] == st.code()[p]
            &&& pending matches Some(at) ==> states.s0.code()[at] == be16(
                st.code().len() as u16,
            )[0] && states.s0.code()[at + 1] == be16(st.code().len() as u16)[1]
            &&& st.code().len() <= test
            &&& test + 3 <= exit
            &&& states.s4.code().len() == exit + 3
            &&& states.s4.code().take(st.code().len() as int) == states.s0.code()
            &&& states.s4.code()[test] == jump_byte
            &&& compile_cases(st, cases, from, jump_byte, pending, exits) == compile_cases(
                states.s4,
                cases,
                from + 1,
                jump_byte,
                Some(test + 1),
                exits.push(exit + 1),
            )
        }),
{
    reveal(continues);
    let states = case_states(st, cases, from, jump_byte, pending);
    let s0 = states.s0;
    let s1 = states.s1;
    let s2 = states.s2;
    let s3 = states.s3;
    let s4 = states.s4;
    let base = st.code().len() as int;
    match pending {
        Some(at) => {
            lemma_patch(st, at, base);
        },
        None => {},
    }
    let condition = *cases[from].condition->Some_0;
    let test_bytes = seq![jump_byte] + be16(PLACEHOLDER);
    lemma_compile_expr(s0, condition);
    lemma_emit(s1, test_bytes);
    lemma_compile_body(s2, cases[from].consequence@, 0, cases[from].null_return);
    lemma_emit(s3, Jump.encoding(PLACEHOLDER));
    let test = s1.code().len() as int;
    assert(s2.code()[test] == test_bytes[0]);
    assert(s3.code().take(test + 3) == s2.code().take(test + 3));
    assert(s3.code()[test] == s3.code().take(test + 3)[test]);
    assert(s2.code()[test] == s2.code().take(test + 3)[test]);
    assert(s4.code()[test] == s3.code()[test]);
    assert(s4.code().take(base) =~= s0.code()) by {
        assert(s1.code().take(base) == s0.code().take(base));
        assert(s0.code().take(base) =~= s0.code());
        assert forall|p: int| 0 <= p < base implies s4.code()[p] == s0.code()[p] by {
            assert(s4.code()[p] == s3.code()[p]);
            assert(s3.code()[p] == s3.code().take(test + 3)[p]);
            assert(s2.code()[p] == s2.code().take(test + 3)[p]);
            assert(s2.code()[p] == s1.code()[p]);
            assert(s1.code()[p] == s1.code().take(base)[p]);
        }
    }
}

/// What compiling the cases of a switch leaves of the code that was there:
/// every byte outside the operands that were still to be patched; the pending
/// operand holds the address at which these cases start; and where no case is
/// a default, the code ends in the instruction that pushes null.
pub proof fn lemma_cases_frame(
    st: CompilerState,
    cases: Seq<Case>,
    from: int,
    jump_byte: u8,
    pending: Option<int>,
    exits: Seq<int>,
)
    requires
        well_scoped(st),
        0 <= from,
        pending matches Some(at) ==> 0 <= at && at + 2 <= st.code().len(),
        operands_within(exits, 0, st.code().len() as int),
        apart(pending, exits),
        compile_cases(st, cases, from, jump_byte, pending, exits) is Ok,
    ensures
        ({
            let r = compile_cases(st, cases, from, jump_byte, pending, exits)->Ok_0;
            &&& r.code().len() >= st.code().len()
            &&& r.code().len() <= u16::MAX
            &&& forall|p: int|
                0 <= p < st.code().len() && outside_operands(p, pending, exits)
                    ==> #[trigger] r.code()[p] == st.code()[p]
            &&& pending matches Some(at) ==> r.code()[at] == be16(st.code().len() as u16)[0]
                && r.code()[at + 1] == be16(st.code().len() as u16)[1]
            &&& all_conditional(cases, from) ==> r.code().len() > st.code().len() && r.code()[r.code().len()
                - 1] == Null::byte()
        }),
    decreases cases.len() - from,
{
    reveal(continues);
    let base = st.code().len() as int;
    let r = compile_cases(st, cases, from, jump_byte, pending, exits)->Ok_0;
    let s0 = patch_pending(st, pending);
    match pending {
        Some(at) => {
            lemma_patch(st, at, base);
        },
        None => {},
    }
    if from >= cases.len() {
        lemma_emit(s0, Null.encoding());
        let s1 = emit(s0, Null.encoding())->Ok_0;
        assert(operands_within(exits, 0, s1.code().len() as int));
        lemma_patch_all_frame(s1, exits, s1.code().len() as int);
        assert(r == patch_all(s1, exits, s1.code().len() as int));
        assert(outside_operands(base, None, exits));
        assert(r.code()[base] == s1.code()[base]);
        assert forall|p: int|
            0 <= p < st.code().len() && outside_operands(p, pending, exits) implies #[trigger] r.code()[p]
            == st.code()[p] by {
            assert(outside_operands(p, None, exits));
            assert(r.code()[p] == s1.code()[p]);
        }
        match pending {
            Some(at) => {
                assert(outside_operands(at, None, exits));
                assert(outside_operands(at + 1, None, exits));
                assert(r.code()[at] == s1.code()[at]);
                assert(r.code()[at + 1] == s1.code()[at + 1]);
            },
            None => {},
        }
    } else {
        match cases[from].condition {
            Some(condition) => {
                lemma_case_states(st, cases, from, jump_byte, pending, exits);
                let states = case_states(st, cases, from, jump_byte, pending);
                let s4 = states.s4;
                let test = states.s1.code().len() as int;
                let exit = states.s3.code().len() as int;
                let next_exits = exits.push(exit + 1);
                assert(operands_within(next_exits, 0, s4.code().len() as int)) by {
                    assert forall|i: int| 0 <= i < next_exits.len() implies 0
                        <= #[trigger] next_exits[i] && next_exits[i] + 2 <= s4.code().len() by {
                        if i < exits.len() {
                            assert(next_exits[i] == exits[i]);
                        }
                    }
                }
                assert(apart(Some(test + 1), next_exits)) by {
                    assert forall|i: int| 0 <= i < next_exits.len() implies (
                    #[trigger] next_exits[i]) + 2 <= test + 1 || test + 1 + 2 <= next_exits[i] by {
                        if i < exits.len() {
                            assert(next_exits[i] == exits[i]);
                        }
                    }
                }
                lemma_cases_frame(s4, cases, from + 1, jump_byte, Some(test + 1), next_exits);
                assert forall|p: int| 0 <= p < base && outside_operands(p, None, exits) implies (
                #[trigger] r.code()[p]) == s0.code()[p] by {
                    assert(outside_operands(p, Some(test + 1), next_exits)) by {
                        assert forall|i: int| 0 <= i < next_exits.len() implies !(
                        #[trigger] next_exits[i] <= p < next_exits[i] + 2) by {
                            if i < exits.len() {
                                assert(next_exits[i] == exits[i]);
                            }
                        }
                    }
                    assert(s4.code()[p] == s4.code().take(base)[p]);
                }
                assert forall|p: int|
                    0 <= p < st.code().len() && outside_operands(p, pending, exits) implies #[trigger] r.code()[p]
                    == st.code()[p] by {
                    assert(outside_operands(p, None, exits));
                    assert(outside_operands(p, pending, Seq::empty()));
                }
                match pending {
                    Some(at) => {
                        assert(outside_operands(at, None, exits));
                        assert(outside_operands(at + 1, None, exits));
                    },
                    None => {},
                }
                if all_conditional(cases, from) {
                    assert(all_conditional(cases, from + 1));
                }
            },
            None => {
                lemma_compile_body(s0, cases[from].consequence@, 0, cases[from].null_return);
                let s1 = compile_body(
                    s0,
                    cases[from].consequence@,
                    0,
                    cases[from].null_return,
                )->Ok_0;
                assert(operands_within(exits, 0, s1.code().len() as int));
                lemma_patch_all_frame(s1, exits, s1.code().len() as int);
                assert(r == patch_all(s1, exits, s1.code().len() as int));
                assert(s1.code().take(base) == s0.code().take(base));
                assert forall|p: int| 0 <= p < base && outside_operands(p, None, exits) implies (
                #[trigger] r.code()[p]) == s0.code()[p] by {
                    assert(r.code()[p] == s1.code()[p]);
                    assert(s1.code()[p] == s1.code().take(base)[p]);
                    assert(s0.code()[p] == s0.code().take(base)[p]);
                }
                assert forall|p: int|
                    0 <= p < st.code().len() && outside_operands(p, pending, exits) implies #[trigger] r.code()[p]
                    == st.code()[p] by {
                    assert(outside_operands(p, None, exits));
                    assert(outside_operands(p, pending, Seq::empty()));
                }
                match pending {
                    Some(at) => {
                        assert(outside_operands(at, None, exits));
                        assert(outside_operands(at + 1, None, exits));
                    },
                    None => {},
                }
                assert(!all_conditional(cases, from));
            },
        }
    }
}

/// Whether the value on top of the stack chooses the case whose condition
/// left it there: in a switch without subject, where it is truthy; in a
/// switch with a subject, where it equals the subject.
pub open spec fn chooses(jump_byte: u8, tested: Machine) -> bool {
    if jump_byte == JumpNotTrue::byte() {
        truthy(tested.stack.last())
    } else {
        tested.match_stack.len() > 0 && equals(tested.stack.last(), tested.match_stack.last())
    }
}

/// The state behind the conditional jump of a case that was not chosen: the
/// value is off the stack and the cursor at the case that follows.
pub open spec fn handed_over(tested: Machine, next_start: nat) -> Machine {
    tested.with_stack(tested.stack.drop_last()).at(next_start)
}

/// Whether the case at `from` is not chosen when the machine starts at it in
/// the state `m`: the condition's code runs for `k` instructions from its
/// start to its end and leaves, in the state `tested`, a value that does not
/// choose the case. `rest` is the number of instructions that the cases
/// behind it take.
pub open spec fn case_falls(
    st: CompilerState,
    cases: Seq<Case>,
    from: int,
    jump_byte: u8,
    pending: Option<int>,
    m: Machine,
    fuel: nat,
    k: nat,
    tested: Machine,
    rest: nat,
) -> bool {
    let states = case_states(st, cases, from, jump_byte, pending);
    &&& 0 <= from < cases.len()
    &&& run(m, k) == Run::Paused(tested)
    &&& tested.frames == m.frames
    &&& tested.cursor == states.s1.code().len()
    &&& tested.stack.len() > 0
    &&& !chooses(jump_byte, tested)
    &&& fuel == k + 1 + rest
}

/// Whether no case from position `from` on is chosen when the machine starts
/// at that case in the state `m`: the case at `from` is not chosen, and from
/// the state behind its conditional jump none of the cases that follow is.
/// `done` is the state that is reached behind the last case, null being
/// pushed there, and `fuel` the number of instructions that lead to it.
pub open spec fn falls_through(
    st: CompilerState,
    cases: Seq<Case>,
    from: int,
    jump_byte: u8,
    pending: Option<int>,
    exits: Seq<int>,
    m: Machine,
    done: Machine,
    fuel: nat,
) -> bool
    decreases cases.len() - from,
{
    if from < 0 || from >= cases.len() {
        fuel == 1 && done == m.at(m.cursor + 1).push(Value::Null)
    } else {
        exists|k: nat, tested: Machine, rest: nat|
            {
                &&& #[trigger] case_falls(
                    st,
                    cases,
                    from,
                    jump_byte,
                    pending,
                    m,
                    fuel,
                    k,
                    tested,
                    rest,
                )
                &&& falls_through(
                    case_states(st, cases, from, jump_byte, pending).s4,
                    cases,
                    from + 1,
                    jump_byte,
                    Some(case_states(st, cases, from, jump_byte, pending).s1.code().len() as int + 1),
                    exits.push(
                        case_states(st, cases, from, jump_byte, pending).s3.code().len() as int + 1,
                    ),
                    handed_over(
                        tested,
                        case_states(st, cases, from, jump_byte, pending).s4.code().len(),
                    ),
                    done,
                    rest,
                )
            }
    }
}

/// A case that is not chosen hands over to what follows it: behind its
/// conditional jump the machine stands at the start of the next case, or at
/// the instruction that pushes null, and the cases that follow are compiled
/// to the same code from there.
pub proof fn lemma_case_hands_over(
    st: CompilerState,
    cases: Seq<Case>,
    from: int,
    jump_byte: u8,
    pending: Option<int>,
    exits: Seq<int>,
    m: Machine,
    tested: Machine,
    k: nat,
)
    requires
        well_scoped(st),
        0 <= from < cases.len(),
        jump_byte == JumpNotTrue::byte() || jump_byte == JumpNotMatch::byte(),
        pending matches Some(at) ==> 0 <= at && at + 2 <= st.code().len(),
        operands_within(exits, 0, st.code().len() as int),
        apart(pending, exits),
        compile_cases(st, cases, from, jump_byte, pending, exits) is Ok,
        cases[from].condition is Some,
        compile_cases(st, cases, from, jump_byte, pending, exits)->Ok_0.code().is_prefix_of(
            m.code(),
        ),
        run(m, k) == Run::Paused(tested),
        tested.frames == m.frames,
        tested.cursor == case_states(st, cases, from, jump_byte, pending).s1.code().len(),
        tested.stack.len() > 0,
        !chooses(jump_byte, tested),
    ensures
        ({
            let states = case_states(st, cases, from, jump_byte, pending);
            let test = states.s1.code().len() as int;
            let exit = states.s3.code().len() as int;
            let next = handed_over(tested, states.s4.code().len());
            &&& run(m, k + 1) == Run::Paused(next)
            &&& well_scoped(states.s4)
            &&& 0 <= test + 1 && test + 1 + 2 <= states.s4.code().len()
            &&& operands_within(exits.push(exit + 1), 0, states.s4.code().len() as int)
            &&& apart(Some(test + 1), exits.push(exit + 1))
            &&& compile_cases(st, cases, from, jump_byte, pending, exits) == compile_cases(
                states.s4,
                cases,
                from + 1,
                jump_byte,
                Some(test + 1),
                exits.push(exit + 1),
            )
        }),
{
    let r = compile_cases(st, cases, from, jump_byte, pending, exits)->Ok_0;
    lemma_case_states(st, cases, from, jump_byte, pending, exits);
    let states = case_states(st, cases, from, jump_byte, pending);
    let s4 = states.s4;
    let test = states.s1.code().len() as int;
    let exit = states.s3.code().len() as int;
    let next_exits = exits.push(exit + 1);
    assert(operands_within(next_exits, 0, s4.code().len() as int)) by {
        assert forall|i: int| 0 <= i < next_exits.len() implies 0 <= #[trigger] next_exits[i]
            && next_exits[i] + 2 <= s4.code().len() by {
            if i < exits.len() {
                assert(next_exits[i] == exits[i]);
            }
        }
    }
    assert(apart(Some(test + 1), next_exits)) by {
        assert forall|i: int| 0 <= i < next_exits.len() implies (#[trigger] next_exits[i]) + 2
            <= test + 1 || test + 1 + 2 <= next_exits[i] by {
            if i < exits.len() {
                assert(next_exits[i] == exits[i]);
            }
        }
    }
    lemma_cases_frame(s4, cases, from + 1, jump_byte, Some(test + 1), next_exits);
    assert(outside_operands(test, Some(test + 1), next_exits)) by {
        assert forall|i: int| 0 <= i < next_exits.len() implies !(#[trigger] next_exits[i] <= test
            < next_exits[i] + 2) by {
            if i < exits.len() {
                assert(next_exits[i] == exits[i]);
            }
        }
    }
    assert(r.code()[test] == s4.code()[test]);
    assert(tested.code() == m.code());
    assert(m.code()[test] == r.code()[test]);
    assert(m.code()[test + 1] == r.code()[test + 1]);
    assert(m.code()[test + 2] == r.code()[test + 2]);
    lemma_not_chosen_jumps(
        m.code(),
        jump_byte,
        test as nat,
        s4.code().len(),
        tested,
        s4.code(),
    );
    lemma_run_one(tested);
    lemma_run_split(m, k, 1);
}

/// A switch without default yields null when no condition chooses its case.
///
/// Let the cases from position `from` on all have conditions, and let none
/// of them be chosen when the machine runs their code from the state `m`.
/// Then the machine reaches the end of the switch's code, and null lies on
/// top of its stack.
pub proof fn lemma_cases_fall_through(
    st: CompilerState,
    cases: Seq<Case>,
    from: int,
    jump_byte: u8,
    pending: Option<int>,
    exits: Seq<int>,
    m: Machine,
    done: Machine,
    fuel: nat,
)
    requires
        well_scoped(st),
        0 <= from,
        jump_byte == JumpNotTrue::byte() || jump_byte == JumpNotMatch::byte(),
        pending matches Some(at) ==> 0 <= at && at + 2 <= st.code().len(),
        operands_within(exits, 0, st.code().len() as int),
        apart(pending, exits),
        compile_cases(st, cases, from, jump_byte, pending, exits) is Ok,
        all_conditional(cases, from),
        compile_cases(st, cases, from, jump_byte, pending, exits)->Ok_0.code().is_prefix_of(
            m.code(),
        ),
        m.cursor == st.code().len(),
        falls_through(st, cases, from, jump_byte, pending, exits, m, done, fuel),
    ensures
        run(m, fuel) == Run::Paused(done),
        done.frames == m.frames,
        done.cursor == compile_cases(st, cases, from, jump_byte, pending, exits)->Ok_0.code().len(),
        done.stack.len() > 0,
        done.stack.last() == Value::Null,
    decreases cases.len() - from,
{
    if from >= cases.len() {
        lemma_null_ends(st, cases, from, jump_byte, pending, exits, m);
        lemma_run_one(m);
    } else {
        let states = case_states(st, cases, from, jump_byte, pending);
        let (k, tested, rest): (nat, Machine, nat) = choose|k: nat, tested: Machine, rest: nat|
            {
                &&& #[trigger] case_falls(
                    st,
                    cases,
                    from,
                    jump_byte,
                    pending,
                    m,
                    fuel,
                    k,
                    tested,
                    rest,
                )
                &&& falls_through(
                    case_states(st, cases, from, jump_byte, pending).s4,
                    cases,
                    from + 1,
                    jump_byte,
                    Some(case_states(st, cases, from, jump_byte, pending).s1.code().len() as int + 1),
                    exits.push(
                        case_states(st, cases, from, jump_byte, pending).s3.code().len() as int + 1,
                    ),
                    handed_over(
                        tested,
                        case_states(st, cases, from, jump_byte, pending).s4.code().len(),
                    ),
                    done,
                    rest,
                )
            };
        lemma_case_hands_over(st, cases, from, jump_byte, pending, exits, m, tested, k);
        let test = states.s1.code().len() as int;
        let exit = states.s3.code().len() as int;
        let next = handed_over(tested, states.s4.code().len());
        assert(all_conditional(cases, from + 1));
        lemma_cases_fall_through(
            states.s4,
            cases,
            from + 1,
            jump_byte,
            Some(test + 1),
            exits.push(exit + 1),
            next,
            done,
            rest,
        );
        lemma_run_split(m, k + 1, rest);
    }
}

/// Behind the last case stands the instruction that pushes null, and behind
/// it the switch ends.
pub proof fn lemma_null_ends(
    st: CompilerState,
    cases: Seq<Case>,
    from: int,
    jump_byte: u8,
    pending: Option<int>,
    exits: Seq<int>,
    m: Machine,
)
    requires
        well_scoped(st),
        from >= cases.len(),
        pending matches Some(at) ==> 0 <= at && at + 2 <= st.code().len(),
        operands_within(exits, 0, st.code().len() as int),
        apart(pending, exits),
        compile_cases(st, cases, from, jump_byte, pending, exits) is Ok,
        compile_cases(st, cases, from, jump_byte, pending, exits)->Ok_0.code().is_prefix_of(
            m.code(),
        ),
        m.cursor == st.code().len(),
    ensures
        step(m) == Step::Next(m.at(m.cursor + 1).push(Value::Null)),
        compile_cases(st, cases, from, jump_byte, pending, exits)->Ok_0.code().len() == m.cursor
            + 1,
{
    reveal(continues);
    let base = st.code().len() as int;
    let r = compile_cases(st, cases, from, jump_byte, pending, exits)->Ok_0;
    let s0 = patch_pending(st, pending);
    match pending {
        Some(at) => {
            lemma_patch(st, at, base);
        },
        None => {},
    }
    lemma_emit(s0, Null.encoding());
    let s1 = emit(s0, Null.encoding())->Ok_0;
    assert(operands_within(exits, 0, s1.code().len() as int));
    lemma_patch_all_frame(s1, exits, s1.code().len() as int);
    assert(outside_operands(base, None, exits));
    assert(r.code()[base] == s1.code()[base]);
    assert(m.code()[base] == r.code()[base]);
    assert(m.code().subrange(base, base + 1) =~= seq![Null::byte()]);
    lemma_step_narrow(m, Null::byte());
}

/// At the conditional jump of a case that is not chosen the machine takes the
/// value off the stack and jumps to the case that follows.
pub proof fn lemma_not_chosen_jumps(
    code: Seq<u8>,
    jump_byte: u8,
    test: nat,
    target: nat,
    tested: Machine,
    earlier: Seq<u8>,
)
    requires
        jump_byte == JumpNotTrue::byte() || jump_byte == JumpNotMatch::byte(),
        tested.code() == code,
        tested.cursor == test,
        tested.stack.len() > 0,
        !chooses(jump_byte, tested),
        test + 3 <= code.len(),
        target <= u16::MAX,
        code[test as int] == earlier[test as int],
        earlier[test as int] == jump_byte,
        code[test as int + 1] == be16(target as u16)[0],
        code[test as int + 2] == be16(target as u16)[1],
    ensures
        step(tested) == Step::Next(tested.with_stack(tested.stack.drop_last()).at(target)),
{
    lemma_be16_round_trip(target as u16);
    assert(code.subrange(test as int, test as int + 3) =~= seq![jump_byte] + be16(target as u16));
    lemma_step_wide(tested, jump_byte, target as u16);
}

/// A switch without subject and without default yields null when no
/// condition is truthy: the machine reaches the end of the switch's code, and
/// null lies on top of its stack.
pub proof fn lemma_bool_switch_yields_null(
    st: CompilerState,
    cases: Vec<Case>,
    m: Machine,
    done: Machine,
    fuel: nat,
)
    requires
        well_scoped(st),
        compile_expr(st, ExprST::Switch { input: None, cases }) is Ok,
        all_conditional(cases@, 0),
        compile_expr(st, ExprST::Switch { input: None, cases })->Ok_0.code().is_prefix_of(
            m.code(),
        ),
        m.cursor == st.code().len(),
        falls_through(st, cases@, 0, JumpNotTrue::byte(), None, Seq::empty(), m, done, fuel),
    ensures
        run(m, fuel) == Run::Paused(done),
        done.frames == m.frames,
        done.cursor == compile_expr(st, ExprST::Switch { input: None, cases })->Ok_0.code().len(),
        done.stack.len() > 0,
        done.stack.last() == Value::Null,
{
    let node = ExprST::Switch { input: None, cases };
    assert(compile_expr(st, node) == compile_cases(
        st,
        cases@,
        0,
        JumpNotTrue::byte(),
        None,
        Seq::empty(),
    ));
    lemma_cases_fall_through(
        st,
        cases@,
        0,
        JumpNotTrue::byte(),
        None,
        Seq::empty(),
        m,
        done,
        fuel,
    );
}

/// A switch with a subject and without default yields null when no condition
/// equals the subject.
///
/// Let the machine stand behind `PushMatch`, at the first case, and let none
/// of the cases be chosen. Then the machine reaches the end of the switch's
/// code, behind `PopMatch`; the subject is off the match stack, and null lies
/// on top of the operand stack.
pub proof fn lemma_match_switch_yields_null(
    st: CompilerState,
    subject: ExprST,
    cases: Vec<Case>,
    m: Machine,
    done: Machine,
    fuel: nat,
)
    requires
        well_scoped(st),
        compile_expr(st, ExprST::Switch { input: Some(Box::new(subject)), cases }) is Ok,
        all_conditional(cases@, 0),
        compile_expr(
            st,
            ExprST::Switch { input: Some(Box::new(subject)), cases },
        )->Ok_0.code().is_prefix_of(m.code()),
        m.cursor == st.code().len() + code_size(subject) + 1,
        falls_through(
            emit(compile_expr(st, subject)->Ok_0, PushMatch.encoding())->Ok_0,
            cases@,
            0,
            JumpNotMatch::byte(),
            None,
            Seq::empty(),
            m,
            done,
            fuel,
        ),
    ensures
        ({
            let end = compile_expr(
                st,
                ExprST::Switch { input: Some(Box::new(subject)), cases },
            )->Ok_0.code().len();
            let after = op_pop_match(done.at(end))->Next_0;
            &&& run(m, fuel + 1) == Run::Paused(after)
            &&& after.cursor == end
            &&& after.frames == m.frames
            &&& after.stack == done.stack
            &&& after.stack.len() > 0
            &&& after.stack.last() == Value::Null
        }),
{
    reveal(continues);
    let node = ExprST::Switch { input: Some(Box::new(subject)), cases };
    let r = compile_expr(st, node)->Ok_0;
    lemma_compile_expr(st, subject);
    let s1 = compile_expr(st, subject)->Ok_0;
    lemma_emit(s1, PushMatch.encoding());
    let s2 = emit(s1, PushMatch.encoding())->Ok_0;
    let compiled = compile_cases(s2, cases@, 0, JumpNotMatch::byte(), None, Seq::empty());
    let s3 = compiled->Ok_0;
    crate::compiler::layout::lemma_compile_cases(
        s2,
        cases@,
        0,
        JumpNotMatch::byte(),
        None,
        Seq::empty(),
        s2.code().len() as int,
    );
    lemma_emit(s3, PopMatch.encoding());
    assert(r == emit(s3, PopMatch.encoding())->Ok_0);
    assert(s3.code().is_prefix_of(m.code())) by {
        assert(s3.code() =~= m.code().subrange(0, s3.code().len() as int)) by {
            assert(r.code() =~= m.code().subrange(0, r.code().len() as int));
        }
    }
    lemma_cases_fall_through(
        s2,
        cases@,
        0,
        JumpNotMatch::byte(),
        None,
        Seq::empty(),
        m,
        done,
        fuel,
    );
    let at = s3.code().len() as int;
    assert(done.code().subrange(at, at + 1) =~= PopMatch.encoding()) by {
        assert(r.code() =~= m.code().subrange(0, r.code().len() as int));
        assert(r.code()[at] == PopMatch.encoding()[0]);
        assert(m.code()[at] == r.code()[at]);
    }
    lemma_step_pop_match(done);
    lemma_run_one(done);
    lemma_run_split(m, fuel, 1);
}

} // verus!
