//! Properties of whole invocations, stated over their plans and over runs of
//! those plans on a simulated pin bank.
use vstd::prelude::*;
use crate::bank::{report_of_read, run_ops, Report};
use crate::pins::{Access, Fault, Op, PinMode, PinState, LAST_PIN_NUMBER, PIN_COUNT};
use crate::plan::{all_pins_ops, first_pins_ops, invocation, pin_ops};
use crate::token::{is_digit, u8_of};

verus! {

/// The state token that asks `set` for `state`.
pub open spec fn state_word(state: PinState) -> Seq<char> {
    match state {
        PinState::High => "high"@,
        PinState::Low => "low"@,
    }
}

proof fn lemma_words()
    ensures
        "help"@ != "set"@,
        "help"@ != "get"@,
        "set"@ != "get"@,
        "high"@ != "low"@,
        u8_of("all"@) is None,
{
    reveal_strlit("help");
    reveal_strlit("set");
    reveal_strlit("get");
    reveal_strlit("high");
    reveal_strlit("low");
    reveal_strlit("all");
    assert("help"@[0] != "set"@[0]);
    assert("help"@[0] != "get"@[0]);
    assert("set"@[0] != "get"@[0]);
    assert("high"@[0] != "low"@[0]);
    assert(!is_digit("all"@[0]));
}

/// Running `a + b` is running `a`, then `b` from where `a` left the bank.
proof fn lemma_run_concat(levels: Seq<Option<PinState>>, a: Seq<Op>, b: Seq<Op>)
    ensures
        run_ops(levels, a + b).0 == run_ops(run_ops(levels, a).0, b).0,
        run_ops(levels, a + b).1 == run_ops(levels, a).1 + run_ops(run_ops(levels, a).0, b).1,
    decreases b.len(),
{
    if b.len() == 0 {
        assert(a + b == a);
        assert(run_ops(levels, a).1 + run_ops(run_ops(levels, a).0, b).1 == run_ops(levels, a).1);
    } else {
        assert((a + b).drop_last() == a + b.drop_last());
        assert((a + b).last() == b.last());
        lemma_run_concat(levels, a, b.drop_last());
        let r1 = run_ops(levels, a).1;
        let r2 = run_ops(run_ops(levels, a).0, b.drop_last()).1;
        assert forall|x: Report| (r1 + r2).push(x) == r1 + r2.push(x) by {
            assert((r1 + r2).push(x) =~= r1 + r2.push(x));
        }
    }
}

/// The operations for pins `0..k` hold, for each such pin `p` in ascending
/// order, its two operations at positions `2p` and `2p + 1`.
proof fn lemma_first_pins_ops(k: nat, access: Access)
    requires
        k <= PIN_COUNT,
    ensures
        first_pins_ops(k, access).len() == 2 * k,
        forall|p: u8|
            (p as int) < k ==> first_pins_ops(k, access)[2 * p] == #[trigger] pin_ops(p, access)[0]
                && first_pins_ops(k, access)[2 * p + 1] == pin_ops(p, access)[1],
    decreases k,
{
    if k > 0 {
        lemma_first_pins_ops((k - 1) as nat, access);
    }
}

/// Reading pins `0..k` leaves the levels as they are and reports each pin in
/// ascending order, whether its read succeeds or fails.
proof fn lemma_read_first_pins(levels: Seq<Option<PinState>>, k: nat)
    requires
        levels.len() == PIN_COUNT,
        k <= PIN_COUNT,
    ensures
        run_ops(levels, first_pins_ops(k, Access::Read)) == (
            levels,
            Seq::new(k, |p: int| report_of_read(p as u8, levels[p])),
        ),
    decreases k,
{
    if k > 0 {
        let j = (k - 1) as nat;
        lemma_read_first_pins(levels, j);
        lemma_run_concat(levels, first_pins_ops(j, Access::Read), pin_ops(j as u8, Access::Read));
        let two = pin_ops(j as u8, Access::Read);
        assert(two.drop_last().drop_last() == Seq::<Op>::empty());
        assert(run_ops(levels, two.drop_last().drop_last()) == (levels, Seq::<Report>::empty()));
        assert(run_ops(levels, two.drop_last()) == (levels, Seq::<Report>::empty()));
        assert(Seq::<Report>::empty().push(report_of_read(j as u8, levels[j as int])) == seq![
            report_of_read(j as u8, levels[j as int]),
        ]);
        assert(run_ops(levels, two) == (levels, seq![report_of_read(j as u8, levels[j as int])]));
        assert(Seq::new(j, |p: int| report_of_read(p as u8, levels[p])) + seq![
            report_of_read(j as u8, levels[j as int]),
        ] =~= Seq::new(k, |p: int| report_of_read(p as u8, levels[p])));
    }
}

/// The pin list made of one token that names a valid pin.
proof fn lemma_single_pin(token: Seq<char>, pin: u8, access: Access)
    requires
        u8_of(token) == Some(pin),
        pin <= LAST_PIN_NUMBER,
    ensures
        crate::plan::pins_flow(seq![token], access) == (pin_ops(pin, access), Ok::<(), Fault>(())),
{
    lemma_words();
    assert(token != "all"@);
    let one = seq![token];
    assert(one.drop_last() == Seq::<Seq<char>>::empty());
    assert(crate::plan::listed_pins(one.drop_last(), access) == (
        Seq::<Op>::empty(),
        Ok::<(), Fault>(()),
    ));
    assert(Seq::<Op>::empty() + pin_ops(pin, access) == pin_ops(pin, access));
}

/// `help`, whatever follows it, shows the help text, requests nothing of the
/// GPIO controller, and succeeds.
pub proof fn help_touches_no_pin(rest: Seq<Seq<char>>)
    ensures
        invocation(seq!["help"@] + rest) == (true, Seq::<Op>::empty(), Ok::<(), Fault>(())),
{
    assert((seq!["help"@] + rest)[0] == "help"@);
}

/// `set` with a state token other than `high` or `low` fails with that token
/// as an invalid state, whatever pin tokens follow, before any pin operation.
pub proof fn invalid_state_stops_set(token: Seq<char>, rest: Seq<Seq<char>>)
    requires
        token != "high"@,
        token != "low"@,
    ensures
        invocation(seq!["set"@, token] + rest) == (
            false,
            seq![(Op::Open { revert_on_close: false })],
            Err::<(), Fault>(Fault::InvalidState(token)),
        ),
{
    lemma_words();
    let args = seq!["set"@, token] + rest;
    assert(args[0] == "set"@);
    assert(args.drop_first()[0] == token);
}

/// `get all` opens the controller, then for every pin in ascending order sets
/// it to input and reads it, and succeeds.
pub proof fn get_all_reads_every_pin()
    ensures
        invocation(seq!["get"@, "all"@]) == (
            false,
            seq![(Op::Open { revert_on_close: true })] + all_pins_ops(Access::Read),
            Ok::<(), Fault>(()),
        ),
        all_pins_ops(Access::Read).len() == 2 * PIN_COUNT,
        forall|p: u8|
            p <= LAST_PIN_NUMBER ==> all_pins_ops(Access::Read)[2 * p] == (Op::SetMode {
                pin: p,
                mode: PinMode::Input,
            }) && all_pins_ops(Access::Read)[2 * p + 1] == (Op::Read { pin: p }),
{
    lemma_words();
    let args = seq!["get"@, "all"@];
    assert(args.drop_first() == seq!["all"@]);
    lemma_first_pins_ops(PIN_COUNT as nat, Access::Read);
    assert forall|p: u8| p <= LAST_PIN_NUMBER implies all_pins_ops(Access::Read)[2 * p] == Op::SetMode {
        pin: p,
        mode: PinMode::Input,
    } && all_pins_ops(Access::Read)[2 * p + 1] == Op::Read { pin: p } by {
        assert(pin_ops(p, Access::Read)[0] == Op::SetMode { pin: p, mode: PinMode::Input });
    }
}

/// Run on any bank, `get all` gives exactly one report per pin, in ascending
/// order, also for pins whose read fails, and changes no level.
pub proof fn get_all_reports_every_pin(levels: Seq<Option<PinState>>)
    requires
        levels.len() == PIN_COUNT,
    ensures
        run_ops(levels, invocation(seq!["get"@, "all"@]).1) == (
            levels,
            Seq::new(PIN_COUNT as nat, |p: int| report_of_read(p as u8, levels[p])),
        ),
{
    get_all_reads_every_pin();
    let open = seq![Op::Open { revert_on_close: true }];
    lemma_run_concat(levels, open, all_pins_ops(Access::Read));
    assert(open.drop_last() == Seq::<Op>::empty());
    assert(run_ops(levels, open.drop_last()) == (levels, Seq::<Report>::empty()));
    assert(run_ops(levels, open) == (levels, Seq::<Report>::empty()));
    lemma_read_first_pins(levels, PIN_COUNT as nat);
    assert(Seq::<Report>::empty() + Seq::new(
        PIN_COUNT as nat,
        |p: int| report_of_read(p as u8, levels[p]),
    ) == Seq::new(PIN_COUNT as nat, |p: int| report_of_read(p as u8, levels[p])));
}

/// `set <state> all` opens the controller so that pins keep their levels after
/// it is released, then for every pin in ascending order sets it to output and
/// drives it to `state`, and succeeds.
pub proof fn set_all_drives_every_pin(state: PinState)
    ensures
        invocation(seq!["set"@, state_word(state), "all"@]) == (
            false,
            seq![(Op::Open { revert_on_close: false })] + all_pins_ops(Access::Write(state)),
            Ok::<(), Fault>(()),
        ),
        all_pins_ops(Access::Write(state)).len() == 2 * PIN_COUNT,
        forall|p: u8|
            p <= LAST_PIN_NUMBER ==> all_pins_ops(Access::Write(state))[2 * p] == (Op::SetMode {
                pin: p,
                mode: PinMode::Output,
            }) && all_pins_ops(Access::Write(state))[2 * p + 1] == (Op::Write { pin: p, state }),
{
    lemma_words();
    let args = seq!["set"@, state_word(state), "all"@];
    assert(args.drop_first() == seq![state_word(state), "all"@]);
    assert(args.drop_first().drop_first() == seq!["all"@]);
    lemma_first_pins_ops(PIN_COUNT as nat, Access::Write(state));
    assert forall|p: u8| p <= LAST_PIN_NUMBER implies all_pins_ops(Access::Write(state))[2 * p]
        == Op::SetMode { pin: p, mode: PinMode::Output } && all_pins_ops(Access::Write(state))[2 * p
        + 1] == Op::Write { pin: p, state } by {
        assert(pin_ops(p, Access::Write(state))[0] == Op::SetMode { pin: p, mode: PinMode::Output });
    }
}

/// On any bank, `set <state> <pin>` followed by `get <pin>` reports that pin
/// at `state`; both succeed.
pub proof fn set_then_get_round_trip(
    levels: Seq<Option<PinState>>,
    state: PinState,
    token: Seq<char>,
    pin: u8,
)
    requires
        levels.len() == PIN_COUNT,
        u8_of(token) == Some(pin),
        pin <= LAST_PIN_NUMBER,
    ensures
        invocation(seq!["set"@, state_word(state), token]).2 == Ok::<(), Fault>(()),
        invocation(seq!["get"@, token]).2 == Ok::<(), Fault>(()),
        run_ops(
            run_ops(levels, invocation(seq!["set"@, state_word(state), token]).1).0,
            invocation(seq!["get"@, token]).1,
        ).1 == seq![(Report::Level { pin, state })],
{
    lemma_words();
    lemma_single_pin(token, pin, Access::Write(state));
    lemma_single_pin(token, pin, Access::Read);
    let set_args = seq!["set"@, state_word(state), token];
    let get_args = seq!["get"@, token];
    assert(set_args.drop_first() == seq![state_word(state), token]);
    assert(set_args.drop_first().drop_first() == seq![token]);
    assert(get_args.drop_first() == seq![token]);
    assert(crate::pins::state_of(Some(state_word(state))) == Ok::<PinState, Fault>(state));
    let set_ops = seq![(Op::Open { revert_on_close: false })] + pin_ops(pin, Access::Write(state));
    let get_ops = seq![(Op::Open { revert_on_close: true })] + pin_ops(pin, Access::Read);
    assert(invocation(set_args).1 == set_ops);
    assert(invocation(get_args).1 == get_ops);
    let after = levels.update(pin as int, Some(state));
    assert(set_ops.drop_last().drop_last().drop_last() == Seq::<Op>::empty());
    assert(run_ops(levels, set_ops.drop_last().drop_last().drop_last()) == (
        levels,
        Seq::<Report>::empty(),
    ));
    assert(run_ops(levels, set_ops.drop_last().drop_last()).0 == levels);
    assert(run_ops(levels, set_ops.drop_last()).0 == levels);
    assert(run_ops(levels, set_ops).0 == after);
    assert(get_ops.drop_last().drop_last().drop_last() == Seq::<Op>::empty());
    assert(run_ops(after, get_ops.drop_last().drop_last().drop_last()) == (
        after,
        Seq::<Report>::empty(),
    ));
    assert(run_ops(after, get_ops.drop_last().drop_last()) == (after, Seq::<Report>::empty()));
    assert(run_ops(after, get_ops.drop_last()) == (after, Seq::<Report>::empty()));
    assert(Seq::<Report>::empty().push(Report::Level { pin, state }) == seq![
        (Report::Level { pin, state }),
    ]);
}

} // verus!
