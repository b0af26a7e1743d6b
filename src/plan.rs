//! The command dispatcher and the read and set flows. An invocation is turned
//! into a plan: the pin operations to perform, in order, and how the
//! invocation ends once they are done.
use vstd::prelude::*;
use crate::token::matches_word;
use crate::pins::{
    checked_pin, parse_pin_token, pin_of, resolve_state, result_view,
    selector_of, state_of, Access, CommandError, Fault, Op, PinMode, PinSelector, PinState,
    PIN_COUNT,
};

verus! {

/// The tokens of a command line as character sequences.
pub open spec fn words(v: Seq<String>) -> Seq<Seq<char>> {
    v.map_values(|s: String| s@)
}

/// The operations for one pin: set its direction, then read or write it.
pub open spec fn pin_ops(pin: u8, access: Access) -> Seq<Op> {
    match access {
        Access::Read => seq![Op::SetMode { pin, mode: PinMode::Input }, Op::Read { pin }],
        Access::Write(state) => seq![
            Op::SetMode { pin, mode: PinMode::Output },
            Op::Write { pin, state },
        ],
    }
}

/// The operations for pins `0..k`, in ascending order.
pub open spec fn first_pins_ops(k: nat, access: Access) -> Seq<Op>
    decreases k,
{
    if k == 0 {
        seq![]
    } else {
        first_pins_ops((k - 1) as nat, access) + pin_ops((k - 1) as u8, access)
    }
}

/// The operations for every pin, `0..=LAST_PIN_NUMBER` ascending.
pub open spec fn all_pins_ops(access: Access) -> Seq<Op> {
    first_pins_ops(PIN_COUNT as nat, access)
}

/// The operations for a list of pin tokens, in order, up to the first token
/// that names no valid pin; that token ends the list with a fault.
pub open spec fn listed_pins(tokens: Seq<Seq<char>>, access: Access) -> (Seq<Op>, Result<(), Fault>)
    decreases tokens.len(),
{
    if tokens.len() == 0 {
        (seq![], Ok(()))
    } else {
        let (ops, res) = listed_pins(tokens.drop_last(), access);
        if res is Err {
            (ops, res)
        } else {
            match pin_of(tokens.last()) {
                Some(n) => (ops + pin_ops(n, access), Ok(())),
                None => (ops, Err(Fault::InvalidPinToken(tokens.last()))),
            }
        }
    }
}

/// The pin list of `get` or `set`: `all` first covers every pin and ends the
/// list; otherwise each token names one pin.
pub open spec fn pins_flow(tokens: Seq<Seq<char>>, access: Access) -> (Seq<Op>, Result<(), Fault>) {
    if tokens.len() == 0 {
        (seq![], Err(Fault::MissingPin))
    } else if selector_of(tokens[0]) == Ok::<PinSelector, Fault>(PinSelector::All) {
        (all_pins_ops(access), Ok(()))
    } else {
        listed_pins(tokens, access)
    }
}

/// `get` with the tokens after it.
pub open spec fn get_flow(tokens: Seq<Seq<char>>) -> (Seq<Op>, Result<(), Fault>) {
    let (ops, res) = pins_flow(tokens, Access::Read);
    (seq![Op::Open { revert_on_close: true }] + ops, res)
}

/// `set` with the tokens after it: the state token comes first and is
/// resolved before any pin token is looked at.
pub open spec fn set_flow(tokens: Seq<Seq<char>>) -> (Seq<Op>, Result<(), Fault>) {
    let open = seq![Op::Open { revert_on_close: false }];
    match state_of(if tokens.len() > 0 { Some(tokens[0]) } else { None }) {
        Err(f) => (open, Err(f)),
        Ok(state) => {
            let (ops, res) = pins_flow(tokens.drop_first(), Access::Write(state));
            (open + ops, res)
        },
    }
}

/// What an invocation with the given arguments (program name excluded) does:
/// whether it shows the help text, the pin operations, and how it ends.
pub open spec fn invocation(args: Seq<Seq<char>>) -> (bool, Seq<Op>, Result<(), Fault>) {
    if args.len() == 0 {
        (false, seq![], Err(Fault::MissingCommand))
    } else if args[0] == "help"@ {
        (true, seq![], Ok(()))
    } else if args[0] == "set"@ {
        let (ops, res) = set_flow(args.drop_first());
        (false, ops, res)
    } else if args[0] == "get"@ {
        let (ops, res) = get_flow(args.drop_first());
        (false, ops, res)
    } else {
        (false, seq![], Err(Fault::UnknownCommand(args[0])))
    }
}

/// The plan of one invocation.
pub struct Plan {
    /// The help text is to be shown.
    pub help: bool,
    /// Operations to perform on the GPIO controller, in order.
    pub ops: Vec<Op>,
    /// `Ok` where the invocation succeeds once `ops` are done; else the fatal
    /// error to report after them.
    pub outcome: Result<(), CommandError>,
}

impl View for Plan {
    type V = (bool, Seq<Op>, Result<(), Fault>);

    open spec fn view(&self) -> Self::V {
        (self.help, self.ops@, result_view(self.outcome))
    }
}

/// Once the list of pin tokens has failed at a prefix, more tokens change nothing.
proof fn lemma_listed_stops(tokens: Seq<Seq<char>>, j: int, access: Access)
    requires
        0 <= j <= tokens.len(),
        listed_pins(tokens.take(j), access).1 is Err,
    ensures
        listed_pins(tokens, access) == listed_pins(tokens.take(j), access),
    decreases tokens.len(),
{
    if j < tokens.len() {
        assert(tokens.drop_last().take(j) == tokens.take(j));
        lemma_listed_stops(tokens.drop_last(), j, access);
    } else {
        assert(tokens.take(j) == tokens);
    }
}

/// Appends the operations for one pin.
pub fn push_pin_ops(ops: &mut Vec<Op>, pin: u8, access: Access)
    ensures
        final(ops)@ == old(ops)@ + pin_ops(pin, access),
{
    match access {
        Access::Read => {
            ops.push(Op::SetMode { pin, mode: PinMode::Input });
            ops.push(Op::Read { pin });
        },
        Access::Write(state) => {
            ops.push(Op::SetMode { pin, mode: PinMode::Output });
            ops.push(Op::Write { pin, state });
        },
    }
}

/// Appends the operations for every pin, in ascending order.
pub fn push_all_pins_ops(ops: &mut Vec<Op>, access: Access)
    ensures
        final(ops)@ == old(ops)@ + all_pins_ops(access),
{
    let ghost start = ops@;
    let mut pin: u8 = 0;
    while pin < PIN_COUNT
        invariant
            pin <= PIN_COUNT,
            ops@ == start + first_pins_ops(pin as nat, access),
        decreases PIN_COUNT - pin,
    {
        push_pin_ops(ops, pin, access);
        assert(start + first_pins_ops((pin + 1) as nat, access) == start + first_pins_ops(
            pin as nat,
            access,
        ) + pin_ops(pin, access));
        pin = pin + 1;
    }
}

/// Appends the operations for the pin tokens `tokens[from..]`, in order, and
/// stops at the first token that names no valid pin.
pub fn push_listed_pins(ops: &mut Vec<Op>, tokens: &Vec<String>, from: usize, access: Access) -> (r:
    Result<(), CommandError>)
    requires
        from <= tokens@.len(),
    ensures
        final(ops)@ == old(ops)@ + listed_pins(
            words(tokens@).subrange(from as int, tokens@.len() as int),
            access,
        ).0,
        result_view(r) == listed_pins(
            words(tokens@).subrange(from as int, tokens@.len() as int),
            access,
        ).1,
{
    let ghost start = ops@;
    let ghost w = words(tokens@);
    let n = tokens.len();
    let mut i: usize = from;
    assert(w.subrange(from as int, from as int) == Seq::<Seq<char>>::empty());
    while i < n
        invariant
            from <= i <= n,
            n == tokens@.len(),
            w == words(tokens@),
            start == old(ops)@,
            ops@ == start + listed_pins(w.subrange(from as int, i as int), access).0,
            listed_pins(w.subrange(from as int, i as int), access).1 == Ok::<(), Fault>(()),
        decreases n - i,
    {
        let ghost prefix = w.subrange(from as int, i + 1);
        assert(prefix.drop_last() == w.subrange(from as int, i as int));
        assert(prefix.last() == tokens@[i as int]@);
        match checked_pin(tokens[i].as_str()) {
            Ok(pin) => {
                push_pin_ops(ops, pin, access);
                assert(start + listed_pins(prefix, access).0 == start + listed_pins(
                    w.subrange(from as int, i as int),
                    access,
                ).0 + pin_ops(pin, access));
            },
            Err(e) => {
                proof {
                    let all = w.subrange(from as int, n as int);
                    assert(all.take(i + 1 - from) == prefix);
                    lemma_listed_stops(all, i + 1 - from, access);
                }
                return Err(e);
            },
        }
        i = i + 1;
    }
    Ok(())
}

/// Appends the operations for the pin list `tokens[from..]` of `get` or `set`.
pub fn push_pins_flow(ops: &mut Vec<Op>, tokens: &Vec<String>, from: usize, access: Access) -> (r:
    Result<(), CommandError>)
    requires
        from <= tokens@.len(),
    ensures
        final(ops)@ == old(ops)@ + pins_flow(
            words(tokens@).subrange(from as int, tokens@.len() as int),
            access,
        ).0,
        result_view(r) == pins_flow(
            words(tokens@).subrange(from as int, tokens@.len() as int),
            access,
        ).1,
{
    let ghost rest = words(tokens@).subrange(from as int, tokens@.len() as int);
    if from == tokens.len() {
        return Err(CommandError::MissingPin);
    }
    assert(rest[0] == tokens@[from as int]@);
    match parse_pin_token(tokens[from].as_str()) {
        Ok(PinSelector::All) => {
            push_all_pins_ops(ops, access);
            Ok(())
        },
        _ => push_listed_pins(ops, tokens, from, access),
    }
}

/// The `get` command, with `args[from..]` the tokens after it.
pub fn read_pins(args: &Vec<String>, from: usize) -> (r: Plan)
    requires
        from <= args@.len(),
    ensures
        r@ == (false, get_flow(words(args@).subrange(from as int, args@.len() as int)).0, get_flow(
            words(args@).subrange(from as int, args@.len() as int),
        ).1),
{
    let mut ops: Vec<Op> = Vec::new();
    ops.push(Op::Open { revert_on_close: true });
    let outcome = push_pins_flow(&mut ops, args, from, Access::Read);
    Plan { help: false, ops, outcome }
}

/// The `set` command, with `args[from..]` the tokens after it: a state token,
/// then the pin list.
pub fn set_pins(args: &Vec<String>, from: usize) -> (r: Plan)
    requires
        from <= args@.len(),
    ensures
        r@ == (false, set_flow(words(args@).subrange(from as int, args@.len() as int)).0, set_flow(
            words(args@).subrange(from as int, args@.len() as int),
        ).1),
{
    let ghost rest = words(args@).subrange(from as int, args@.len() as int);
    let mut ops: Vec<Op> = Vec::new();
    ops.push(Op::Open { revert_on_close: false });
    let token = if from < args.len() {
        assert(rest[0] == args@[from as int]@);
        Some(args[from].as_str())
    } else {
        None
    };
    match resolve_state(token) {
        Err(e) => Plan { help: false, ops, outcome: Err(e) },
        Ok(state) => {
            assert(rest.drop_first() == words(args@).subrange(from + 1, args@.len() as int));
            let outcome = push_pins_flow(&mut ops, args, from + 1, Access::Write(state));
            Plan { help: false, ops, outcome }
        },
    }
}

/// Interprets a command line, program name excluded: `help`, `get` with its
/// pin list, or `set` with its state and pin list.
pub fn plan_invocation(args: &Vec<String>) -> (r: Plan)
    ensures
        r@ == invocation(words(args@)),
{
    let ghost w = words(args@);
    if args.len() == 0 {
        return Plan { help: false, ops: Vec::new(), outcome: Err(CommandError::MissingCommand) };
    }
    assert(w[0] == args@[0]@);
    assert(w.drop_first() == w.subrange(1, w.len() as int));
    let verb = args[0].as_str();
    if matches_word(verb, "help") {
        Plan { help: true, ops: Vec::new(), outcome: Ok(()) }
    } else if matches_word(verb, "set") {
        set_pins(args, 1)
    } else if matches_word(verb, "get") {
        read_pins(args, 1)
    } else {
        Plan {
            help: false,
            ops: Vec::new(),
            outcome: Err(CommandError::UnknownCommand(verb.to_owned())),
        }
    }
}

} // verus!
