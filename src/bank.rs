//! Reports of pin operations, and a simulated bank of pins on which a plan can
//! be run: the model against which reads after writes are stated.
use vstd::prelude::*;
use crate::pins::{Op, PinState, PIN_COUNT};

verus! {

/// One line of output of a pin operation.
#[derive(Clone, Copy, Debug, PartialEq, Eq, Structural)]
pub enum Report {
    /// A read of `pin` returned `state`.
    Level { pin: u8, state: PinState },
    /// A read of `pin` failed; this does not stop the invocation.
    Unreadable { pin: u8 },
    /// `pin` is being driven to `state`.
    Driven { pin: u8, state: PinState },
}

pub open spec fn report_of_read(pin: u8, outcome: Option<PinState>) -> Report {
    match outcome {
        Some(state) => Report::Level { pin, state },
        None => Report::Unreadable { pin },
    }
}

/// The report of a read of `pin`, from what the read returned (`None`: it failed).
pub fn read_report(pin: u8, outcome: Option<PinState>) -> (r: Report)
    ensures
        r == report_of_read(pin, outcome),
{
    match outcome {
        Some(state) => Report::Level { pin, state },
        None => Report::Unreadable { pin },
    }
}

/// The level of `pin` in a bank's levels; `None` where it cannot be read.
pub open spec fn level_at(levels: Seq<Option<PinState>>, pin: u8) -> Option<PinState> {
    if (pin as int) < levels.len() {
        levels[pin as int]
    } else {
        None
    }
}

/// Runs operations on a bank with the given levels: the levels afterwards and
/// the reports, in order. A write sets the level of its pin; a read reports it.
pub open spec fn run_ops(levels: Seq<Option<PinState>>, ops: Seq<Op>) -> (
    Seq<Option<PinState>>,
    Seq<Report>,
)
    decreases ops.len(),
{
    if ops.len() == 0 {
        (levels, seq![])
    } else {
        let (l, reports) = run_ops(levels, ops.drop_last());
        match ops.last() {
            Op::Read { pin } => (l, reports.push(report_of_read(pin, level_at(l, pin)))),
            Op::Write { pin, state } => (
                if (pin as int) < l.len() {
                    l.update(pin as int, Some(state))
                } else {
                    l
                },
                reports.push(Report::Driven { pin, state }),
            ),
            _ => (l, reports),
        }
    }
}

/// A simulated bank of `PIN_COUNT` pins. A pin that was never written has no
/// level that can be read.
pub struct PinBank {
    levels: Vec<Option<PinState>>,
}

impl View for PinBank {
    type V = Seq<Option<PinState>>;

    closed spec fn view(&self) -> Seq<Option<PinState>> {
        self.levels@
    }
}

impl PinBank {
    pub closed spec fn wf(&self) -> bool {
        self.levels@.len() == PIN_COUNT
    }

    /// A bank where no pin can be read yet.
    pub fn new() -> (r: PinBank)
        ensures
            r.wf(),
            r@ == Seq::new(PIN_COUNT as nat, |i: int| None::<PinState>),
            r@.len() == PIN_COUNT,
    {
        let mut levels: Vec<Option<PinState>> = Vec::new();
        let mut i: u8 = 0;
        while i < PIN_COUNT
            invariant
                i <= PIN_COUNT,
                levels@ == Seq::new(i as nat, |j: int| None::<PinState>),
            decreases PIN_COUNT - i,
        {
            levels.push(None);
            i = i + 1;
        }
        PinBank { levels }
    }

    /// The level that a read of `pin` would return now.
    pub fn level(&self, pin: u8) -> (r: Option<PinState>)
        requires
            self.wf(),
        ensures
            r == level_at(self@, pin),
    {
        if pin < PIN_COUNT {
            self.levels[pin as usize]
        } else {
            None
        }
    }

    /// Performs `ops` on the bank and returns the reports they produce.
    pub fn run(&mut self, ops: &Vec<Op>) -> (r: Vec<Report>)
        requires
            old(self).wf(),
        ensures
            final(self).wf(),
            final(self)@ == run_ops(old(self)@, ops@).0,
            r@ == run_ops(old(self)@, ops@).1,
    {
        let ghost start = self@;
        let mut reports: Vec<Report> = Vec::new();
        let mut i: usize = 0;
        while i < ops.len()
            invariant
                i <= ops@.len(),
                self.wf(),
                start == old(self)@,
                (self@, reports@) == run_ops(start, ops@.take(i as int)),
            decreases ops@.len() - i,
        {
            assert(ops@.take(i + 1).drop_last() == ops@.take(i as int));
            match ops[i] {
                Op::Read { pin } => {
                    let outcome = self.level(pin);
                    reports.push(read_report(pin, outcome));
                },
                Op::Write { pin, state } => {
                    if pin < PIN_COUNT {
                        self.levels.set(pin as usize, Some(state));
                    }
                    reports.push(Report::Driven { pin, state });
                },
                _ => {},
            }
            i = i + 1;
        }
        assert(ops@.take(ops@.len() as int) == ops@);
        reports
    }
}

} // verus!
