use vstd::prelude::*;

use vstd::arithmetic::div_mod::{lemma_mod_add_multiples_vanish, lemma_small_mod};

use crate::pilot::wire_text;
use crate::program::Action;
use crate::wizard::{address_text, bulb_address};

verus! {

/// The name of the local endpoint on which the daemon takes control messages.
pub const DAEMONNAME: &'static str = "wizarddaemon";

/// A control message for the daemon.
#[derive(Clone, Debug)]
pub enum Msg {
    Stop,
    Run(Vec<Action>, String),
    /// A message that arrived but could not be understood.
    Ignore,
}

/// The value of a control message.
pub ghost enum Control {
    Stop,
    Run(Seq<Action>, Seq<char>),
    Ignore,
}

impl View for Msg {
    type V = Control;

    open spec fn view(&self) -> Control {
        match self {
            Msg::Stop => Control::Stop,
            Msg::Run(program, ip) => Control::Run(program@, ip@),
            Msg::Ignore => Control::Ignore,
        }
    }
}

/// The value of a message that may have arrived.
pub open spec fn control_of(m: Option<Msg>) -> Option<Control> {
    match m {
        Some(msg) => Some(msg@),
        None => None,
    }
}

/// The state of the program scheduler.
pub ghost enum SchedState {
    /// No program.
    Idle,
    /// Replaying `program` against the bulb at `ip`; `cursor` is the position
    /// of the next action, taken from the start again once past the end.
    Running { program: Seq<Action>, cursor: nat, ip: Seq<char> },
    /// Stopped for good.
    Terminated,
}

/// The state once a message, if any, is taken in: `Stop` ends the scheduler,
/// `Run` replaces whatever ran with the new program from its start.
pub open spec fn on_message(s: SchedState, m: Option<Control>) -> SchedState {
    match s {
        SchedState::Terminated => SchedState::Terminated,
        _ => match m {
            Some(Control::Stop) => SchedState::Terminated,
            Some(Control::Run(program, ip)) => SchedState::Running { program, cursor: 0, ip },
            _ => s,
        },
    }
}

/// The position of the action that runs next: past the end wraps to the start.
pub open spec fn slot(cursor: nat, len: nat) -> nat {
    if cursor >= len {
        0
    } else {
        cursor
    }
}

/// The action that one tick performs, with the address of the bulb it is for.
pub open spec fn performed(s: SchedState, m: Option<Control>) -> Option<(Action, Seq<char>)> {
    match on_message(s, m) {
        SchedState::Running { program, cursor, ip } => if program.len() > 0 {
            Some((program[slot(cursor, program.len()) as int], ip))
        } else {
            None
        },
        _ => None,
    }
}

/// The state after one tick.
pub open spec fn next_state(s: SchedState, m: Option<Control>) -> SchedState {
    match on_message(s, m) {
        SchedState::Running { program, cursor, ip } => if program.len() > 0 {
            SchedState::Running { program, cursor: slot(cursor, program.len()) + 1, ip }
        } else {
            on_message(s, m)
        },
        t => t,
    }
}

/// The actions performed over a run of ticks, one entry per tick, each tick
/// taking in the message at its position.
pub open spec fn run(s: SchedState, msgs: Seq<Option<Control>>) -> Seq<Option<(Action, Seq<char>)>>
    decreases msgs.len(),
{
    if msgs.len() == 0 {
        Seq::empty()
    } else {
        seq![performed(s, msgs[0])] + run(next_state(s, msgs[0]), msgs.subrange(1, msgs.len() as int))
    }
}

/// What the daemon must do after a tick.
#[derive(Debug, PartialEq, Eq)]
pub enum Effect {
    /// Nothing runs: wait for the next message.
    Wait,
    /// Block for this many seconds.
    Pause(u64),
    /// Send the payload, as one datagram, to the address `ip:port`.
    Send(String, String),
    /// The scheduler has stopped: leave the loop.
    Halt,
}

/// `e` carries out the tick of `s` that takes in `m`.
pub open spec fn effect_of_tick(e: Effect, s: SchedState, m: Option<Control>) -> bool {
    match performed(s, m) {
        Some((Action::Sleep(secs), _)) => e == Effect::Pause(secs),
        Some((Action::SetPilot(p), ip)) => match e {
            Effect::Send(addr, payload) => addr@ == address_text(ip) && payload@ == wire_text(p),
            _ => false,
        },
        None => if next_state(s, m) == SchedState::Terminated {
            e == Effect::Halt
        } else {
            e == Effect::Wait
        },
    }
}

enum Phase {
    Idle,
    Running,
    Terminated,
}

/// The daemon's program scheduler: the only holder of the program, its cursor
/// and its target.
pub struct Scheduler {
    program: Vec<Action>,
    cursor: usize,
    ip: String,
    phase: Phase,
}

impl View for Scheduler {
    type V = SchedState;

    closed spec fn view(&self) -> SchedState {
        match self.phase {
            Phase::Idle => SchedState::Idle,
            Phase::Running => SchedState::Running {
                program: self.program@,
                cursor: self.cursor as nat,
                ip: self.ip@,
            },
            Phase::Terminated => SchedState::Terminated,
        }
    }
}

impl Scheduler {
    pub fn new() -> (r: Scheduler)
        ensures
            r@ == SchedState::Idle,
    {
        Scheduler { program: Vec::new(), cursor: 0, ip: String::new(), phase: Phase::Idle }
    }

    pub fn is_terminated(&self) -> (r: bool)
        ensures
            r == (self@ == SchedState::Terminated),
    {
        match self.phase {
            Phase::Terminated => true,
            _ => false,
        }
    }

    /// One turn of the scheduler loop: takes in the message that arrived, if
    /// any, then performs the next action of the program.
    pub fn tick(&mut self, msg: Option<Msg>) -> (e: Effect)
        ensures
            final(self)@ == next_state(old(self)@, control_of(msg)),
            effect_of_tick(e, old(self)@, control_of(msg)),
    {
        if let Phase::Terminated = self.phase {
            return Effect::Halt;
        }
        match msg {
            Some(Msg::Stop) => {
                self.program = Vec::new();
                self.cursor = 0;
                self.phase = Phase::Terminated;
                return Effect::Halt;
            },
            Some(Msg::Run(program, ip)) => {
                self.program = program;
                self.ip = ip;
                self.cursor = 0;
                self.phase = Phase::Running;
            },
            _ => {},
        }
        if let Phase::Idle = self.phase {
            return Effect::Wait;
        }
        let n = self.program.len();
        if n == 0 {
            return Effect::Wait;
        }
        let at: usize = if self.cursor >= n {
            0
        } else {
            self.cursor
        };
        let action = self.program[at];
        self.cursor = at + 1;
        match action {
            Action::Sleep(secs) => Effect::Pause(secs),
            Action::SetPilot(p) => Effect::Send(bulb_address(self.ip.as_str()), p.build()),
        }
    }
}

/// Where an accepted control message goes.
#[derive(Clone, Copy, Debug, PartialEq, Eq)]
pub enum Route {
    /// Hand it to the scheduler.
    Forward,
    /// Hand it to the scheduler, and stop accepting connections.
    ForwardAndClose,
    /// Drop it: it was not understood.
    Drop,
}

/// How the accept loop treats a decoded control message.
pub fn control_route(msg: &Msg) -> (r: Route)
    ensures
        r == match msg@ {
            Control::Stop => Route::ForwardAndClose,
            Control::Run(_, _) => Route::Forward,
            Control::Ignore => Route::Drop,
        },
{
    match msg {
        Msg::Stop => Route::ForwardAndClose,
        Msg::Run(_, _) => Route::Forward,
        Msg::Ignore => Route::Drop,
    }
}


/// `m` ticks in which no message arrives.
pub open spec fn silence(m: nat) -> Seq<Option<Control>> {
    Seq::new(m, |i: int| None)
}

/// A program replayed in cycles against `ip`, from position `start`, for `m` ticks.
pub open spec fn cycle(program: Seq<Action>, ip: Seq<char>, start: nat, m: nat) -> Seq<
    Option<(Action, Seq<char>)>,
> {
    Seq::new(m, |i: int| Some((program[(start + i) % program.len() as int], ip)))
}

proof fn lemma_replay_from(program: Seq<Action>, cursor: nat, ip: Seq<char>, m: nat)
    requires
        program.len() >= 1,
    ensures
        run(SchedState::Running { program, cursor, ip }, silence(m)) == cycle(
            program,
            ip,
            slot(cursor, program.len()),
            m,
        ),
    decreases m,
{
    let n = program.len();
    let s = SchedState::Running { program, cursor, ip };
    let at = slot(cursor, n);
    if m > 0 {
        let later = slot(cursor, n) + 1;
        assert(silence(m).subrange(1, m as int) =~= silence((m - 1) as nat));
        assert(next_state(s, None) == SchedState::Running { program, cursor: later, ip });
        lemma_replay_from(program, later, ip, (m - 1) as nat);
        lemma_small_mod(at, n);
        assert forall|i: int| 0 <= i < m - 1 implies #[trigger] ((slot(later, n) + i) % (n as int)) == (at + (i
            + 1)) % (n as int) by {
            if later >= n {
                lemma_mod_add_multiples_vanish(i, n as int);
            }
        }
        assert(run(s, silence(m)) =~= cycle(program, ip, at, m));
    } else {
        assert(run(s, silence(m)) =~= cycle(program, ip, at, m));
    }
}

/// Started on a program of one action or more, with no message arriving, the
/// scheduler performs the program's actions in order, from the first again
/// after the last, each against the program's bulb: over `m` ticks, the
/// program repeated and cut to `m` actions.
pub proof fn cyclic_replay(program: Seq<Action>, ip: Seq<char>, m: nat)
    requires
        program.len() >= 1,
    ensures
        run(SchedState::Running { program, cursor: 0, ip }, silence(m)) == Seq::new(
            m,
            |i: int| Some((program[i % program.len() as int], ip)),
        ),
{
    lemma_replay_from(program, 0, ip, m);
    assert(cycle(program, ip, 0, m) =~= Seq::new(
        m,
        |i: int| Some((program[i % program.len() as int], ip)),
    ));
}

proof fn lemma_run_len(s: SchedState, msgs: Seq<Option<Control>>)
    ensures
        run(s, msgs).len() == msgs.len(),
    decreases msgs.len(),
{
    if msgs.len() > 0 {
        lemma_run_len(next_state(s, msgs[0]), msgs.subrange(1, msgs.len() as int));
    }
}

proof fn lemma_terminated_is_silent(msgs: Seq<Option<Control>>)
    ensures
        forall|i: int| 0 <= i < msgs.len() ==> #[trigger] run(SchedState::Terminated, msgs)[i].is_none(),
    decreases msgs.len(),
{
    lemma_run_len(SchedState::Terminated, msgs);
    if msgs.len() > 0 {
        lemma_terminated_is_silent(msgs.subrange(1, msgs.len() as int));
    }
}

/// A `Stop` ends the scheduler whatever its state and wherever its cursor: no
/// action is performed in that tick or any later one, whatever arrives.
pub proof fn stop_is_final(s: SchedState, msgs: Seq<Option<Control>>)
    requires
        msgs.len() >= 1,
        msgs[0] == Some(Control::Stop),
    ensures
        next_state(s, msgs[0]) == SchedState::Terminated,
        forall|i: int| 0 <= i < msgs.len() ==> #[trigger] run(s, msgs)[i].is_none(),
{
    let rest = msgs.subrange(1, msgs.len() as int);
    lemma_terminated_is_silent(rest);
    lemma_run_len(s, msgs);
    lemma_run_len(SchedState::Terminated, rest);
    assert forall|i: int| 0 <= i < msgs.len() implies #[trigger] run(s, msgs)[i].is_none() by {
        if i > 0 {
            assert(run(s, msgs)[i] == run(SchedState::Terminated, rest)[i - 1]);
        }
    }
}

/// A `Run` replaces what was running at once: from the tick that takes it in,
/// with no further message, the actions performed are those of the new
/// program from its first, all against the new bulb.
pub proof fn run_replaces(s: SchedState, program: Seq<Action>, ip: Seq<char>, m: nat)
    requires
        s != SchedState::Terminated,
        program.len() >= 1,
    ensures
        on_message(s, Some(Control::Run(program, ip))) == (SchedState::Running {
            program,
            cursor: 0,
            ip,
        }),
        run(s, seq![Some(Control::Run(program, ip))] + silence(m)) == Seq::new(
            m + 1,
            |i: int| Some((program[i % program.len() as int], ip)),
        ),
{
    let n = program.len();
    let msgs = seq![Some(Control::Run(program, ip))] + silence(m);
    assert(msgs.subrange(1, msgs.len() as int) =~= silence(m));
    let first = slot(0, n) + 1;
    assert(next_state(s, msgs[0]) == SchedState::Running { program, cursor: first, ip });
    lemma_replay_from(program, first, ip, m);
    lemma_small_mod(0, n);
    assert forall|i: int| 0 <= i < m implies #[trigger] ((slot(first, n) + i) % (n as int)) == (i + 1) % (
    n as int) by {
        if first >= n {
            lemma_mod_add_multiples_vanish(i, n as int);
        }
    }
    assert(run(s, msgs) =~= Seq::new(m + 1, |i: int| Some((program[i % n as int], ip))));
}

/// A message that was not understood has the effect of no message at all.
pub proof fn ignore_is_silent(s: SchedState)
    ensures
        next_state(s, Some(Control::Ignore)) == next_state(s, None),
        performed(s, Some(Control::Ignore)) == performed(s, None),
{
}

} // verus!
