//! A one-register processor: instructions take one or two cycles, and
//! the signal strength is sampled on the interesting cycles.

use vstd::prelude::*;
use vstd::string::StrSliceExecFns;

use crate::parsing::digits_val;
use crate::parsing::is_digit;
use crate::parsing::parse_i64;

verus! {

/// The value the register starts with.
pub const STARTING_VALUE: i32 = 1;

/// The first cycle whose signal strength is sampled.
pub const FIRST_INTERESTING_CYCLE: usize = 20;

/// The distance between two sampled cycles.
pub const INTERESTING_CYCLE_DISTANCE: usize = 40;

/// What an instruction does.
#[derive(Clone, Copy, PartialEq, Eq, Structural, Debug)]
pub enum Payload {
    Noop,
    AddX(i32),
}

/// An instruction: its payload and how many cycles it takes.
#[derive(Clone, Copy, PartialEq, Eq, Structural, Debug)]
pub struct Instruction {
    pub nb_cycles: usize,
    pub payload: Payload,
}

/// How many cycles a payload takes.
pub open spec fn cycles_of(p: Payload) -> int {
    match p {
        Payload::Noop => 1,
        Payload::AddX(_) => 2,
    }
}

/// A line that reads as a no-op.
pub open spec fn is_noop_line(s: Seq<char>) -> bool {
    s.len() >= 4 && s[0] == 'n' && s[1] == 'o' && s[2] == 'o' && s[3] == 'p'
}

/// A line that reads as an addition: the word, a blank, and a signed
/// digit run.
pub open spec fn is_addx_line(s: Seq<char>) -> bool {
    &&& s.len() >= 6
    &&& s[0] == 'a' && s[1] == 'd' && s[2] == 'd' && s[3] == 'x' && s[4] == ' '
    &&& (s[5] == '-' || is_digit(s[5]))
    &&& (s[5] == '-' ==> s.len() >= 7)
    &&& (forall|k: int| 6 <= k < s.len() ==> is_digit(#[trigger] s[k]))
    &&& -0x8000_0000 <= addx_value(s) <= 0x7fff_ffff
}

/// The signed value of an addition line.
pub open spec fn addx_value(s: Seq<char>) -> int {
    if s[5] == '-' {
        -digits_val(s.subrange(6, s.len() as int))
    } else {
        digits_val(s.subrange(5, s.len() as int))
    }
}

impl Payload {
    /// Read a payload from its line.
    pub fn from_str(s: &str) -> (r: Payload)
        requires
            is_noop_line(s@) || is_addx_line(s@),
        ensures
            is_noop_line(s@) ==> r == Payload::Noop,
            !is_noop_line(s@) ==> r == Payload::AddX(addx_value(s@) as i32),
    {
        let first = s.get_char(0);
        if first == 'n' {
            Payload::Noop
        } else {
            let len = s.unicode_len();
            let value = parse_i64(s, 5, len);
            Payload::AddX(value as i32)
        }
    }

    /// How many cycles this payload takes.
    pub fn get_nb_cycles(&self) -> (r: usize)
        ensures
            r == cycles_of(*self),
    {
        match self {
            Payload::Noop => 1,
            Payload::AddX(_) => 2,
        }
    }
}

impl Instruction {
    /// Read an instruction from its line.
    pub fn from_str(s: &str) -> (r: Instruction)
        requires
            is_noop_line(s@) || is_addx_line(s@),
        ensures
            r.nb_cycles == cycles_of(r.payload),
            is_noop_line(s@) ==> r.payload == Payload::Noop,
            !is_noop_line(s@) ==> r.payload == Payload::AddX(addx_value(s@) as i32),
    {
        let payload = Payload::from_str(s);
        let nb_cycles = payload.get_nb_cycles();
        Instruction { nb_cycles, payload }
    }
}

/// Whether the signal strength is sampled on this cycle.
pub open spec fn spec_cycle_interesting(cycle: int) -> bool {
    cycle >= FIRST_INTERESTING_CYCLE && (cycle - FIRST_INTERESTING_CYCLE)
        % (INTERESTING_CYCLE_DISTANCE as int) == 0
}

/// Whether the signal strength is sampled on this cycle.
pub fn is_cycle_interesting(cycle_number: usize) -> (r: bool)
    requires
        cycle_number <= 0x7fff_ffff,
    ensures
        r == spec_cycle_interesting(cycle_number as int),
{
    if cycle_number < FIRST_INTERESTING_CYCLE {
        return false;
    }
    (cycle_number - FIRST_INTERESTING_CYCLE) % INTERESTING_CYCLE_DISTANCE == 0
}

/// The processor state.
pub struct Processor {
    pub instructions_list: Vec<Instruction>,
    pub current_instruction: Option<Instruction>,
    pub cycle_number: usize,
    pub register_x: i32,
    pub current_instruction_cycle: usize,
    pub loading_instructions: bool,
    pub interesting_signals: Vec<i32>,
}

/// The processor state as mathematical values.
pub struct ProcessorModel {
    pub queue: Seq<Instruction>,
    pub current: Option<Instruction>,
    pub cycle: int,
    pub register: int,
    pub instruction_cycle: int,
    pub loading: bool,
    pub signals: Seq<int>,
}

impl Processor {
    /// This state as mathematical values.
    pub open spec fn model(self) -> ProcessorModel {
        ProcessorModel {
            queue: self.instructions_list@,
            current: self.current_instruction,
            cycle: self.cycle_number as int,
            register: self.register_x as int,
            instruction_cycle: self.current_instruction_cycle as int,
            loading: self.loading_instructions,
            signals: self.interesting_signals@.map_values(|v: i32| v as int),
        }
    }

    /// Queued and running instructions take at least one cycle, and a
    /// running instruction has at least one cycle left.
    pub open spec fn wf(self) -> bool {
        &&& (forall|i: int|
            0 <= i < self.instructions_list@.len() ==> (#[trigger] self.instructions_list@[i]).nb_cycles
                >= 1)
    &&& (self.current_instruction is Some ==> self.current_instruction_cycle >= 1)
    }
}

/// The model once loading is closed: the queue is flipped so that the
/// first instruction fed sits last and can be popped first.
pub open spec fn spec_stop_loading(m: ProcessorModel) -> ProcessorModel {
    if m.loading {
        ProcessorModel { queue: m.queue.reverse(), loading: false, ..m }
    } else {
        m
    }
}

/// The model once a cycle has an instruction to work on.
pub open spec fn spec_start_cycle(m: ProcessorModel) -> ProcessorModel {
    if m.current is None {
        ProcessorModel {
            queue: m.queue.drop_last(),
            current: Some(m.queue.last()),
            instruction_cycle: m.queue.last().nb_cycles as int,
            ..m
        }
    } else {
        m
    }
}

/// The model after the cycle is counted.
pub open spec fn spec_count_cycle(m: ProcessorModel) -> ProcessorModel {
    ProcessorModel { cycle: m.cycle + 1, instruction_cycle: m.instruction_cycle - 1, ..m }
}

/// The model after the signal strength was sampled, when it is due.
pub open spec fn spec_sample(m: ProcessorModel) -> ProcessorModel {
    if spec_cycle_interesting(m.cycle) {
        ProcessorModel { signals: m.signals.push(m.register * m.cycle), ..m }
    } else {
        m
    }
}

/// The model after a finished instruction took effect.
pub open spec fn spec_end_cycle(m: ProcessorModel) -> ProcessorModel {
    if m.instruction_cycle == 0 {
        let register = match m.current->0.payload {
            Payload::Noop => m.register,
            Payload::AddX(v) => m.register + v,
        };
        ProcessorModel { register, current: None, ..m }
    } else {
        m
    }
}

/// Whether the processor has nothing left to run.
pub open spec fn spec_finished(m: ProcessorModel) -> bool {
    m.queue.len() == 0 && m.current is None
}

/// One whole cycle of the machine.
pub open spec fn spec_do_cycle(m: ProcessorModel) -> ProcessorModel {
    if spec_finished(m) {
        m
    } else {
        spec_end_cycle(spec_sample(spec_count_cycle(spec_start_cycle(spec_stop_loading(m)))))
    }
}

/// A copy of an instruction queue, in reverse order.
fn reversed_instructions(v: &Vec<Instruction>) -> (r: Vec<Instruction>)
    ensures
        r@ == v@.reverse(),
{
    let n = v.len();
    let mut r: Vec<Instruction> = Vec::new();
    let mut i: usize = 0;
    while i < n
        invariant
            0 <= i <= n,
            n == v@.len(),
            r@.len() == i,
            forall|t: int| 0 <= t < i ==> r@[t] == v@[n - 1 - t],
        decreases n - i,
    {
        r.push(v[n - 1 - i]);
        i = i + 1;
    }
    proof {
        assert(r@ =~= v@.reverse());
    }
    r
}

impl Processor {
    /// A fresh processor, still loading instructions.
    pub fn new() -> (p: Processor)
        ensures
            p.wf(),
            p.model().queue =~= Seq::<Instruction>::empty(),
            p.model().current is None,
            p.model().cycle == 0,
            p.model().register == STARTING_VALUE,
            p.model().loading,
            p.model().signals =~= Seq::<int>::empty(),
    {
        Processor {
            instructions_list: Vec::new(),
            current_instruction: None,
            cycle_number: 0,
            register_x: STARTING_VALUE,
            current_instruction_cycle: 0,
            loading_instructions: true,
            interesting_signals: Vec::new(),
        }
    }

    /// Queue one more instruction; only possible while still loading.
    pub fn add_instruction(&mut self, instruction: Instruction)
        requires
            old(self).wf(),
            old(self).loading_instructions,
            instruction.nb_cycles >= 1,
        ensures
            final(self).wf(),
            final(self).model() == (ProcessorModel {
                queue: old(self).model().queue.push(instruction),
                ..old(self).model()
            }),
    {
        self.instructions_list.push(instruction);
        proof {
            assert(final(self).model().signals =~= old(self).model().signals);
        }
    }

    /// Whether every queued instruction has been executed.
    pub fn is_finished(&self) -> (r: bool)
        ensures
            r == spec_finished(self.model()),
    {
        self.instructions_list.is_empty() && self.current_instruction.is_none()
    }

    /// Flip the queue once, so that instructions pop in feed order.
    fn stop_loading_if_needed(&mut self)
        requires
            old(self).wf(),
        ensures
            final(self).wf(),
            final(self).model() == spec_stop_loading(old(self).model()),
    {
        if !self.loading_instructions {
            return ;
        }
        let rev = reversed_instructions(&self.instructions_list);
        self.instructions_list = rev;
        self.loading_instructions = false;
        proof {
            assert(final(self).model().signals =~= old(self).model().signals);
            assert(forall|i: int|
                0 <= i < self.instructions_list@.len() ==> (
                #[trigger] self.instructions_list@[i]).nb_cycles >= 1);
        }
    }

    /// Pop the next instruction when none is running.
    fn start_cycle(&mut self)
        requires
            old(self).wf(),
            old(self).current_instruction is None ==> old(self).instructions_list@.len() > 0,
        ensures
            final(self).wf(),
            final(self).model() == spec_start_cycle(old(self).model()),
            final(self).current_instruction is Some,
            final(self).loading_instructions == old(self).loading_instructions,
    {
        if self.current_instruction.is_none() {
            let instruction = self.instructions_list.pop().unwrap();
            self.current_instruction_cycle = instruction.nb_cycles;
            self.current_instruction = Some(instruction);
            proof {
                assert(final(self).model().signals =~= old(self).model().signals);
            }
        }
    }

    /// Count the cycle against the running instruction.
    fn count_cycle(&mut self)
        requires
            old(self).wf(),
            old(self).current_instruction is Some,
            old(self).cycle_number < usize::MAX,
        ensures
            final(self).model() == spec_count_cycle(old(self).model()),
            final(self).current_instruction is Some,
            final(self).current_instruction_cycle >= 0,
    {
        self.cycle_number = self.cycle_number + 1;
        self.current_instruction_cycle = self.current_instruction_cycle - 1;
        proof {
            assert(final(self).model().signals =~= old(self).model().signals);
        }
    }

    /// The signal strength of the present cycle.
    pub fn get_signal_strength(&self) -> (r: i32)
        requires
            self.cycle_number <= 0x7fff_ffff,
            -0x8000_0000 <= self.register_x * self.cycle_number <= 0x7fff_ffff,
        ensures
            r == self.register_x * self.cycle_number,
    {
        self.register_x * (self.cycle_number as i32)
    }

    /// Let a finished instruction take effect.
    fn execute_instruction(&mut self)
        requires
            old(self).current_instruction is Some,
            i32::MIN <= spec_end_register(old(self).model()) <= i32::MAX,
        ensures
            final(self).model() == (ProcessorModel {
                register: spec_end_register(old(self).model()),
                current: None,
                ..old(self).model()
            }),
    {
        let instruction = *self.current_instruction.as_ref().unwrap();
        match instruction.payload {
            Payload::Noop => {},
            Payload::AddX(add_value) => self.perform_add_x(add_value),
        }
        self.current_instruction = None;
        proof {
            assert(final(self).model().signals =~= old(self).model().signals);
        }
    }

    /// Add a value to the register.
    fn perform_add_x(&mut self, add_value: i32)
        requires
            i32::MIN <= old(self).register_x + add_value <= i32::MAX,
        ensures
            *final(self) == (Processor { register_x: (old(self).register_x + add_value) as i32, ..*old(self) }),
    {
        self.register_x = self.register_x + add_value;
    }

    /// Close a cycle: execute the instruction when its time is used up.
    fn end_cycle(&mut self)
        requires
            old(self).current_instruction is Some,
            forall|i: int|
                0 <= i < old(self).instructions_list@.len() ==> (#[trigger] old(self).instructions_list@[i]).nb_cycles >= 1,
            old(self).current_instruction_cycle == 0 ==> i32::MIN <= spec_end_register(
                old(self).model(),
            ) <= i32::MAX,
        ensures
            final(self).model() == spec_end_cycle(old(self).model()),
            final(self).wf(),
    {
        if self.current_instruction_cycle == 0 {
            self.execute_instruction();
        }
        proof {
            assert(final(self).model().signals =~= old(self).model().signals);
        }
    }

    /// Run one whole cycle: fetch, count, sample when due, execute.
    pub fn do_cycle(&mut self)
        requires
            old(self).wf(),
            old(self).cycle_number < 0x7fff_ffff,
            -0x8000_0000 <= spec_sampled_signal(old(self).model()) <= 0x7fff_ffff,
            i32::MIN <= spec_completion_register(old(self).model()) <= i32::MAX,
        ensures
            final(self).wf(),
            final(self).model() == spec_do_cycle(old(self).model()),
    {
        if self.is_finished() {
            return ;
        }
        self.stop_loading_if_needed();
        self.start_cycle();
        self.count_cycle();
        if is_cycle_interesting(self.cycle_number) {
            let signal_strength = self.get_signal_strength();
            self.interesting_signals.push(signal_strength);
            proof {
                assert(self.model().signals =~= spec_sample(
                    spec_count_cycle(spec_start_cycle(spec_stop_loading(old(self).model()))),
                ).signals);
            }
        }
        self.end_cycle();
    }
}

/// The register value once the running instruction takes effect.
pub open spec fn spec_end_register(m: ProcessorModel) -> int {
    match m.current->0.payload {
        Payload::Noop => m.register,
        Payload::AddX(v) => m.register + v,
    }
}

/// The signal strength a cycle would sample, or the register when none
/// is due; used only to bound the arithmetic of one cycle.
pub open spec fn spec_sampled_signal(m: ProcessorModel) -> int {
    let counted = spec_count_cycle(spec_start_cycle(spec_stop_loading(m)));
    if spec_cycle_interesting(counted.cycle) {
        counted.register * counted.cycle
    } else {
        0
    }
}

/// The register value after the cycle, used to bound the arithmetic.
pub open spec fn spec_completion_register(m: ProcessorModel) -> int {
    let counted = spec_count_cycle(spec_start_cycle(spec_stop_loading(m)));
    if counted.instruction_cycle == 0 {
        spec_end_register(counted)
    } else {
        counted.register
    }
}

} // verus!
