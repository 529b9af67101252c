//! A scanline screen driven by the one-register processor: the register
//! positions a three-pixel sprite, and the beam lights a pixel whenever
//! it crosses the sprite.

use vstd::prelude::*;

use crate::signal_cycles::Instruction;
use crate::signal_cycles::Payload;

verus! {

/// How many pixels one screen row has.
pub const SCREEN_WIDTH: usize = 40;

/// How many rows the screen has.
pub const SCREEN_HEIGHT: usize = 6;

/// How many pixels wide the sprite is.
pub const SPRITE_WIDTH: usize = 3;

/// A dark pixel.
pub const PIXEL_OFF: char = ' ';

/// A lit pixel.
pub const PIXEL_ON: char = 'X';

/// The screen: its pixel rows, the beam position, and the sprite.
pub struct Screen {
    pub rows: Vec<Vec<char>>,
    pub rtc_x: usize,
    pub rtc_y: usize,
    pub sprite_middle_x: isize,
}

impl Screen {
    /// The pixel grid has its fixed size and the beam is on it or just
    /// below it.
    pub open spec fn wf(self) -> bool {
        &&& self.rows@.len() == SCREEN_HEIGHT
    &&& (forall|i: int| 0 <= i < self.rows@.len() ==> (#[trigger] self.rows@[i])@.len()
        == SCREEN_WIDTH)
    &&& self.rtc_x < SCREEN_WIDTH
    &&& self.rtc_y <= SCREEN_HEIGHT
    }

    /// A dark screen with the beam at the top left corner and the
    /// sprite at its starting position.
    pub fn new() -> (s: Screen)
        ensures
            s.wf(),
            s.rtc_x == 0,
            s.rtc_y == 0,
            s.sprite_middle_x == 1,
            forall|i: int, j: int|
                0 <= i < SCREEN_HEIGHT && 0 <= j < SCREEN_WIDTH ==> #[trigger] (s.rows@[i])@[j]
                    == PIXEL_OFF,
    {
        let mut rows: Vec<Vec<char>> = Vec::new();
        let mut i: usize = 0;
        while i < SCREEN_HEIGHT
            invariant
                0 <= i <= SCREEN_HEIGHT,
                rows@.len() == i,
                forall|a: int, b: int|
                    0 <= a < i && 0 <= b < SCREEN_WIDTH ==> #[trigger] (rows@[a])@[b] == PIXEL_OFF,
                forall|a: int| 0 <= a < i ==> (#[trigger] rows@[a])@.len() == SCREEN_WIDTH,
            decreases SCREEN_HEIGHT - i,
        {
            let mut row: Vec<char> = Vec::new();
            let mut j: usize = 0;
            while j < SCREEN_WIDTH
                invariant
                    0 <= j <= SCREEN_WIDTH,
                    row@.len() == j,
                    forall|b: int| 0 <= b < j ==> row@[b] == PIXEL_OFF,
                decreases SCREEN_WIDTH - j,
            {
                row.push(PIXEL_OFF);
                j = j + 1;
            }
            rows.push(row);
            i = i + 1;
        }
        Screen { rows, rtc_x: 0, rtc_y: 0, sprite_middle_x: 1 }
    }

    /// Whether the beam currently crosses the sprite.
    pub fn is_pixel_in_sprite(&self) -> (r: bool)
        requires
            self.rtc_x <= SCREEN_WIDTH,
            isize::MIN + 1 < self.sprite_middle_x < isize::MAX - 2,
        ensures
            r == (self.sprite_middle_x - 1 <= self.rtc_x <= self.sprite_middle_x + 1),
    {
        let sprite_start = self.sprite_middle_x - ((SPRITE_WIDTH as isize) / 2);
        let rtc_x = self.rtc_x as isize;
        rtc_x >= sprite_start && rtc_x < sprite_start + (SPRITE_WIDTH as isize)
    }

    /// Step the beam one pixel, wrapping to the next row at the edge.
    pub fn move_rtc(&mut self)
        requires
            old(self).rtc_x < SCREEN_WIDTH,
            old(self).rtc_y < SCREEN_HEIGHT,
        ensures
            final(self).rows == old(self).rows,
            final(self).sprite_middle_x == old(self).sprite_middle_x,
            if old(self).rtc_x + 1 >= SCREEN_WIDTH {
                final(self).rtc_x == 0 && final(self).rtc_y == old(self).rtc_y + 1
            } else {
                final(self).rtc_x == old(self).rtc_x + 1 && final(self).rtc_y == old(self).rtc_y
            },
    {
        self.rtc_x = self.rtc_x + 1;
        if self.rtc_x >= SCREEN_WIDTH {
            self.rtc_x = 0;
            self.rtc_y = self.rtc_y + 1;
        }
    }

    /// Light the pixel under the beam when the sprite covers it, then
    /// step the beam.
    pub fn draw_pixel(&mut self)
        requires
            old(self).wf(),
            old(self).rtc_y < SCREEN_HEIGHT,
            isize::MIN + 1 < old(self).sprite_middle_x < isize::MAX - 2,
        ensures
            final(self).wf(),
            final(self).sprite_middle_x == old(self).sprite_middle_x,
            final(self).rows@ == (if old(self).sprite_middle_x - 1 <= old(self).rtc_x <= old(
                self,
            ).sprite_middle_x + 1 {
                old(self).rows@.update(
                    old(self).rtc_y as int,
                    old(self).rows@[old(self).rtc_y as int],
                ).update(
                    old(self).rtc_y as int,
                    final(self).rows@[old(self).rtc_y as int],
                )
            } else {
                old(self).rows@
            }),
            old(self).sprite_middle_x - 1 <= old(self).rtc_x <= old(self).sprite_middle_x + 1
                ==> final(self).rows@[old(self).rtc_y as int]@ == old(self).rows@[old(
                self,
            ).rtc_y as int]@.update(old(self).rtc_x as int, PIXEL_ON),
            !(old(self).sprite_middle_x - 1 <= old(self).rtc_x <= old(self).sprite_middle_x + 1)
                ==> final(self).rows == old(self).rows,
            if old(self).rtc_x + 1 >= SCREEN_WIDTH {
                final(self).rtc_x == 0 && final(self).rtc_y == old(self).rtc_y + 1
            } else {
                final(self).rtc_x == old(self).rtc_x + 1 && final(self).rtc_y == old(self).rtc_y
            },
    {
        if self.is_pixel_in_sprite() {
            let y = self.rtc_y;
            let x = self.rtc_x;
            let mut row: Vec<char> = Vec::new();
            let n = self.rows[y].len();
            let mut j: usize = 0;
            while j < n
                invariant
                    y < self.rows@.len(),
                    n == self.rows@[y as int]@.len(),
                    0 <= j <= n,
                    row@ == self.rows@[y as int]@.subrange(0, j as int),
                decreases n - j,
            {
                row.push(self.rows[y][j]);
                proof {
                    assert(row@ =~= self.rows@[y as int]@.subrange(0, j + 1));
                }
                j = j + 1;
            }
            proof {
                assert(row@ =~= self.rows@[y as int]@);
            }
            row[x] = PIXEL_ON;
            self.rows[y] = row;
        }
        self.move_rtc();
    }

    /// Shift the sprite by the given amount.
    pub fn move_sprite(&mut self, delta_x: isize)
        requires
            isize::MIN <= old(self).sprite_middle_x + delta_x <= isize::MAX,
        ensures
            final(self).sprite_middle_x == old(self).sprite_middle_x + delta_x,
            final(self).rows == old(self).rows,
            final(self).rtc_x == old(self).rtc_x,
            final(self).rtc_y == old(self).rtc_y,
    {
        self.sprite_middle_x = self.sprite_middle_x + delta_x;
    }
}

/// The processor that drives the screen: the same fetch-count-execute
/// machine, with the register held as the sprite position.
pub struct Processor {
    pub instructions_list: Vec<Instruction>,
    pub current_instruction: Option<Instruction>,
    pub cycle_number: usize,
    pub current_instruction_cycle: usize,
    pub loading_instructions: bool,
    pub screen: Screen,
}

impl Processor {
    /// Queued and running instructions take at least one cycle, and a
    /// running instruction has at least one cycle left.
    pub open spec fn wf(self) -> bool {
        &&& (forall|i: int|
            0 <= i < self.instructions_list@.len() ==> (#[trigger] self.instructions_list@[i]).nb_cycles
                >= 1)
    &&& (self.current_instruction is Some ==> self.current_instruction_cycle >= 1)
    &&& self.screen.wf()
    }

    /// A fresh processor around a screen, still loading instructions.
    pub fn new(screen: Screen) -> (p: Processor)
        requires
            screen.wf(),
        ensures
            p.wf(),
            p.screen == screen,
            p.instructions_list@.len() == 0,
            p.current_instruction is None,
            p.cycle_number == 0,
            p.loading_instructions,
    {
        Processor {
            instructions_list: Vec::new(),
            current_instruction: None,
            cycle_number: 0,
            current_instruction_cycle: 0,
            loading_instructions: true,
            screen,
        }
    }

    /// Queue one more instruction; only possible while still loading.
    pub fn add_instruction(&mut self, instruction: Instruction)
        requires
            old(self).wf(),
            old(self).loading_instructions,
            instruction.nb_cycles >= 1,
        ensures
            final(self).wf(),
            final(self).instructions_list@ == old(self).instructions_list@.push(instruction),
            final(self).screen == old(self).screen,
            final(self).loading_instructions,
            final(self).current_instruction == old(self).current_instruction,
            final(self).cycle_number == old(self).cycle_number,
    {
        self.instructions_list.push(instruction);
    }

    /// Whether every queued instruction has been executed.
    pub fn is_finished(&self) -> (r: bool)
        ensures
            r == (self.instructions_list@.len() == 0 && self.current_instruction is None),
    {
        self.instructions_list.is_empty() && self.current_instruction.is_none()
    }

    /// Flip the queue once, so that instructions pop in feed order.
    fn stop_loading_if_needed(&mut self)
        requires
            old(self).wf(),
        ensures
            final(self).wf(),
            !final(self).loading_instructions,
            old(self).loading_instructions ==> final(self).instructions_list@ == old(
                self,
            ).instructions_list@.reverse(),
            !old(self).loading_instructions ==> *final(self) == *old(self),
            final(self).screen == old(self).screen,
            final(self).current_instruction == old(self).current_instruction,
            final(self).cycle_number == old(self).cycle_number,
            final(self).current_instruction_cycle == old(self).current_instruction_cycle,
    {
        if !self.loading_instructions {
            return ;
        }
        let n = self.instructions_list.len();
        let mut rev: Vec<Instruction> = Vec::new();
        let mut i: usize = 0;
        while i < n
            invariant
                n == self.instructions_list@.len(),
                0 <= i <= n,
                rev@.len() == i,
                forall|t: int| 0 <= t < i ==> rev@[t] == self.instructions_list@[n - 1 - t],
            decreases n - i,
        {
            rev.push(self.instructions_list[n - 1 - i]);
            i = i + 1;
        }
        proof {
            assert(rev@ =~= self.instructions_list@.reverse());
        }
        self.instructions_list = rev;
        self.loading_instructions = false;
    }

    /// Pop the next instruction when none is running.
    fn start_cycle(&mut self)
        requires
            old(self).wf(),
            old(self).current_instruction is None ==> old(self).instructions_list@.len() > 0,
        ensures
            final(self).wf(),
            final(self).current_instruction is Some,
            final(self).screen == old(self).screen,
            final(self).cycle_number == old(self).cycle_number,
            final(self).loading_instructions == old(self).loading_instructions,
            old(self).current_instruction is Some ==> *final(self) == *old(self),
            old(self).current_instruction is None ==> {
                &&& final(self).instructions_list@ == old(self).instructions_list@.drop_last()
                &&& final(self).current_instruction == Some(old(self).instructions_list@.last())
                &&& final(self).current_instruction_cycle == old(
                    self,
                ).instructions_list@.last().nb_cycles
            },
    {
        if self.current_instruction.is_none() {
            let instruction = self.instructions_list.pop().unwrap();
            self.current_instruction_cycle = instruction.nb_cycles;
            self.current_instruction = Some(instruction);
        }
    }

    /// Shift the sprite by the value of a finished addition.
    fn perform_add_x(&mut self, add_value: i32)
        requires
            isize::MIN <= old(self).screen.sprite_middle_x + add_value <= isize::MAX,
        ensures
            final(self).screen.sprite_middle_x == old(self).screen.sprite_middle_x + add_value,
            final(self).screen.rows == old(self).screen.rows,
            final(self).screen.rtc_x == old(self).screen.rtc_x,
            final(self).screen.rtc_y == old(self).screen.rtc_y,
            final(self).instructions_list == old(self).instructions_list,
            final(self).current_instruction == old(self).current_instruction,
            final(self).cycle_number == old(self).cycle_number,
            final(self).current_instruction_cycle == old(self).current_instruction_cycle,
            final(self).loading_instructions == old(self).loading_instructions,
    {
        self.screen.move_sprite(add_value as isize);
    }

    /// The instruction the coming cycle works on.
    pub open spec fn pending_instruction(self) -> Instruction {
        if self.current_instruction is Some {
            self.current_instruction->0
        } else if self.loading_instructions {
            self.instructions_list@[0]
        } else {
            self.instructions_list@.last()
        }
    }

    /// The sprite stays in machine range if the coming cycle completes
    /// an addition.
    pub open spec fn sprite_shift_fits(self) -> bool {
        let instr = self.pending_instruction();
        let left = if self.current_instruction is Some {
            self.current_instruction_cycle as int
        } else {
            instr.nb_cycles as int
        };
        left == 1 ==> match instr.payload {
            Payload::Noop => true,
            Payload::AddX(v) => isize::MIN <= self.screen.sprite_middle_x + v <= isize::MAX,
        }
    }

    /// Run one whole cycle: fetch, count, draw, execute.
    pub fn do_cycle(&mut self)
        requires
            old(self).wf(),
            old(self).cycle_number < usize::MAX,
            old(self).screen.rtc_y < SCREEN_HEIGHT,
            isize::MIN + 1 < old(self).screen.sprite_middle_x < isize::MAX - 2,
            old(self).sprite_shift_fits(),
        ensures
            final(self).wf(),
            final(self).screen.rtc_y <= old(self).screen.rtc_y + 1,
            (old(self).instructions_list@.len() == 0 && old(self).current_instruction is None)
                ==> *final(self) == *old(self),
    {
        if self.is_finished() {
            return ;
        }
        self.stop_loading_if_needed();
        self.start_cycle();
        self.cycle_number = self.cycle_number + 1;
        self.current_instruction_cycle = self.current_instruction_cycle - 1;
        self.screen.draw_pixel();
        if self.current_instruction_cycle == 0 {
            let instruction = *self.current_instruction.as_ref().unwrap();
            match instruction.payload {
                Payload::Noop => {},
                Payload::AddX(add_value) => self.perform_add_x(add_value),
            }
            self.current_instruction = None;
        }
    }
}

} // verus!
