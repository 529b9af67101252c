//! Running maximum of per-group item totals: items are summed into the
//! current group until the group is completed.

use vstd::prelude::*;

verus! {

/// The best completed total so far, and the sum of the open group.
pub struct CaloriesList {
    pub max_elf_calories: i32,
    pub current_elf_calories: i32,
}

impl CaloriesList {
    /// Start with no completed group and an empty open one.
    pub fn new() -> (c: CaloriesList)
        ensures
            c.max_elf_calories == 0,
            c.current_elf_calories == 0,
    {
        CaloriesList { max_elf_calories: 0, current_elf_calories: 0 }
    }

    /// Add one item to the open group.
    pub fn add_elf_item(&mut self, calories: i32)
        requires
            i32::MIN <= old(self).current_elf_calories + calories <= i32::MAX,
        ensures
            final(self).current_elf_calories == old(self).current_elf_calories + calories,
            final(self).max_elf_calories == old(self).max_elf_calories,
    {
        self.current_elf_calories = self.current_elf_calories + calories;
    }

    /// The best completed total so far.
    pub fn get_max_elf_calories(&self) -> (r: i32)
        ensures
            r == self.max_elf_calories,
    {
        self.max_elf_calories
    }

    /// Close the open group: it replaces the maximum when it beats it.
    pub fn complete_elf(&mut self)
        ensures
            final(self).current_elf_calories == 0,
            final(self).max_elf_calories == if old(self).current_elf_calories > old(
                self,
            ).max_elf_calories {
                old(self).current_elf_calories
            } else {
                old(self).max_elf_calories
            },
    {
        if self.current_elf_calories > self.max_elf_calories {
            self.max_elf_calories = self.current_elf_calories;
        }
        self.current_elf_calories = 0;
    }
}

} // verus!
