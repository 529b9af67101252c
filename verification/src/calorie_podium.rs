//! The three largest per-group totals, kept as a sorted shortlist.

use vstd::prelude::*;

verus! {

/// How many group totals the shortlist keeps.
pub const MAX_IN_LIST: usize = 3;

/// Where a value lands in a descending list: after every element at
/// least as large, before the first strictly smaller one.
pub open spec fn insert_desc(s: Seq<i32>, v: i32) -> Seq<i32>
    decreases s.len(),
{
    if s.len() == 0 {
        seq![v]
    } else if v > s[0] {
        seq![v] + s
    } else {
        seq![s[0]] + insert_desc(s.drop_first(), v)
    }
}

/// The list truncated to the shortlist size.
pub open spec fn keep_top(s: Seq<i32>) -> Seq<i32> {
    if s.len() <= MAX_IN_LIST {
        s
    } else {
        s.subrange(0, MAX_IN_LIST as int)
    }
}

/// Sorted in descending order.
pub open spec fn sorted_desc(s: Seq<i32>) -> bool {
    forall|i: int, j: int| 0 <= i < j < s.len() ==> s[i] >= s[j]
}

/// The sum of the elements, as a mathematical integer.
pub open spec fn seq_sum(s: Seq<i32>) -> int
    decreases s.len(),
{
    if s.len() == 0 {
        0
    } else {
        seq_sum(s.drop_last()) + s.last()
    }
}

/// Every prefix sum stays within machine range.
pub open spec fn prefix_sums_fit(s: Seq<i32>) -> bool {
    forall|i: int| 0 <= i <= s.len() ==> i32::MIN <= seq_sum(#[trigger] s.subrange(0, i)) <= i32::MAX
}

/// Splicing a value into a descending list at the position found by a
/// left-to-right scan yields exactly `insert_desc`.
proof fn lemma_insert_desc_at(s: Seq<i32>, v: i32, k: int)
    requires
        sorted_desc(s),
        0 <= k <= s.len(),
        forall|i: int| 0 <= i < k ==> s[i] >= v,
        k < s.len() ==> s[k] < v,
    ensures
        insert_desc(s, v) == s.subrange(0, k) + seq![v] + s.subrange(k, s.len() as int),
    decreases s.len(),
{
    if s.len() == 0 {
        assert(insert_desc(s, v) =~= s.subrange(0, k) + seq![v] + s.subrange(k, s.len() as int));
    } else if k == 0 {
        assert(s[0] < v);
        assert(insert_desc(s, v) =~= s.subrange(0, 0) + seq![v] + s.subrange(0, s.len() as int));
    } else {
        let t = s.drop_first();
        assert(sorted_desc(t)) by {
            assert(forall|i: int| 0 <= i < t.len() ==> t[i] == s[i + 1]);
        }
        lemma_insert_desc_at(t, v, k - 1);
        assert(insert_desc(s, v) =~= s.subrange(0, k) + seq![v] + s.subrange(k, s.len() as int))
            by {
            assert(forall|i: int| 0 <= i < t.len() ==> t[i] == s[i + 1]);
            assert(t.subrange(0, k - 1) =~= s.subrange(1, k));
            assert(t.subrange(k - 1, t.len() as int) =~= s.subrange(k, s.len() as int));
        }
    }
}

/// Inserting into a descending list keeps it descending.
proof fn lemma_insert_desc_sorted(s: Seq<i32>, v: i32)
    requires
        sorted_desc(s),
    ensures
        sorted_desc(insert_desc(s, v)),
        insert_desc(s, v).len() == s.len() + 1,
    decreases s.len(),
{
    if s.len() == 0 {
    } else if v > s[0] {
        let r = seq![v] + s;
        assert(forall|i: int| 0 <= i < s.len() ==> r[i + 1] == s[i]);
    } else {
        let t = s.drop_first();
        assert(sorted_desc(t)) by {
            assert(forall|i: int| 0 <= i < t.len() ==> t[i] == s[i + 1]);
        }
        lemma_insert_desc_sorted(t, v);
        let rt = insert_desc(t, v);
        let r = seq![s[0]] + rt;
        assert(forall|i: int| 0 <= i < rt.len() ==> r[i + 1] == rt[i]);
        assert(s[0] >= v);
        assert forall|i: int, j: int| 0 <= i < j < r.len() implies r[i] >= r[j] by {
            if i == 0 {
                assert(r[j] == rt[j - 1]);
                assert(s[0] >= rt[j - 1]) by {
                    lemma_insert_desc_members(t, v, j - 1);
                }
            }
        }
    }
}

/// Every element of the inserted list is either `v` or an element of the
/// original list.
proof fn lemma_insert_desc_members(s: Seq<i32>, v: i32, i: int)
    requires
        0 <= i < insert_desc(s, v).len(),
    ensures
        insert_desc(s, v)[i] == v || exists|j: int| 0 <= j < s.len() && s[j] == insert_desc(s, v)[i],
    decreases s.len(),
{
    if s.len() == 0 {
    } else if v > s[0] {
        if i > 0 {
            assert(insert_desc(s, v)[i] == s[i - 1]);
        }
    } else {
        if i > 0 {
            let t = s.drop_first();
            lemma_insert_desc_members(t, v, i - 1);
            assert(insert_desc(s, v)[i] == insert_desc(t, v)[i - 1]);
            if insert_desc(t, v)[i - 1] != v {
                let j = choose|j: int| 0 <= j < t.len() && t[j] == insert_desc(t, v)[i - 1];
                assert(s[j + 1] == insert_desc(s, v)[i]);
            }
        }
    }
}

/// A shortlist of the three largest completed totals, kept sorted in
/// descending order while the open group is summed up.
pub struct CaloriesList {
    pub min_top_3: i32,
    pub list: Vec<i32>,
    pub current_elf_calories: i32,
}

impl CaloriesList {
    /// The shortlist is sorted, bounded, and its floor is its last entry.
    pub open spec fn wf(self) -> bool {
        &&& sorted_desc(self.list@)
    &&& self.list@.len() <= MAX_IN_LIST
    &&& (self.list@.len() > 0 ==> self.min_top_3 == self.list@.last())
    &&& (self.list@.len() == 0 ==> self.min_top_3 == 0)
    }

    /// Start with an empty shortlist and an empty open group.
    pub fn new() -> (c: CaloriesList)
        ensures
            c.wf(),
            c.list@.len() == 0,
            c.current_elf_calories == 0,
    {
        CaloriesList { min_top_3: 0, list: Vec::new(), current_elf_calories: 0 }
    }

    /// Add one item to the open group.
    pub fn add_elf_item(&mut self, calories: i32)
        requires
            i32::MIN <= old(self).current_elf_calories + calories <= i32::MAX,
        ensures
            final(self).current_elf_calories == old(self).current_elf_calories + calories,
            final(self).list == old(self).list,
            final(self).min_top_3 == old(self).min_top_3,
    {
        self.current_elf_calories = self.current_elf_calories + calories;
    }

    /// The sum of the shortlist: the total of the three largest groups.
    pub fn get_max_top_elf_calories(&self) -> (r: i32)
        requires
            prefix_sums_fit(self.list@),
        ensures
            r == seq_sum(self.list@),
    {
        let ghost s = self.list@;
        let n = self.list.len();
        let mut acc: i32 = 0;
        let mut i: usize = 0;
        while i < n
            invariant
                s == self.list@,
                n == s.len(),
                0 <= i <= n,
                prefix_sums_fit(s),
                acc == seq_sum(s.subrange(0, i as int)),
            decreases n - i,
        {
            proof {
                assert(s.subrange(0, i + 1).drop_last() =~= s.subrange(0, i as int));
                assert(s.subrange(0, i + 1).last() == s[i as int]);
                assert(i32::MIN <= seq_sum(s.subrange(0, i + 1)) <= i32::MAX);
            }
            acc = acc + self.list[i];
            i = i + 1;
        }
        proof {
            assert(s.subrange(0, n as int) =~= s);
        }
        acc
    }

    /// Close the open group: it enters the shortlist when there is room
    /// or it beats the floor, and only the three largest totals stay.
    pub fn complete_elf(&mut self)
        requires
            old(self).wf(),
        ensures
            final(self).wf(),
            final(self).current_elf_calories == 0,
            final(self).list@ == keep_top(
                insert_desc(old(self).list@, old(self).current_elf_calories),
            ),
    {
        let ghost s0 = self.list@;
        let current_elf_calories = self.current_elf_calories;
        self.current_elf_calories = 0;

        if self.list.len() < MAX_IN_LIST || current_elf_calories > self.min_top_3 {
            let n = self.list.len();
            let mut k: usize = 0;
            while k < n && self.list[k] >= current_elf_calories
                invariant
                    self.list@ == s0,
                    n == s0.len(),
                    0 <= k <= n,
                    forall|i: int| 0 <= i < k ==> s0[i] >= current_elf_calories,
                decreases n - k,
            {
                k = k + 1;
            }
            self.list.insert(k, current_elf_calories);
            proof {
                lemma_insert_desc_at(s0, current_elf_calories, k as int);
                assert(self.list@ =~= s0.subrange(0, k as int) + seq![current_elf_calories]
                    + s0.subrange(k as int, s0.len() as int));
                lemma_insert_desc_sorted(s0, current_elf_calories);
            }
            if self.list.len() > MAX_IN_LIST {
                let _ = self.list.pop();
                proof {
                    assert(self.list@ =~= keep_top(insert_desc(s0, current_elf_calories)));
                }
            }
        } else {
            // the shortlist is full and the group does not beat its floor:
            // the value would be spliced in last and truncated right away
            proof {
                assert(s0.len() == MAX_IN_LIST);
                lemma_insert_desc_at(s0, current_elf_calories, s0.len() as int);
                assert(insert_desc(s0, current_elf_calories).subrange(0, MAX_IN_LIST as int)
                    =~= s0);
            }
        }
        self.min_top_3 = self.list[self.list.len() - 1];
    }
}

} // verus!
