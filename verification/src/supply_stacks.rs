//! Stacks of crates, filled row by row from the top and rearranged by
//! crane movements.

use vstd::prelude::*;
use vstd::string::StrSliceExecFns;

verus! {

/// One row of the starting drawing: a crate letter or a blank per stack.
pub struct CratesRow {
    pub list: Vec<Option<char>>,
}

/// A crate letter.
pub open spec fn is_crate_char(c: char) -> bool {
    'A' <= c && c <= 'Z'
}

impl CratesRow {
    /// Read one drawing row: the letters sit at position 1, 5, 9, ...
    pub fn from_str(line: &str) -> (r: CratesRow)
        requires
            line@.len() + 4 <= usize::MAX,
            forall|k: int|
                0 <= k && 1 + 4 * k < line@.len() ==> is_crate_char(#[trigger] line@[1 + 4 * k])
                    || line@[1 + 4 * k] == ' ',
        ensures
            r.list@.len() == (line@.len() + 2) / 4,
            forall|k: int|
                0 <= k < r.list@.len() ==> #[trigger] r.list@[k] == (if line@[1 + 4 * k] == ' ' {
                    Option::<char>::None
                } else {
                    Option::<char>::Some(line@[1 + 4 * k])
                }),
    {
        let mut list: Vec<Option<char>> = Vec::new();
        let nb_chars = line.unicode_len();
        let mut i: usize = 1;
        while i < nb_chars
            invariant
                nb_chars == line@.len(),
                nb_chars + 4 <= usize::MAX,
                i as int == 1 + 4 * list@.len(),
                list@.len() > 0 ==> 1 + 4 * (list@.len() - 1) < nb_chars,
                forall|k: int|
                    0 <= k && 1 + 4 * k < line@.len() ==> is_crate_char(#[trigger] line@[1 + 4 * k])
                        || line@[1 + 4 * k] == ' ',
                forall|k: int|
                    0 <= k < list@.len() ==> #[trigger] list@[k] == (if line@[1 + 4 * k] == ' ' {
                        Option::<char>::None
                    } else {
                        Option::<char>::Some(line@[1 + 4 * k])
                    }),
            decreases nb_chars + 4 - i,
        {
            let c = line.get_char(i);
            if c == ' ' {
                list.push(None);
            } else {
                list.push(Some(c));
            }
            i = i + 4;
        }
        proof {
            assert(list@.len() == (line@.len() + 2) / 4);
        }
        CratesRow { list }
    }
}

/// One crane movement: how many crates to move, and between which
/// stacks (zero-based).
pub struct Movement {
    pub from: usize,
    pub to: usize,
    pub quantity: usize,
}

/// The stacks, keyed by their zero-based column index.
pub struct CratesStacks {
    pub stacks_map: Vec<(usize, Vec<char>)>,
    pub inserting: bool,
}

/// Entries sorted by strictly increasing stack index.
pub open spec fn stack_keys_sorted(s: Seq<(usize, Vec<char>)>) -> bool {
    forall|i: int, j: int| 0 <= i < j < s.len() ==> (#[trigger] s[i]).0 < (#[trigger] s[j]).0
}

/// Whether a stack with this index exists.
pub open spec fn has_stack(s: Seq<(usize, Vec<char>)>, key: usize) -> bool {
    exists|i: int| 0 <= i < s.len() && (#[trigger] s[i]).0 == key
}

/// The position of the stack with this index.
pub open spec fn stack_pos(s: Seq<(usize, Vec<char>)>, key: usize) -> int {
    choose|i: int| 0 <= i < s.len() && (#[trigger] s[i]).0 == key
}

/// The contents of the stack with this index, bottom first; an absent
/// stack reads as empty.
pub open spec fn stack_of(s: Seq<(usize, Vec<char>)>, key: usize) -> Seq<char> {
    if has_stack(s, key) {
        s[stack_pos(s, key)].1@
    } else {
        Seq::empty()
    }
}

impl CratesStacks {
    /// Sorted unique stack indices.
    pub open spec fn wf(self) -> bool {
        stack_keys_sorted(self.stacks_map@)
    }

    /// No stacks yet; rows may be inserted.
    pub fn new() -> (c: CratesStacks)
        ensures
            c.wf(),
            c.inserting,
            c.stacks_map@.len() == 0,
    {
        CratesStacks { stacks_map: Vec::new(), inserting: true }
    }
}

/// An entry holding this key sits at the unique position the sorted
/// order allows.
proof fn lemma_stack_pos_unique(s: Seq<(usize, Vec<char>)>, key: usize, i: int)
    requires
        stack_keys_sorted(s),
        0 <= i < s.len(),
        s[i].0 == key,
    ensures
        has_stack(s, key),
        stack_pos(s, key) == i,
{
    assert(has_stack(s, key));
    let p = stack_pos(s, key);
    if p < i {
        assert(s[p].0 < s[i].0);
    }
    if p > i {
        assert(s[i].0 < s[p].0);
    }
}

/// A copy of the characters of a stack.
fn copy_chars(v: &Vec<char>) -> (r: Vec<char>)
    ensures
        r@ == v@,
{
    let n = v.len();
    let mut r: Vec<char> = Vec::new();
    let mut i: usize = 0;
    while i < n
        invariant
            0 <= i <= n,
            n == v@.len(),
            r@ == v@.subrange(0, i as int),
        decreases n - i,
    {
        r.push(v[i]);
        proof {
            assert(r@ =~= v@.subrange(0, i + 1));
        }
        i = i + 1;
    }
    proof {
        assert(v@.subrange(0, n as int) =~= v@);
    }
    r
}

/// Where the key sits, or where it would have to be inserted.
fn find_pos(stacks: &Vec<(usize, Vec<char>)>, key: usize) -> (r: usize)
    requires
        stack_keys_sorted(stacks@),
    ensures
        r <= stacks@.len(),
        forall|j: int| 0 <= j < r ==> (#[trigger] stacks@[j]).0 < key,
        r < stacks@.len() ==> stacks@[r as int].0 >= key,
{
    let n = stacks.len();
    let mut i: usize = 0;
    while i < n && stacks[i].0 < key
        invariant
            0 <= i <= n,
            n == stacks@.len(),
            forall|j: int| 0 <= j < i ==> (#[trigger] stacks@[j]).0 < key,
        decreases n - i,
    {
        i = i + 1;
    }
    i
}

impl CratesStacks {
    /// Append one crate to the stack with this index, creating the
    /// stack when it does not exist yet.
    fn push_to_stack(&mut self, stack_idx: usize, crate_char: char)
        requires
            old(self).wf(),
        ensures
            final(self).wf(),
            final(self).inserting == old(self).inserting,
            stack_of(final(self).stacks_map@, stack_idx) == stack_of(
                old(self).stacks_map@,
                stack_idx,
            ).push(crate_char),
            forall|k: usize|
                k != stack_idx ==> #[trigger] stack_of(final(self).stacks_map@, k) == stack_of(
                    old(self).stacks_map@,
                    k,
                ),
            forall|k: usize|
                k != stack_idx ==> (#[trigger] has_stack(final(self).stacks_map@, k) == has_stack(
                    old(self).stacks_map@,
                    k,
                )),
        decreases 0int,
    {
        let ghost orig = self.stacks_map@;
        let pos = find_pos(&self.stacks_map, stack_idx);
        let n = self.stacks_map.len();
        if pos < n && self.stacks_map[pos].0 == stack_idx {
            let mut v = copy_chars(&self.stacks_map[pos].1);
            v.push(crate_char);
            self.stacks_map[pos] = (stack_idx, v);
            proof {
                let fin = self.stacks_map@;
                assert(fin == orig.update(pos as int, (stack_idx, fin[pos as int].1)));
                assert(forall|j: int| 0 <= j < fin.len() ==> (#[trigger] fin[j]).0 == orig[j].0);
                assert(stack_keys_sorted(fin));
                lemma_stack_pos_unique(orig, stack_idx, pos as int);
                lemma_stack_pos_unique(fin, stack_idx, pos as int);
                assert forall|k: usize| k != stack_idx implies #[trigger] stack_of(fin, k)
                    == stack_of(orig, k) && has_stack(fin, k) == has_stack(orig, k) by {
                    if has_stack(orig, k) {
                        let j = stack_pos(orig, k);
                        assert(fin[j].0 == k);
                        lemma_stack_pos_unique(fin, k, j);
                    }
                    if has_stack(fin, k) {
                        let j = stack_pos(fin, k);
                        assert(orig[j].0 == k);
                        lemma_stack_pos_unique(orig, k, j);
                    }
                }
                assert forall|k: usize| k != stack_idx implies #[trigger] has_stack(fin, k)
                    == has_stack(orig, k) by {
                    assert(stack_of(fin, k) == stack_of(orig, k));
                    if has_stack(orig, k) {
                        let j = stack_pos(orig, k);
                        assert(fin[j].0 == k);
                    }
                    if has_stack(fin, k) {
                        let j = stack_pos(fin, k);
                        assert(orig[j].0 == k);
                    }
                }
            }
        } else {
            let mut v: Vec<char> = Vec::new();
            v.push(crate_char);
            self.stacks_map.insert(pos, (stack_idx, v));
            proof {
                let fin = self.stacks_map@;
                assert(fin.len() == orig.len() + 1);
                assert(forall|j: int| 0 <= j < pos ==> fin[j] == orig[j]);
                assert(forall|j: int| pos < j < fin.len() ==> fin[j] == orig[j - 1]);
                assert(fin[pos as int].0 == stack_idx);
                assert(fin[pos as int].1@ =~= Seq::<char>::empty().push(crate_char));
                assert forall|i1: int, j1: int| 0 <= i1 < j1 < fin.len() implies (
                #[trigger] fin[i1]).0 < (#[trigger] fin[j1]).0 by {
                    if i1 != pos && j1 != pos {
                        let oi = if i1 < pos { i1 } else { i1 - 1 };
                        let oj = if j1 < pos { j1 } else { j1 - 1 };
                        assert(fin[i1] == orig[oi] && fin[j1] == orig[oj]);
                    }
                    if j1 == pos {
                        assert(fin[i1] == orig[i1]);
                    }
                    if i1 == pos {
                        assert(fin[j1] == orig[j1 - 1]);
                        assert(orig[j1 - 1].0 >= orig[pos as int].0);
                    }
                }
                assert(!has_stack(orig, stack_idx)) by {
                    if has_stack(orig, stack_idx) {
                        let j = stack_pos(orig, stack_idx);
                        if j < pos {
                            assert(orig[j].0 < stack_idx);
                        } else {
                            assert(orig[pos as int].0 >= stack_idx || pos as int == orig.len());
                            if j > pos {
                                assert(orig[pos as int].0 < orig[j].0);
                            }
                        }
                    }
                }
                lemma_stack_pos_unique(fin, stack_idx, pos as int);
                assert(stack_of(fin, stack_idx) =~= stack_of(orig, stack_idx).push(crate_char));
                assert forall|k: usize| k != stack_idx implies #[trigger] stack_of(fin, k)
                    == stack_of(orig, k) && has_stack(fin, k) == has_stack(orig, k) by {
                    if has_stack(orig, k) {
                        let j = stack_pos(orig, k);
                        if j < pos {
                            lemma_stack_pos_unique(fin, k, j);
                        } else {
                            lemma_stack_pos_unique(fin, k, j + 1);
                        }
                    }
                    if has_stack(fin, k) {
                        let j = stack_pos(fin, k);
                        if j < pos {
                            lemma_stack_pos_unique(orig, k, j);
                        } else {
                            lemma_stack_pos_unique(orig, k, j - 1);
                        }
                    }
                }
                assert forall|k: usize| k != stack_idx implies #[trigger] has_stack(fin, k)
                    == has_stack(orig, k) by {
                    if has_stack(orig, k) {
                        let j = stack_pos(orig, k);
                        if j < pos {
                            assert(fin[j].0 == k);
                        } else {
                            assert(fin[j + 1].0 == k);
                        }
                    }
                    if has_stack(fin, k) {
                        let j = stack_pos(fin, k);
                        if j < pos {
                            assert(orig[j].0 == k);
                        } else {
                            assert(orig[j - 1].0 == k);
                        }
                    }
                }
            }
        }
    }

    /// Feed one drawing row into the stacks, top row first.
    pub fn add_crates_row(&mut self, crates_row: &CratesRow)
        requires
            old(self).wf(),
            old(self).inserting,
        ensures
            final(self).wf(),
            final(self).inserting,
            forall|k: usize|
                #[trigger] stack_of(final(self).stacks_map@, k) == (if k < crates_row.list@.len()
                    && crates_row.list@[k as int] is Some {
                    stack_of(old(self).stacks_map@, k).push(crates_row.list@[k as int]->0)
                } else {
                    stack_of(old(self).stacks_map@, k)
                }),
    {
        let ghost orig = self.stacks_map@;
        let n = crates_row.list.len();
        let mut i: usize = 0;
        while i < n
            invariant
                self.wf(),
                self.inserting,
                n == crates_row.list@.len(),
                0 <= i <= n,
                forall|k: usize|
                    #[trigger] stack_of(self.stacks_map@, k) == (if k < i
                        && crates_row.list@[k as int] is Some {
                        stack_of(orig, k).push(crates_row.list@[k as int]->0)
                    } else {
                        stack_of(orig, k)
                    }),
            decreases n - i,
        {
            match crates_row.list[i] {
                Some(crate_char) => {
                    self.push_to_stack(i, crate_char);
                },
                None => {},
            }
            i = i + 1;
        }
    }
}

/// A copy of the characters of a stack, in reverse order.
fn reversed_chars(v: &Vec<char>) -> (r: Vec<char>)
    ensures
        r@ == v@.reverse(),
{
    let n = v.len();
    let mut r: Vec<char> = Vec::new();
    let mut i: usize = 0;
    while i < n
        invariant
            0 <= i <= n,
            n == v@.len(),
            r@.len() == i,
            forall|t: int| 0 <= t < i ==> r@[t] == v@[n - 1 - t],
        decreases n - i,
    {
        r.push(v[n - 1 - i]);
        i = i + 1;
    }
    proof {
        assert(r@ =~= v@.reverse());
    }
    r
}

/// The stack contents once insertion is closed: reversed when the rows
/// were still being fed top-down, unchanged afterwards.
pub open spec fn settled_stack(stacks: CratesStacks, key: usize) -> Seq<char> {
    if stacks.inserting {
        stack_of(stacks.stacks_map@, key).reverse()
    } else {
        stack_of(stacks.stacks_map@, key)
    }
}

impl CratesStacks {
    /// Close the insertion phase: the stacks were fed top-down, so each
    /// one is flipped to put the topmost crate last.
    pub fn mark_moving(&mut self)
        requires
            old(self).wf(),
        ensures
            final(self).wf(),
            !final(self).inserting,
            final(self).stacks_map@.len() == old(self).stacks_map@.len(),
            forall|j: int|
                0 <= j < final(self).stacks_map@.len() ==> (#[trigger] final(self).stacks_map@[j]).0
                    == old(self).stacks_map@[j].0,
            forall|k: usize|
                #[trigger] stack_of(final(self).stacks_map@, k) == settled_stack(*old(self), k),
            forall|k: usize|
                #[trigger] has_stack(final(self).stacks_map@, k) == has_stack(
                    old(self).stacks_map@,
                    k,
                ),
    {
        let ghost orig = self.stacks_map@;
        if self.inserting {
            let n = self.stacks_map.len();
            let mut i: usize = 0;
            while i < n
                invariant
                    n == self.stacks_map@.len(),
                    n == orig.len(),
                    0 <= i <= n,
                    self.inserting,
                    forall|j: int|
                        0 <= j < n ==> (#[trigger] self.stacks_map@[j]).0 == orig[j].0,
                    forall|j: int|
                        0 <= j < i ==> (#[trigger] self.stacks_map@[j]).1@ == orig[j].1@.reverse(),
                    forall|j: int| i <= j < n ==> (#[trigger] self.stacks_map@[j]).1@ == orig[j].1@,
                decreases n - i,
            {
                let key = self.stacks_map[i].0;
                let rev = reversed_chars(&self.stacks_map[i].1);
                self.stacks_map[i] = (key, rev);
                i = i + 1;
            }
            self.inserting = false;
            proof {
                let fin = self.stacks_map@;
                assert(stack_keys_sorted(fin));
                assert forall|k: usize| #[trigger]
                    stack_of(fin, k) == stack_of(orig, k).reverse() && has_stack(fin, k)
                        == has_stack(orig, k) by {
                    if has_stack(orig, k) {
                        let j = stack_pos(orig, k);
                        lemma_stack_pos_unique(fin, k, j);
                    } else {
                        if has_stack(fin, k) {
                            let j = stack_pos(fin, k);
                            lemma_stack_pos_unique(orig, k, j);
                        }
                        assert(Seq::<char>::empty().reverse() =~= Seq::<char>::empty());
                    }
                }
                assert forall|k: usize| #[trigger]
                    has_stack(fin, k) == has_stack(orig, k) by {
                    assert(stack_of(fin, k) == stack_of(orig, k).reverse());
                    if has_stack(orig, k) {
                        let j = stack_pos(orig, k);
                        assert(fin[j].0 == k);
                    }
                    if has_stack(fin, k) {
                        let j = stack_pos(fin, k);
                        assert(orig[j].0 == k);
                    }
                }
            }
        }
    }

    /// Perform one crane movement: the topmost `quantity` crates leave
    /// the source one at a time, so they land on the target reversed.
    pub fn move_crates(&mut self, movement: &Movement)
        requires
            old(self).wf(),
            has_stack(old(self).stacks_map@, movement.from),
            has_stack(old(self).stacks_map@, movement.to),
            movement.quantity <= settled_stack(*old(self), movement.from).len(),
        ensures
            final(self).wf(),
            !final(self).inserting,
            forall|k: usize|
                k != movement.from && k != movement.to ==> #[trigger] stack_of(
                    final(self).stacks_map@,
                    k,
                ) == settled_stack(*old(self), k),
            movement.from != movement.to ==> {
                let src = settled_stack(*old(self), movement.from);
                let dst = settled_stack(*old(self), movement.to);
                &&& stack_of(final(self).stacks_map@, movement.from) == src.subrange(
                    0,
                    src.len() - movement.quantity,
                )
                &&& stack_of(final(self).stacks_map@, movement.to) == dst + src.subrange(
                    src.len() - movement.quantity,
                    src.len() as int,
                ).reverse()
            },
            movement.from == movement.to ==> {
                let src = settled_stack(*old(self), movement.from);
                stack_of(final(self).stacks_map@, movement.from) == src.subrange(
                    0,
                    src.len() - movement.quantity,
                ) + src.subrange(src.len() - movement.quantity, src.len() as int).reverse()
            },
    {
        self.mark_moving();
        let ghost base = self.stacks_map@;
        proof {
            assert(has_stack(base, movement.from));
            assert(has_stack(base, movement.to));
            assert(stack_of(base, movement.from) == settled_stack(*old(self), movement.from));
            assert(stack_of(base, movement.to) == settled_stack(*old(self), movement.to));
        }
        let fpos = find_pos(&self.stacks_map, movement.from);
        proof {
            let j = stack_pos(base, movement.from);
            lemma_stack_pos_unique(base, movement.from, j);
            assert(fpos as int == j) by {
                if (fpos as int) < j {
                    assert(base[fpos as int].0 >= movement.from);
                    assert(base[fpos as int].0 < base[j].0);
                }
            }
        }
        let src = copy_chars(&self.stacks_map[fpos].1);
        proof {
            assert(src@ == stack_of(base, movement.from));
        }
        let keep = src.len() - movement.quantity;
        let mut remaining: Vec<char> = Vec::new();
        let mut moved: Vec<char> = Vec::new();
        let mut i: usize = 0;
        while i < keep
            invariant
                0 <= i <= keep <= src@.len(),
                remaining@ == src@.subrange(0, i as int),
            decreases keep - i,
        {
            remaining.push(src[i]);
            proof {
                assert(remaining@ =~= src@.subrange(0, i + 1));
            }
            i = i + 1;
        }
        let total = src.len();
        let mut i: usize = total;
        while i > keep
            invariant
                keep <= i <= total,
                total == src@.len(),
                moved@.len() == total - i,
                forall|t: int|
                    0 <= t < moved@.len() ==> moved@[t] == src@[total - 1 - t],
            decreases i - keep,
        {
            i = i - 1;
            moved.push(src[i]);
        }
        proof {
            assert(moved@ =~= src@.subrange(keep as int, total as int).reverse());
        }
        self.stacks_map[fpos] = (movement.from, remaining);
        let ghost after_take = self.stacks_map@;
        proof {
            assert(forall|j: int|
                0 <= j < after_take.len() ==> (#[trigger] after_take[j]).0 == base[j].0);
            assert(stack_keys_sorted(after_take));
        }
        let tpos = find_pos(&self.stacks_map, movement.to);
        proof {
            let j = stack_pos(base, movement.to);
            lemma_stack_pos_unique(base, movement.to, j);
            lemma_stack_pos_unique(after_take, movement.to, j);
            assert(tpos as int == j) by {
                if (tpos as int) < j {
                    assert(after_take[tpos as int].0 >= movement.to);
                    assert(after_take[tpos as int].0 < after_take[j].0);
                }
            }
        }
        let mut dst = copy_chars(&self.stacks_map[tpos].1);
        let m = moved.len();
        let mut i: usize = 0;
        while i < m
            invariant
                0 <= i <= m,
                m == moved@.len(),
                dst@ == self.stacks_map@[tpos as int].1@ + moved@.subrange(0, i as int),
                tpos < self.stacks_map@.len(),
            decreases m - i,
        {
            dst.push(moved[i]);
            proof {
                assert(moved@.subrange(0, i + 1) =~= moved@.subrange(0, i as int).push(
                    moved@[i as int],
                ));
            }
            i = i + 1;
        }
        self.stacks_map[tpos] = (movement.to, dst);
        proof {
            let fin = self.stacks_map@;
            assert(forall|j: int| 0 <= j < fin.len() ==> (#[trigger] fin[j]).0 == base[j].0);
            assert(stack_keys_sorted(fin));
            assert(moved@.subrange(0, m as int) =~= moved@);
            assert(moved@ == src@.subrange(keep as int, total as int).reverse());
            lemma_stack_pos_unique(fin, movement.to, tpos as int);
            if movement.from != movement.to {
                lemma_stack_pos_unique(fin, movement.from, fpos as int);
                lemma_stack_pos_unique(after_take, movement.from, fpos as int);
                assert(after_take[tpos as int].1@ == base[tpos as int].1@);
            }
            assert forall|k: usize| k != movement.from && k != movement.to implies #[trigger]
                stack_of(fin, k) == settled_stack(*old(self), k) by {
                assert(stack_of(base, k) == settled_stack(*old(self), k));
                if has_stack(base, k) {
                    let j = stack_pos(base, k);
                    lemma_stack_pos_unique(fin, k, j);
                    assert(base[fpos as int].0 == movement.from);
                    assert(base[tpos as int].0 == movement.to);
                    assert(j != fpos && j != tpos);
                    assert(fin[j].1@ == base[j].1@);
                } else {
                    if has_stack(fin, k) {
                        let j = stack_pos(fin, k);
                        lemma_stack_pos_unique(base, k, j);
                    }
                }
            }
            if movement.from == movement.to {
                assert(fpos == tpos) by {
                    assert(after_take[fpos as int].0 == movement.from);
                    lemma_stack_pos_unique(after_take, movement.to, fpos as int);
                }
                assert(stack_of(fin, movement.from) == fin[fpos as int].1@);
            }
        }
    }

    /// Read the topmost crate of every stack, in stack order.
    pub fn get_result(&self) -> (r: String)
        requires
            self.wf(),
            forall|j: int| 0 <= j < self.stacks_map@.len() ==> (#[trigger] self.stacks_map@[j]).1@.len()
                > 0,
        ensures
            r@.len() == self.stacks_map@.len(),
            forall|j: int| 0 <= j < r@.len() ==> r@[j] == (#[trigger] self.stacks_map@[j]).1@.last(),
    {
        let n = self.stacks_map.len();
        let mut r = String::new();
        let mut i: usize = 0;
        while i < n
            invariant
                0 <= i <= n,
                n == self.stacks_map@.len(),
                forall|j: int|
                    0 <= j < n ==> (#[trigger] self.stacks_map@[j]).1@.len() > 0,
                r@.len() == i,
                forall|j: int| 0 <= j < i ==> r@[j] == (#[trigger] self.stacks_map@[j]).1@.last(),
            decreases n - i,
        {
            let stack = &self.stacks_map[i].1;
            let top = stack[stack.len() - 1];
            push_char(&mut r, top);
            i = i + 1;
        }
        r
    }
}

/// Relies on String::push: it appends exactly the given character.
#[verifier::external_body]
fn push_char(s: &mut String, c: char)
    ensures
        final(s)@ == old(s)@.push(c),
{
    s.push(c);
}

} // verus!
