//! Monkeys tossing items whose worry levels are tracked only through
//! their remainders modulo every monkey's test divisor.

use vstd::prelude::*;
use vstd::arithmetic::div_mod::lemma_add_mod_noop_right;
use vstd::arithmetic::div_mod::lemma_mod_twice;
use vstd::arithmetic::div_mod::lemma_mul_mod_noop;
use vstd::arithmetic::div_mod::lemma_mul_mod_noop_left;

verus! {

/// Whether the congruence table has an entry for this divisor.
pub open spec fn has_divisor(s: Seq<(u32, u32)>, d: u32) -> bool {
    exists|i: int| 0 <= i < s.len() && (#[trigger] s[i]).0 == d
}

/// An item: its worry level is never stored outright, only its
/// remainder modulo each registered divisor.  The true level is carried
/// as a ghost value that the remainders are proved to track.
pub struct Item {
    pub initial_level: u32,
    pub congruences_map: Vec<(u32, u32)>,
    pub level: Ghost<nat>,
}

impl Item {
    /// Every entry holds exactly the true level's remainder for its
    /// divisor, and no divisor is registered twice.
    pub open spec fn wf(self) -> bool {
        &&& (forall|i: int|
            0 <= i < self.congruences_map@.len() ==> {
                let entry = #[trigger] self.congruences_map@[i];
                entry.0 > 0 && entry.1 == self.level@ % (entry.0 as nat)
            })
    &&& (forall|i: int, j: int|
        0 <= i < j < self.congruences_map@.len() ==> (#[trigger] self.congruences_map@[i]).0 != (
        #[trigger] self.congruences_map@[j]).0)
    }

    /// A fresh item at its scanned worry level, with no divisors yet.
    pub fn new(initial_level: u32) -> (item: Item)
        ensures
            item.wf(),
            item.initial_level == initial_level,
            item.level@ == initial_level,
            item.congruences_map@.len() == 0,
    {
        let congruences_map: Vec<(u32, u32)> = Vec::new();
        Item { initial_level, congruences_map, level: Ghost(initial_level as nat) }
    }

    /// Register every listed divisor, keeping those already known; only
    /// sound while the item still sits at its scanned level.
    pub fn fill_congruences_map(&mut self, congruences_list: &Vec<u32>)
        requires
            old(self).wf(),
            old(self).level@ == old(self).initial_level,
            forall|k: int| 0 <= k < congruences_list@.len() ==> #[trigger] congruences_list@[k] > 0,
        ensures
            final(self).wf(),
            final(self).level == old(self).level,
            final(self).initial_level == old(self).initial_level,
            forall|d: u32|
                #[trigger] has_divisor(final(self).congruences_map@, d) <==> (has_divisor(
                    old(self).congruences_map@,
                    d,
                ) || congruences_list@.contains(d)),
    {
        let ghost orig = self.congruences_map@;
        let n = congruences_list.len();
        let mut k: usize = 0;
        while k < n
            invariant
                self.wf(),
                self.level == old(self).level,
                self.level@ == self.initial_level,
                self.initial_level == old(self).initial_level,
                n == congruences_list@.len(),
                0 <= k <= n,
                forall|t: int|
                    0 <= t < congruences_list@.len() ==> #[trigger] congruences_list@[t] > 0,
                forall|d: u32|
                    #[trigger] has_divisor(self.congruences_map@, d) <==> (has_divisor(orig, d)
                        || congruences_list@.subrange(0, k as int).contains(d)),
            decreases n - k,
        {
            let test_value = congruences_list[k];
            let ghost before = self.congruences_map@;
            if !self.knows_divisor(test_value) {
                let remainder = self.initial_level % test_value;
                self.congruences_map.push((test_value, remainder));
            }
            proof {
                let prefix = congruences_list@.subrange(0, k as int);
                let longer = congruences_list@.subrange(0, k + 1);
                assert(longer =~= prefix.push(congruences_list@[k as int]));
                assert forall|d: u32| #[trigger]
                    has_divisor(self.congruences_map@, d) <==> (has_divisor(orig, d)
                        || longer.contains(d)) by {
                    if has_divisor(self.congruences_map@, d) {
                        let i = choose|i: int|
                            0 <= i < self.congruences_map@.len() && (
                            #[trigger] self.congruences_map@[i]).0 == d;
                        if i < before.len() {
                            assert(before[i].0 == d);
                        } else {
                            assert(d == test_value);
                            assert(longer.contains(d)) by {
                                assert(longer[k as int] == d);
                            }
                        }
                    }
                    if has_divisor(before, d) {
                        let i = choose|i: int|
                            0 <= i < before.len() && (#[trigger] before[i]).0 == d;
                        assert(self.congruences_map@[i].0 == d);
                    }
                    if longer.contains(d) {
                        let t = choose|t: int| 0 <= t < longer.len() && longer[t] == d;
                        if t < k as int {
                            assert(prefix[t] == d);
                        } else {
                            assert(d == test_value);
                            if !has_divisor(before, d) {
                                assert(self.congruences_map@.last().0 == d);
                                let last = self.congruences_map@.len() - 1;
                                assert(self.congruences_map@[last].0 == d);
                            }
                        }
                    }
                }
            }
            k = k + 1;
        }
        proof {
            assert(congruences_list@.subrange(0, n as int) =~= congruences_list@);
        }
    }

    /// Whether a divisor is already registered.
    fn knows_divisor(&self, divisor: u32) -> (r: bool)
        ensures
            r == has_divisor(self.congruences_map@, divisor),
    {
        let n = self.congruences_map.len();
        let mut i: usize = 0;
        while i < n
            invariant
                n == self.congruences_map@.len(),
                0 <= i <= n,
                forall|j: int| 0 <= j < i ==> (#[trigger] self.congruences_map@[j]).0 != divisor,
            decreases n - i,
        {
            if self.congruences_map[i].0 == divisor {
                proof {
                    assert(has_divisor(self.congruences_map@, divisor));
                }
                return true;
            }
            i = i + 1;
        }
        false
    }

    /// Add a value to the worry level: every remainder is updated under
    /// its own divisor, since congruence respects addition.
    pub fn add(&mut self, right: Option<u32>)
        requires
            old(self).wf(),
            right is Some,
        ensures
            final(self).wf(),
            final(self).level@ == old(self).level@ + right->0,
            final(self).initial_level == old(self).initial_level,
            final(self).congruences_map@.len() == old(self).congruences_map@.len(),
            forall|i: int|
                0 <= i < final(self).congruences_map@.len() ==> (#[trigger] final(self).congruences_map@[i]).0 == old(self).congruences_map@[i].0,
    {
        let r = match right {
            Some(value) => value,
            None => 0,
        };
        let ghost orig = self.congruences_map@;
        let ghost lvl = self.level@;
        let n = self.congruences_map.len();
        let mut i: usize = 0;
        while i < n
            invariant
                n == self.congruences_map@.len(),
                n == orig.len(),
                0 <= i <= n,
                self.level@ == lvl,
                self.initial_level == old(self).initial_level,
                forall|j: int|
                    0 <= j < n ==> (#[trigger] self.congruences_map@[j]).0 == orig[j].0,
                forall|j: int|
                    0 <= j < n ==> {
                        let entry = #[trigger] orig[j];
                        entry.0 > 0 && entry.1 == lvl % (entry.0 as nat)
                    },
                forall|j: int|
                    0 <= j < i ==> (#[trigger] self.congruences_map@[j]).1 as int == (lvl + r) % (
                    orig[j].0 as int),
                forall|j: int| i <= j < n ==> #[trigger] self.congruences_map@[j] == orig[j],
            decreases n - i,
        {
            let (test_value, current_value) = self.congruences_map[i];
            let updated = (((current_value as u64) + (r as u64)) % (test_value as u64)) as u32;
            proof {
                lemma_add_mod_noop_right(r as int, lvl as int, test_value as int);
                lemma_mod_twice(lvl as int, test_value as int);
            }
            self.congruences_map[i] = (test_value, updated);
            i = i + 1;
        }
        proof {
            self.level = Ghost((lvl + r) as nat);
        }
    }

    /// Multiply the worry level, by a value or by itself: every
    /// remainder is updated under its own divisor, since congruence
    /// respects multiplication.
    pub fn multiply(&mut self, right: Option<u32>)
        requires
            old(self).wf(),
        ensures
            final(self).wf(),
            right is Some ==> final(self).level@ == old(self).level@ * right->0,
            right is None ==> final(self).level@ == old(self).level@ * old(self).level@,
            final(self).initial_level == old(self).initial_level,
            final(self).congruences_map@.len() == old(self).congruences_map@.len(),
            forall|i: int|
                0 <= i < final(self).congruences_map@.len() ==> (#[trigger] final(self).congruences_map@[i]).0 == old(self).congruences_map@[i].0,
    {
        let ghost orig = self.congruences_map@;
        let ghost lvl = self.level@;
        let ghost factor: nat = match right {
            Some(value) => value as nat,
            None => lvl,
        };
        let n = self.congruences_map.len();
        let mut i: usize = 0;
        while i < n
            invariant
                n == self.congruences_map@.len(),
                n == orig.len(),
                0 <= i <= n,
                self.level@ == lvl,
                self.initial_level == old(self).initial_level,
                factor == (match right {
                    Some(value) => value as nat,
                    None => lvl,
                }),
                forall|j: int|
                    0 <= j < n ==> (#[trigger] self.congruences_map@[j]).0 == orig[j].0,
                forall|j: int|
                    0 <= j < n ==> {
                        let entry = #[trigger] orig[j];
                        entry.0 > 0 && entry.1 == lvl % (entry.0 as nat)
                    },
                forall|j: int|
                    0 <= j < i ==> (#[trigger] self.congruences_map@[j]).1 as int == ((lvl
                        * factor) as int) % (orig[j].0 as int),
                forall|j: int| i <= j < n ==> #[trigger] self.congruences_map@[j] == orig[j],
            decreases n - i,
        {
            let (test_value, current_value) = self.congruences_map[i];
            let local_right: u32 = match right {
                Some(value) => value,
                None => current_value,
            };
            proof {
                assert((current_value as u64) * (local_right as u64) <= 0xffff_fffe_0000_0001u64)
                    by (nonlinear_arith)
                    requires
                        current_value <= 0xffff_ffffu32,
                        local_right <= 0xffff_ffffu32,
                ;
                match right {
                    Some(_) => {
                        lemma_mul_mod_noop_left(lvl as int, factor as int, test_value as int);
                    },
                    None => {
                        assert(local_right as int == (lvl as int) % (test_value as int));
                        lemma_mul_mod_noop(lvl as int, lvl as int, test_value as int);
                    },
                }
            }
            let updated = (((current_value as u64) * (local_right as u64)) % (
            test_value as u64)) as u32;
            self.congruences_map[i] = (test_value, updated);
            i = i + 1;
        }
        proof {
            self.level = Ghost((lvl * factor) as nat);
        }
    }
}

/// How a monkey changes an item's worry level.
#[derive(Clone, Copy, PartialEq, Eq, Structural, Debug)]
pub enum OperationKind {
    Add,
    Multiply,
}

/// A monkey's inspection: the operation and its right operand, where
/// `None` stands for the old worry level itself.
pub struct Operation {
    pub kind: OperationKind,
    pub right: Option<u32>,
}

/// The worry level an operation produces.
pub open spec fn applied_level(op: Operation, level: nat) -> nat {
    match op.kind {
        OperationKind::Add => (level + op.right->0) as nat,
        OperationKind::Multiply => match op.right {
            Some(value) => (level * value) as nat,
            None => (level * level) as nat,
        },
    }
}

impl Operation {
    /// An addition always names its operand.
    pub open spec fn wf(self) -> bool {
        self.kind is Add ==> self.right is Some
    }

    /// Apply the operation to an item.
    pub fn manipulate(&self, item: &mut Item)
        requires
            old(item).wf(),
            self.wf(),
        ensures
            final(item).wf(),
            final(item).level@ == applied_level(*self, old(item).level@),
            final(item).initial_level == old(item).initial_level,
            final(item).congruences_map@.len() == old(item).congruences_map@.len(),
            forall|i: int|
                0 <= i < final(item).congruences_map@.len() ==> (#[trigger] final(item).congruences_map@[i]).0 == old(item).congruences_map@[i].0,
    {
        match self.kind {
            OperationKind::Add => item.add(self.right),
            OperationKind::Multiply => item.multiply(self.right),
        }
    }
}

/// An item in flight towards another monkey.
pub struct Flyingitem {
    pub target_monkey_id: usize,
    pub item: Item,
}

/// A monkey: its inspection, its throwing rule, and its queued items.
pub struct Monkey {
    pub id: usize,
    pub operation: Operation,
    pub test_value: u32,
    pub target_true: usize,
    pub target_false: usize,
    pub items: Vec<Item>,
    pub manipulated_item: Option<Item>,
    pub manipulations_count: usize,
}

impl Monkey {
    /// The divisor is usable and every held item tracks its level.
    pub open spec fn wf(self) -> bool {
        &&& self.test_value > 0
    &&& self.operation.wf()
    &&& (forall|i: int| 0 <= i < self.items@.len() ==> (#[trigger] self.items@[i]).wf())
    &&& (self.manipulated_item is Some ==> self.manipulated_item->0.wf())
    }

    /// A monkey with its scanned attributes and starting items.
    pub fn new(
        id: usize,
        operation: Operation,
        test_value: u32,
        target_true: usize,
        target_false: usize,
        items: Vec<Item>,
    ) -> (m: Monkey)
        requires
            test_value > 0,
            operation.wf(),
            forall|i: int| 0 <= i < items@.len() ==> (#[trigger] items@[i]).wf(),
        ensures
            m.wf(),
            m.id == id,
            m.operation == operation,
            m.test_value == test_value,
            m.target_true == target_true,
            m.target_false == target_false,
            m.items == items,
            m.manipulated_item is None,
            m.manipulations_count == 0,
    {
        Monkey {
            id,
            operation,
            test_value,
            target_true,
            target_false,
            items,
            manipulated_item: None,
            manipulations_count: 0,
        }
    }

    /// Whether any item still waits in the queue.
    pub fn has_items_left(&self) -> (r: bool)
        ensures
            r == (self.items@.len() > 0),
    {
        !self.items.is_empty()
    }

    /// Pick up the first queued item for inspection.
    pub fn take_item(&mut self)
        requires
            old(self).wf(),
        ensures
            final(self).wf(),
            old(self).items@.len() == 0 ==> final(self).manipulated_item is None && final(self).items == old(self).items,
            old(self).items@.len() > 0 ==> final(self).manipulated_item == Some(
                old(self).items@[0],
            ) && final(self).items@ == old(self).items@.drop_first(),
            final(self).manipulations_count == old(self).manipulations_count,
            final(self).id == old(self).id,
            final(self).operation == old(self).operation,
            final(self).test_value == old(self).test_value,
            final(self).target_true == old(self).target_true,
            final(self).target_false == old(self).target_false,
    {
        if self.items.is_empty() {
            self.manipulated_item = None;
        } else {
            let item = self.items.remove(0);
            self.manipulated_item = Some(item);
            proof {
                assert(self.items@ =~= old(self).items@.drop_first());
            }
        }
    }

    /// Inspect the held item: apply the operation and count it.
    pub fn manipulate_item(&mut self)
        requires
            old(self).wf(),
            old(self).manipulated_item is Some,
            old(self).manipulations_count < usize::MAX,
        ensures
            final(self).wf(),
            final(self).manipulated_item is Some,
            final(self).manipulated_item->0.level@ == applied_level(
                old(self).operation,
                old(self).manipulated_item->0.level@,
            ),
            forall|d: u32|
                #[trigger] has_divisor(final(self).manipulated_item->0.congruences_map@, d)
                    == has_divisor(old(self).manipulated_item->0.congruences_map@, d),
            final(self).manipulations_count == old(self).manipulations_count + 1,
            final(self).items == old(self).items,
            final(self).id == old(self).id,
            final(self).operation == old(self).operation,
            final(self).test_value == old(self).test_value,
            final(self).target_true == old(self).target_true,
            final(self).target_false == old(self).target_false,
    {
        let mut item = self.manipulated_item.take().unwrap();
        let ghost before = item;
        self.operation.manipulate(&mut item);
        proof {
            assert forall|d: u32| #[trigger]
                has_divisor(item.congruences_map@, d) == has_divisor(
                    before.congruences_map@,
                    d,
                ) by {
                if has_divisor(item.congruences_map@, d) {
                    let i = choose|i: int|
                        0 <= i < item.congruences_map@.len() && (
                        #[trigger] item.congruences_map@[i]).0 == d;
                    assert(before.congruences_map@[i].0 == d);
                }
                if has_divisor(before.congruences_map@, d) {
                    let i = choose|i: int|
                        0 <= i < before.congruences_map@.len() && (
                        #[trigger] before.congruences_map@[i]).0 == d;
                    assert(item.congruences_map@[i].0 == d);
                }
            }
        }
        self.manipulated_item = Some(item);
        self.manipulations_count = self.manipulations_count + 1;
    }

    /// Which monkey receives the held item: decided by whether its
    /// level is divisible by this monkey's test divisor.
    pub fn get_target_monkey_id(&self) -> (r: usize)
        requires
            self.wf(),
            self.manipulated_item is Some,
            has_divisor(self.manipulated_item->0.congruences_map@, self.test_value),
        ensures
            r == (if self.manipulated_item->0.level@ % (self.test_value as nat) == 0 {
                self.target_true as int
            } else {
                self.target_false as int
            }),
    {
        let item = self.manipulated_item.as_ref().unwrap();
        let n = item.congruences_map.len();
        let mut i: usize = 0;
        while i < n
            invariant
                self.wf(),
                self.manipulated_item is Some,
                item == self.manipulated_item->0,
                n == item.congruences_map@.len(),
                0 <= i <= n,
                forall|j: int|
                    0 <= j < i ==> (#[trigger] item.congruences_map@[j]).0 != self.test_value,
                has_divisor(item.congruences_map@, self.test_value),
            decreases n - i,
        {
            let (divisor, congruence) = item.congruences_map[i];
            if divisor == self.test_value {
                if congruence == 0 {
                    return self.target_true;
                } else {
                    return self.target_false;
                }
            }
            i = i + 1;
        }
        proof {
            let j = choose|j: int|
                0 <= j < item.congruences_map@.len() && (#[trigger] item.congruences_map@[j]).0
                    == self.test_value;
            assert(false);
        }
        self.target_false
    }

    /// Throw the held item to its target.
    pub fn throw_item(&mut self) -> (r: Flyingitem)
        requires
            old(self).wf(),
            old(self).manipulated_item is Some,
            has_divisor(
                old(self).manipulated_item->0.congruences_map@,
                old(self).test_value,
            ),
        ensures
            final(self).wf(),
            final(self).manipulated_item is None,
            r.item == old(self).manipulated_item->0,
            r.target_monkey_id == (if old(self).manipulated_item->0.level@ % (old(self).test_value as nat) == 0 {
                old(self).target_true as int
            } else {
                old(self).target_false as int
            }),
            final(self).items == old(self).items,
            final(self).manipulations_count == old(self).manipulations_count,
            final(self).id == old(self).id,
            final(self).operation == old(self).operation,
            final(self).test_value == old(self).test_value,
            final(self).target_true == old(self).target_true,
            final(self).target_false == old(self).target_false,
    {
        let target_monkey_id = self.get_target_monkey_id();
        let item = self.manipulated_item.take().unwrap();
        Flyingitem { target_monkey_id, item }
    }

    /// Queue an incoming item.
    pub fn receive_item(&mut self, item: Item)
        requires
            old(self).wf(),
            item.wf(),
        ensures
            final(self).wf(),
            final(self).items@ == old(self).items@.push(item),
            final(self).manipulated_item == old(self).manipulated_item,
            final(self).manipulations_count == old(self).manipulations_count,
            final(self).id == old(self).id,
            final(self).operation == old(self).operation,
            final(self).test_value == old(self).test_value,
            final(self).target_true == old(self).target_true,
            final(self).target_false == old(self).target_false,
    {
        self.items.push(item);
    }
}

/// How many of the busiest monkeys are kept.
pub const NB_ACTIVE_MONKEYS: usize = 2;

/// Strictly ascending entries.
pub open spec fn sorted_asc(s: Seq<usize>) -> bool {
    forall|i: int, j: int| 0 <= i < j < s.len() ==> s[i] < s[j]
}

/// Where a value lands in an ascending set: before the first larger
/// entry, and nowhere when it is already present.
pub open spec fn insert_asc(s: Seq<usize>, v: usize) -> Seq<usize>
    decreases s.len(),
{
    if s.len() == 0 {
        seq![v]
    } else if v < s[0] {
        seq![v] + s
    } else if v == s[0] {
        s
    } else {
        seq![s[0]] + insert_asc(s.drop_first(), v)
    }
}

/// The largest entries that fit the shortlist.
pub open spec fn keep_largest(s: Seq<usize>) -> Seq<usize> {
    if s.len() <= NB_ACTIVE_MONKEYS {
        s
    } else {
        s.subrange(s.len() - NB_ACTIVE_MONKEYS, s.len() as int)
    }
}

/// The product of the entries, as a mathematical integer.
pub open spec fn seq_prod(s: Seq<usize>) -> int
    decreases s.len(),
{
    if s.len() == 0 {
        1
    } else {
        seq_prod(s.drop_last()) * s.last()
    }
}

/// Every prefix product stays within machine range.
pub open spec fn prefix_prods_fit(s: Seq<usize>) -> bool {
    forall|i: int| 0 <= i <= s.len() ==> 0 <= seq_prod(#[trigger] s.subrange(0, i)) <= usize::MAX
}

/// Splicing a value into an ascending set at the position found by a
/// left-to-right scan yields exactly `insert_asc`.
proof fn lemma_insert_asc_at(s: Seq<usize>, v: usize, k: int)
    requires
        sorted_asc(s),
        0 <= k <= s.len(),
        forall|i: int| 0 <= i < k ==> s[i] < v,
        k < s.len() ==> s[k] >= v,
    ensures
        k < s.len() && s[k] == v ==> insert_asc(s, v) == s,
        (k == s.len() || s[k] != v) ==> insert_asc(s, v) == s.subrange(0, k) + seq![v]
            + s.subrange(k, s.len() as int),
        sorted_asc(insert_asc(s, v)),
    decreases s.len(),
{
    if s.len() == 0 {
        assert(insert_asc(s, v) =~= s.subrange(0, k) + seq![v] + s.subrange(k, s.len() as int));
    } else if k == 0 {
        if s[0] == v {
        } else {
            assert(v < s[0]);
            let r = seq![v] + s;
            assert(forall|i: int| 0 <= i < s.len() ==> r[i + 1] == s[i]);
            assert(insert_asc(s, v) =~= s.subrange(0, 0) + seq![v] + s.subrange(
                0,
                s.len() as int,
            ));
            assert(sorted_asc(r));
        }
    } else {
        let t = s.drop_first();
        assert(sorted_asc(t)) by {
            assert(forall|i: int| 0 <= i < t.len() ==> t[i] == s[i + 1]);
        }
        assert(forall|i: int| 0 <= i < k - 1 ==> t[i] == s[i + 1] && t[i] < v);
        lemma_insert_asc_at(t, v, k - 1);
        let rt = insert_asc(t, v);
        let r = seq![s[0]] + rt;
        assert(insert_asc(s, v) == r);
        assert(forall|i: int| 0 <= i < rt.len() ==> r[i + 1] == rt[i]);
        if k < s.len() && s[k] == v {
            assert(rt == t);
            assert(r =~= s);
        } else {
            assert(rt == t.subrange(0, k - 1) + seq![v] + t.subrange(k - 1, t.len() as int));
            assert(forall|i: int| 0 <= i < t.len() ==> t[i] == s[i + 1]);
            assert(t.subrange(0, k - 1) =~= s.subrange(1, k));
            assert(t.subrange(k - 1, t.len() as int) =~= s.subrange(k, s.len() as int));
            assert(r =~= s.subrange(0, k) + seq![v] + s.subrange(k, s.len() as int));
            assert(sorted_asc(r)) by {
                assert(forall|i: int|
                    0 <= i < r.len() ==> r[i] == (s.subrange(0, k) + seq![v] + s.subrange(
                        k,
                        s.len() as int,
                    ))[i]);
            }
        }
    }
}

/// The shortlist of the two largest inspection counts seen so far.
pub struct TopMonkey {
    pub set: Vec<usize>,
}

impl TopMonkey {
    /// Ascending distinct counts, at most the shortlist size.
    pub open spec fn wf(self) -> bool {
        &&& sorted_asc(self.set@)
    &&& self.set@.len() <= NB_ACTIVE_MONKEYS
    }

    /// An empty shortlist.
    pub fn new() -> (t: TopMonkey)
        ensures
            t.wf(),
            t.set@.len() == 0,
    {
        TopMonkey { set: Vec::new() }
    }

    /// Offer one monkey's inspection count: only the two largest
    /// distinct counts stay.
    pub fn add_monkey(&mut self, manipulations_count: usize)
        requires
            old(self).wf(),
        ensures
            final(self).wf(),
            final(self).set@ == keep_largest(insert_asc(old(self).set@, manipulations_count)),
    {
        let ghost s0 = self.set@;
        let n = self.set.len();
        let mut k: usize = 0;
        while k < n && self.set[k] < manipulations_count
            invariant
                self.set@ == s0,
                n == s0.len(),
                0 <= k <= n,
                forall|i: int| 0 <= i < k ==> s0[i] < manipulations_count,
            decreases n - k,
        {
            k = k + 1;
        }
        proof {
            lemma_insert_asc_at(s0, manipulations_count, k as int);
        }
        if k < n && self.set[k] == manipulations_count {
            proof {
                assert(insert_asc(s0, manipulations_count) == s0);
                assert(keep_largest(s0) == s0);
            }
            return ;
        }
        self.set.insert(k, manipulations_count);
        proof {
            assert(self.set@ =~= s0.subrange(0, k as int) + seq![manipulations_count]
                + s0.subrange(k as int, s0.len() as int));
        }
        let ghost full = insert_asc(s0, manipulations_count);
        proof {
            assert(self.set@ == full);
            assert(self.set@ =~= full.subrange(full.len() - self.set@.len(), full.len() as int));
        }
        while self.set.len() > NB_ACTIVE_MONKEYS
            invariant
                sorted_asc(full),
                full.len() <= NB_ACTIVE_MONKEYS + 1,
                self.set@ == full.subrange(
                    full.len() - self.set@.len(),
                    full.len() as int,
                ),
                self.set@.len() <= full.len(),
                self.set@.len() >= NB_ACTIVE_MONKEYS || self.set@.len() == full.len(),
            decreases self.set@.len(),
        {
            self.set.remove(0);
            proof {
                assert(self.set@ =~= full.subrange(
                    full.len() - self.set@.len(),
                    full.len() as int,
                ));
            }
        }
        proof {
            assert(self.set@ =~= keep_largest(full));
            assert(sorted_asc(self.set@)) by {
                assert(forall|i: int|
                    0 <= i < self.set@.len() ==> self.set@[i] == full[full.len() - self.set@.len()
                        + i]);
            }
        }
    }

    /// The product of the shortlisted inspection counts.
    pub fn get_monkey_business(&self) -> (r: usize)
        requires
            self.wf(),
            prefix_prods_fit(self.set@),
        ensures
            r == seq_prod(self.set@),
    {
        let ghost s = self.set@;
        let n = self.set.len();
        let mut acc: usize = 1;
        let mut i: usize = 0;
        proof {
            assert(s.subrange(0, 0) =~= Seq::<usize>::empty());
        }
        while i < n
            invariant
                s == self.set@,
                n == s.len(),
                0 <= i <= n,
                prefix_prods_fit(s),
                acc == seq_prod(s.subrange(0, i as int)),
            decreases n - i,
        {
            proof {
                assert(s.subrange(0, i + 1).drop_last() =~= s.subrange(0, i as int));
                assert(s.subrange(0, i + 1).last() == s[i as int]);
                assert(0 <= seq_prod(s.subrange(0, i + 1)) <= usize::MAX);
            }
            acc = acc * self.set[i];
            i = i + 1;
        }
        proof {
            assert(s.subrange(0, n as int) =~= s);
        }
        acc
    }
}

} // verus!
