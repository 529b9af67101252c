//! A network of pressure valves: each valve has a flow rate and knows
//! the walking distance to its neighbours, and a game state tracks the
//! pressure released while valves are opened one after another.

use vstd::prelude::*;
use vstd::string::StrSliceExecFns;
use vstd::string::StringExecFns;

use crate::disk_usage::str_eq;

verus! {

/// The name of the valve the game starts at.
pub open spec fn origin_name() -> Seq<char> {
    "AA"@
}

/// How many minutes the game lasts.
pub const AVAILABLE_TIME: u64 = 30;

/// One scanned valve: its name, rate, and neighbour names.
pub struct ValveDeclaration {
    pub name: String,
    pub rate: u64,
    pub connections: Vec<String>,
}

/// One valve of the network: its connections carry walking distances.
pub struct Valve {
    pub name: String,
    pub rate: u64,
    pub connections: Vec<(String, u64)>,
}

/// Whether a connection list names this valve.
pub open spec fn has_conn(conns: Seq<(String, u64)>, name: Seq<char>) -> bool {
    exists|i: int| 0 <= i < conns.len() && (#[trigger] conns[i]).0@ == name
}

/// Where the connection to this valve sits.
pub open spec fn conn_pos(conns: Seq<(String, u64)>, name: Seq<char>) -> int {
    choose|i: int| 0 <= i < conns.len() && (#[trigger] conns[i]).0@ == name
}

/// The recorded distance of the connection to this valve.
pub open spec fn conn_dist(conns: Seq<(String, u64)>, name: Seq<char>) -> u64 {
    conns[conn_pos(conns, name)].1
}

/// Whether the network has a valve of this name.
pub open spec fn has_valve(valves: Seq<Valve>, name: Seq<char>) -> bool {
    exists|i: int| 0 <= i < valves.len() && (#[trigger] valves[i]).name@ == name
}

/// Where the valve of this name sits.
pub open spec fn valve_pos(valves: Seq<Valve>, name: Seq<char>) -> int {
    choose|i: int| 0 <= i < valves.len() && (#[trigger] valves[i]).name@ == name
}

/// The valve network.
pub struct Board {
    pub valves: Vec<Valve>,
}

/// Valve names are unique, and so are the names each connection list
/// mentions.
pub open spec fn valves_wf(valves: Seq<Valve>) -> bool {
    &&& (forall|i: int, j: int|
        0 <= i < j < valves.len() ==> (#[trigger] valves[i]).name@ != (
        #[trigger] valves[j]).name@)
    &&& (forall|v: int, i: int, j: int|
        0 <= v < valves.len() && 0 <= i < j < valves[v].connections@.len() ==> (
        #[trigger] valves[v].connections@[i]).0@ != (#[trigger] valves[v].connections@[j]).0@)
}

/// A name sitting at a position is the name the position is known by.
proof fn lemma_valve_pos_unique(valves: Seq<Valve>, name: Seq<char>, i: int)
    requires
        valves_wf(valves),
        0 <= i < valves.len(),
        valves[i].name@ == name,
    ensures
        has_valve(valves, name),
        valve_pos(valves, name) == i,
{
    assert(has_valve(valves, name));
}

/// A connection sitting at a position is the one its name is known by.
proof fn lemma_conn_pos_unique(conns: Seq<(String, u64)>, name: Seq<char>, i: int)
    requires
        forall|a: int, b: int|
            0 <= a < b < conns.len() ==> (#[trigger] conns[a]).0@ != (#[trigger] conns[b]).0@,
        0 <= i < conns.len(),
        conns[i].0@ == name,
    ensures
        has_conn(conns, name),
        conn_pos(conns, name) == i,
{
    assert(has_conn(conns, name));
}

impl Board {
    /// All names unique.
    pub open spec fn wf(self) -> bool {
        valves_wf(self.valves@)
    }

    /// An empty network.
    pub fn new() -> (b: Board)
        ensures
            b.wf(),
            b.valves@.len() == 0,
    {
        Board { valves: Vec::new() }
    }

    /// Where the valve of this name sits, when it exists.
    fn find_valve(&self, name: &str) -> (r: Option<usize>)
        requires
            self.wf(),
        ensures
            r is Some <==> has_valve(self.valves@, name@),
            r matches Some(i) ==> i < self.valves@.len() && self.valves@[i as int].name@ == name@
                && valve_pos(self.valves@, name@) == i,
    {
        let n = self.valves.len();
        let mut i: usize = 0;
        while i < n
            invariant
                self.wf(),
                n == self.valves@.len(),
                0 <= i <= n,
                forall|j: int| 0 <= j < i ==> (#[trigger] self.valves@[j]).name@ != name@,
            decreases n - i,
        {
            if str_eq(self.valves[i].name.as_str(), name) {
                proof {
                    lemma_valve_pos_unique(self.valves@, name@, i as int);
                }
                return Some(i);
            }
            i = i + 1;
        }
        proof {
            if has_valve(self.valves@, name@) {
                let j = valve_pos(self.valves@, name@);
                assert(false);
            }
        }
        None
    }

    /// Register one scanned valve: its neighbours start at distance
    /// one.
    pub fn add_valve(&mut self, declaration: ValveDeclaration)
        requires
            old(self).wf(),
            !has_valve(old(self).valves@, declaration.name@),
            forall|i: int, j: int|
                0 <= i < j < declaration.connections@.len() ==> (
                #[trigger] declaration.connections@[i])@ != (
                #[trigger] declaration.connections@[j])@,
        ensures
            final(self).wf(),
            final(self).valves@.len() == old(self).valves@.len() + 1,
            forall|j: int|
                0 <= j < old(self).valves@.len() ==> #[trigger] final(self).valves@[j] == old(self).valves@[j],
            final(self).valves@.last().name == declaration.name,
            final(self).valves@.last().rate == declaration.rate,
            final(self).valves@.last().connections@.len() == declaration.connections@.len(),
            forall|k: int|
                0 <= k < declaration.connections@.len() ==> (#[trigger] final(self).valves@.last().connections@[k]).0@ == declaration.connections@[k]@ && final(self).valves@.last().connections@[k].1 == 1,
    {
        let ValveDeclaration { name, rate, connections } = declaration;
        let mut linked: Vec<(String, u64)> = Vec::new();
        let n = connections.len();
        let mut k: usize = 0;
        while k < n
            invariant
                n == connections@.len(),
                0 <= k <= n,
                linked@.len() == k,
                forall|j: int|
                    0 <= j < k ==> (#[trigger] linked@[j]).0@ == connections@[j]@ && linked@[j].1
                        == 1,
            decreases n - k,
        {
            let conn_name = String::from_str(connections[k].as_str());
            proof {
                assert(conn_name@ == connections@[k as int]@);
            }
            linked.push((conn_name, 1));
            k = k + 1;
        }
        let valve = Valve { name, rate, connections: linked };
        self.valves.push(valve);
        proof {
            let fin = self.valves@;
            assert forall|i: int, j: int| 0 <= i < j < fin.len() implies (
            #[trigger] fin[i]).name@ != (#[trigger] fin[j]).name@ by {
                if j < fin.len() - 1 {
                    assert(fin[i] == old(self).valves@[i] && fin[j] == old(self).valves@[j]);
                } else {
                    assert(fin[i] == old(self).valves@[i]);
                    if fin[i].name@ == fin[j].name@ {
                        assert(has_valve(old(self).valves@, fin[j].name@));
                    }
                }
            }
            assert forall|v: int, i: int, j: int|
                0 <= v < fin.len() && 0 <= i < j < fin[v].connections@.len() implies (
            #[trigger] fin[v].connections@[i]).0@ != (#[trigger] fin[v].connections@[j]).0@ by {
                if v < fin.len() - 1 {
                    assert(fin[v] == old(self).valves@[v]);
                } else {
                    assert(fin[v].connections@[i].0@ == declaration.connections@[i]@);
                    assert(fin[v].connections@[j].0@ == declaration.connections@[j]@);
                }
            }
        }
    }

    /// Record the walking distance between two valves, in both
    /// directions.
    pub fn update_distance(&mut self, from: &str, to: &str, distance: u64)
        requires
            old(self).wf(),
            has_valve(old(self).valves@, from@),
            has_valve(old(self).valves@, to@),
        ensures
            final(self).wf(),
            final(self).valves@.len() == old(self).valves@.len(),
            forall|j: int|
                0 <= j < final(self).valves@.len() ==> (#[trigger] final(self).valves@[j]).name
                    == old(self).valves@[j].name && final(self).valves@[j].rate == old(self).valves@[j].rate,
            has_conn(
                final(self).valves@[valve_pos(old(self).valves@, from@)].connections@,
                to@,
            ),
            conn_dist(final(self).valves@[valve_pos(old(self).valves@, from@)].connections@, to@)
                == distance,
            has_conn(
                final(self).valves@[valve_pos(old(self).valves@, to@)].connections@,
                from@,
            ),
            conn_dist(final(self).valves@[valve_pos(old(self).valves@, to@)].connections@, from@)
                == distance,
    {
        let from_idx = self.find_valve(from).unwrap();
        self.set_conn(from_idx, to, distance);
        proof {
            lemma_valve_pos_unique(self.valves@, from@, from_idx as int);
            lemma_valve_pos_unique(self.valves@, to@, valve_pos(old(self).valves@, to@));
        }
        let to_idx = self.find_valve(to).unwrap();
        let ghost mid = self.valves@;
        self.set_conn(to_idx, from, distance);
        proof {
            assert(valve_pos(old(self).valves@, from@) == from_idx);
            if to_idx != from_idx {
                assert(final(self).valves@[from_idx as int].connections == mid[from_idx as int].connections);
            }
        }
    }

    /// Set one direction of a connection, adding it when absent.
    fn set_conn(&mut self, vi: usize, to: &str, distance: u64)
        requires
            old(self).wf(),
            vi < old(self).valves@.len(),
        ensures
            final(self).wf(),
            final(self).valves@.len() == old(self).valves@.len(),
            forall|j: int|
                0 <= j < final(self).valves@.len() && j != vi ==> #[trigger] final(self).valves@[j] == old(self).valves@[j],
            final(self).valves@[vi as int].name == old(self).valves@[vi as int].name,
            final(self).valves@[vi as int].rate == old(self).valves@[vi as int].rate,
            has_conn(final(self).valves@[vi as int].connections@, to@),
            conn_dist(final(self).valves@[vi as int].connections@, to@) == distance,
            forall|n: Seq<char>|
                n != to@ ==> #[trigger] has_conn(final(self).valves@[vi as int].connections@, n)
                    == has_conn(old(self).valves@[vi as int].connections@, n),
    {
        let ghost orig = self.valves@;
        let nc = self.valves[vi].connections.len();
        let mut k: usize = 0;
        while k < nc
            invariant
                self.valves@ == orig,
                orig == old(self).valves@,
                valves_wf(orig),
                vi < orig.len(),
                nc == orig[vi as int].connections@.len(),
                0 <= k <= nc,
                forall|j: int| 0 <= j < k ==> (#[trigger] orig[vi as int].connections@[j]).0@ != to@,
            decreases nc - k,
        {
            if str_eq(self.valves[vi].connections[k].0.as_str(), to) {
                let ghost old_name = self.valves@[vi as int].connections@[k as int].0;
                let name_copy = String::from_str(self.valves[vi].connections[k].0.as_str());
                self.valves[vi].connections[k] = (name_copy, distance);
                proof {
                    let fin = self.valves@;
                    assert(fin[vi as int].connections@[k as int].0@ == old_name@);
                    assert(forall|j: int|
                        0 <= j < nc && j != k ==> #[trigger] fin[vi as int].connections@[j]
                            == orig[vi as int].connections@[j]);
                    assert forall|v: int, i: int, j: int|
                        0 <= v < fin.len() && 0 <= i < j < fin[v].connections@.len() implies (
                    #[trigger] fin[v].connections@[i]).0@ != (
                    #[trigger] fin[v].connections@[j]).0@ by {
                        if v != vi {
                            assert(fin[v] == orig[v]);
                        } else {
                            assert(fin[v].connections@[i].0@ == orig[v].connections@[i].0@);
                            assert(fin[v].connections@[j].0@ == orig[v].connections@[j].0@);
                        }
                    }
                    lemma_conn_pos_unique(fin[vi as int].connections@, to@, k as int);
                    assert forall|n: Seq<char>| n != to@ implies #[trigger] has_conn(
                        fin[vi as int].connections@,
                        n,
                    ) == has_conn(orig[vi as int].connections@, n) by {
                        if has_conn(orig[vi as int].connections@, n) {
                            let j = conn_pos(orig[vi as int].connections@, n);
                            assert(fin[vi as int].connections@[j].0@ == n);
                        }
                        if has_conn(fin[vi as int].connections@, n) {
                            let j = conn_pos(fin[vi as int].connections@, n);
                            assert(orig[vi as int].connections@[j].0@ == n);
                        }
                    }
                }
                return ;
            }
            k = k + 1;
        }
        let name_copy = String::from_str(to);
        self.valves[vi].connections.push((name_copy, distance));
        proof {
            let fin = self.valves@;
            assert(fin[vi as int].connections@.last().0@ == to@);
            assert(forall|j: int|
                0 <= j < nc ==> #[trigger] fin[vi as int].connections@[j] == orig[vi as int].connections@[j]);
            assert forall|v: int, i: int, j: int|
                0 <= v < fin.len() && 0 <= i < j < fin[v].connections@.len() implies (
            #[trigger] fin[v].connections@[i]).0@ != (#[trigger] fin[v].connections@[j]).0@ by {
                if v != vi {
                    assert(fin[v] == orig[v]);
                } else {
                    if j < fin[v].connections@.len() - 1 {
                        assert(fin[v].connections@[i] == orig[v].connections@[i]);
                        assert(fin[v].connections@[j] == orig[v].connections@[j]);
                    } else {
                        assert(fin[v].connections@[i] == orig[v].connections@[i]);
                    }
                }
            }
            lemma_conn_pos_unique(fin[vi as int].connections@, to@, nc as int);
            assert forall|n: Seq<char>| n != to@ implies #[trigger] has_conn(
                fin[vi as int].connections@,
                n,
            ) == has_conn(orig[vi as int].connections@, n) by {
                if has_conn(orig[vi as int].connections@, n) {
                    let j = conn_pos(orig[vi as int].connections@, n);
                    assert(fin[vi as int].connections@[j].0@ == n);
                }
                if has_conn(fin[vi as int].connections@, n) {
                    let j = conn_pos(fin[vi as int].connections@, n);
                    if j < nc {
                        assert(orig[vi as int].connections@[j].0@ == n);
                    }
                }
            }
        }
    }
}

impl Board {
    /// Drop a valve and every connection pointing at it.
    pub fn remove_valve(&mut self, name: &str)
        requires
            old(self).wf(),
        ensures
            final(self).wf(),
            forall|n: Seq<char>|
                #[trigger] has_valve(final(self).valves@, n) <==> (has_valve(
                    old(self).valves@,
                    n,
                ) && n != name@),
    {
        let ghost orig = self.valves@;
        let found = self.find_valve(name);
        match found {
            None => {
                proof {
                    assert forall|n: Seq<char>| #[trigger]
                        has_valve(self.valves@, n) <==> (has_valve(orig, n) && n != name@) by {
                        if has_valve(orig, n) && n == name@ {
                            assert(false);
                        }
                    }
                }
                return ;
            },
            Some(pos) => {
                self.valves.remove(pos);
                proof {
                    let fin = self.valves@;
                    assert forall|i: int, j: int| 0 <= i < j < fin.len() implies (
                    #[trigger] fin[i]).name@ != (#[trigger] fin[j]).name@ by {
                        let oi = if i < pos { i } else { i + 1 };
                        let oj = if j < pos { j } else { j + 1 };
                        assert(fin[i] == orig[oi] && fin[j] == orig[oj]);
                    }
                    assert forall|v: int, i: int, j: int|
                        0 <= v < fin.len() && 0 <= i < j < fin[v].connections@.len() implies (
                    #[trigger] fin[v].connections@[i]).0@ != (
                    #[trigger] fin[v].connections@[j]).0@ by {
                        let ov = if v < pos { v } else { v + 1 };
                        assert(fin[v] == orig[ov]);
                    }
                    assert forall|n: Seq<char>| #[trigger]
                        has_valve(fin, n) <==> (has_valve(orig, n) && n != name@) by {
                        if has_valve(fin, n) {
                            let j = valve_pos(fin, n);
                            let oj = if j < pos { j } else { j + 1 };
                            assert(orig[oj].name@ == n);
                            assert(oj != pos);
                            assert(orig[pos as int].name@ == name@);
                        }
                        if has_valve(orig, n) && n != name@ {
                            let j = valve_pos(orig, n);
                            assert(j != pos);
                            if j < pos {
                                assert(fin[j].name@ == n);
                            } else {
                                assert(fin[j - 1].name@ == n);
                            }
                        }
                    }
                }
            },
        }
    }

    /// Drop every valve with nothing to release, except the origin.
    pub fn remove_empty_valves(&mut self)
        requires
            old(self).wf(),
        ensures
            final(self).wf(),
    {
        let mut names: Vec<String> = Vec::new();
        let n = self.valves.len();
        let mut i: usize = 0;
        while i < n
            invariant
                self.wf(),
                n == self.valves@.len(),
                0 <= i <= n,
            decreases n - i,
        {
            proof {
                reveal_strlit("AA");
            }
            if self.valves[i].rate == 0 && !str_eq(self.valves[i].name.as_str(), "AA") {
                names.push(String::from_str(self.valves[i].name.as_str()));
            }
            i = i + 1;
        }
        let m = names.len();
        let mut k: usize = 0;
        while k < m
            invariant
                self.wf(),
                m == names@.len(),
                0 <= k <= m,
            decreases m - k,
        {
            self.remove_valve(names[k].as_str());
            k = k + 1;
        }
    }
}

/// The running game: the pressure already released, the rate the open
/// valves release together, the minutes spent, where the player
/// stands, and which valves are still closed.
pub struct GameState {
    pub cumulated_pressure: u64,
    pub cumulated_rate: u64,
    pub minutes_elapsed: u64,
    pub pos: usize,
    pub remaining_valves: Vec<usize>,
}

impl GameState {
    /// The state points at valves of the board and the clock has not
    /// run out.
    pub open spec fn wf(self, board: Board) -> bool {
        &&& self.pos < board.valves@.len()
    &&& self.minutes_elapsed <= AVAILABLE_TIME
    &&& (forall|k: int|
        0 <= k < self.remaining_valves@.len() ==> (#[trigger] self.remaining_valves@[k])
            < board.valves@.len())
    }

    /// The opening state: at the origin, nothing open, every other
    /// valve still closed.
    pub fn new_initial(board: &Board) -> (s: GameState)
        requires
            board.wf(),
            has_valve(board.valves@, origin_name()),
        ensures
            s.wf(*board),
            s.cumulated_pressure == 0,
            s.cumulated_rate == 0,
            s.minutes_elapsed == 0,
            board.valves@[s.pos as int].name@ == origin_name(),
            forall|k: int|
                0 <= k < s.remaining_valves@.len() ==> board.valves@[(
                #[trigger] s.remaining_valves@[k]) as int].name@ != origin_name(),
            forall|j: int|
                0 <= j < board.valves@.len() && board.valves@[j].name@ != origin_name()
                    ==> s.remaining_valves@.contains(j as usize),
    {
        proof {
            reveal_strlit("AA");
        }
        let pos = board.find_valve("AA").unwrap();
        let n = board.valves.len();
        let mut remaining_valves: Vec<usize> = Vec::new();
        let mut j: usize = 0;
        while j < n
            invariant
                board.wf(),
                n == board.valves@.len(),
                0 <= j <= n,
                forall|k: int|
                    0 <= k < remaining_valves@.len() ==> (#[trigger] remaining_valves@[k]) < n
                        && board.valves@[remaining_valves@[k] as int].name@ != origin_name(),
                forall|t: int|
                    0 <= t < j && board.valves@[t].name@ != origin_name()
                        ==> remaining_valves@.contains(t as usize),
            decreases n - j,
        {
            proof {
                reveal_strlit("AA");
            }
            let ghost before = remaining_valves@;
            if !str_eq(board.valves[j].name.as_str(), "AA") {
                remaining_valves.push(j);
                proof {
                    assert(remaining_valves@.last() == j);
                    assert forall|t: int|
                        0 <= t < j + 1 && board.valves@[t].name@ != origin_name() implies
                        remaining_valves@.contains(t as usize) by {
                        if t < j {
                            assert(before.contains(t as usize));
                            let w = choose|w: int| 0 <= w < before.len() && before[w] == t as usize;
                            assert(remaining_valves@[w] == t as usize);
                        } else {
                            assert(remaining_valves@[remaining_valves@.len() - 1] == t as usize);
                        }
                    }
                }
            } else {
                proof {
                    assert forall|t: int|
                        0 <= t < j + 1 && board.valves@[t].name@ != origin_name() implies
                        remaining_valves@.contains(t as usize) by {}
                }
            }
            j = j + 1;
        }
        GameState {
            cumulated_pressure: 0,
            cumulated_rate: 0,
            minutes_elapsed: 0,
            pos,
            remaining_valves,
        }
    }

    /// How many minutes are left.
    pub fn get_remaining_time(&self) -> (r: u64)
        requires
            self.minutes_elapsed <= AVAILABLE_TIME,
        ensures
            r == AVAILABLE_TIME - self.minutes_elapsed,
    {
        AVAILABLE_TIME - self.minutes_elapsed
    }

    /// Stand still until the clock runs out: the open valves keep
    /// releasing to the end.
    pub fn wait(&self) -> (s: GameState)
        requires
            self.minutes_elapsed <= AVAILABLE_TIME,
            self.cumulated_pressure + self.cumulated_rate * (AVAILABLE_TIME
                - self.minutes_elapsed) <= u64::MAX,
        ensures
            s.cumulated_pressure == self.cumulated_pressure + self.cumulated_rate * (
            AVAILABLE_TIME - self.minutes_elapsed),
            s.cumulated_rate == self.cumulated_rate,
            s.minutes_elapsed == AVAILABLE_TIME,
            s.pos == self.pos,
            s.remaining_valves@ == self.remaining_valves@,
    {
        let action_time = self.get_remaining_time();
        let cumulated_pressure = self.cumulated_pressure + self.cumulated_rate * action_time;
        let minutes_elapsed = self.minutes_elapsed + action_time;
        let mut remaining_valves: Vec<usize> = Vec::new();
        let n = self.remaining_valves.len();
        let mut k: usize = 0;
        while k < n
            invariant
                n == self.remaining_valves@.len(),
                0 <= k <= n,
                remaining_valves@ == self.remaining_valves@.subrange(0, k as int),
            decreases n - k,
        {
            remaining_valves.push(self.remaining_valves[k]);
            proof {
                assert(remaining_valves@ =~= self.remaining_valves@.subrange(0, k + 1));
            }
            k = k + 1;
        }
        proof {
            assert(remaining_valves@ =~= self.remaining_valves@);
        }
        GameState {
            cumulated_pressure,
            cumulated_rate: self.cumulated_rate,
            minutes_elapsed,
            pos: self.pos,
            remaining_valves,
        }
    }

    /// Walk to a still-closed valve and open it: walking and turning
    /// take time during which the already open valves keep releasing.
    pub fn open_valve(&self, board: &Board, target: usize) -> (s: GameState)
        requires
            board.wf(),
            self.wf(*board),
            target < board.valves@.len(),
            has_conn(
                board.valves@[self.pos as int].connections@,
                board.valves@[target as int].name@,
            ),
            conn_dist(
                board.valves@[self.pos as int].connections@,
                board.valves@[target as int].name@,
            ) + 1 <= AVAILABLE_TIME - self.minutes_elapsed,
            self.cumulated_rate + board.valves@[target as int].rate <= u64::MAX,
            self.cumulated_pressure + self.cumulated_rate * (conn_dist(
                board.valves@[self.pos as int].connections@,
                board.valves@[target as int].name@,
            ) + 1) <= u64::MAX,
        ensures
            s.wf(*board),
            ({
                let action_time = conn_dist(
                    board.valves@[self.pos as int].connections@,
                    board.valves@[target as int].name@,
                ) + 1;
                &&& s.cumulated_rate == self.cumulated_rate + board.valves@[target as int].rate
                &&& s.cumulated_pressure == self.cumulated_pressure + self.cumulated_rate
                    * action_time
                &&& s.minutes_elapsed == self.minutes_elapsed + action_time
                &&& s.pos == target
            }),
            forall|v: usize|
                #[trigger] s.remaining_valves@.contains(v) <==> (
                self.remaining_valves@.contains(v) && v != target),
    {
        let dist = self.conn_distance_to(board, target);
        let action_time = dist + 1;
        let valve_rate = board.valves[target].rate;
        let cumulated_rate = self.cumulated_rate + valve_rate;
        let cumulated_pressure = self.cumulated_pressure + self.cumulated_rate * action_time;
        let minutes_elapsed = self.minutes_elapsed + action_time;
        let n = self.remaining_valves.len();
        let mut remaining_valves: Vec<usize> = Vec::new();
        let mut k: usize = 0;
        while k < n
            invariant
                n == self.remaining_valves@.len(),
                0 <= k <= n,
                forall|j: int|
                    0 <= j < self.remaining_valves@.len() ==> (
                    #[trigger] self.remaining_valves@[j]) < board.valves@.len(),
                forall|j: int|
                    0 <= j < remaining_valves@.len() ==> (#[trigger] remaining_valves@[j])
                        < board.valves@.len(),
                forall|v: usize|
                    #[trigger] remaining_valves@.contains(v) <==> (exists|j: int|
                        0 <= j < k && (#[trigger] self.remaining_valves@[j]) == v && v != target),
            decreases n - k,
        {
            let candidate = self.remaining_valves[k];
            let ghost before = remaining_valves@;
            if candidate != target {
                remaining_valves.push(candidate);
            }
            proof {
                assert forall|v: usize| #[trigger]
                    remaining_valves@.contains(v) <==> (exists|j: int|
                        0 <= j < k + 1 && (#[trigger] self.remaining_valves@[j]) == v && v
                            != target) by {
                    if remaining_valves@.contains(v) {
                        let w = choose|w: int|
                            0 <= w < remaining_valves@.len() && remaining_valves@[w] == v;
                        if w < before.len() {
                            assert(before[w] == v);
                            assert(before.contains(v));
                        } else {
                            assert(v == candidate);
                            assert(self.remaining_valves@[k as int] == v);
                        }
                    }
                    if exists|j: int|
                        0 <= j < k + 1 && (#[trigger] self.remaining_valves@[j]) == v && v
                            != target {
                        let j = choose|j: int|
                            0 <= j < k + 1 && (#[trigger] self.remaining_valves@[j]) == v && v
                                != target;
                        if j < k {
                            assert(before.contains(v));
                            let w = choose|w: int| 0 <= w < before.len() && before[w] == v;
                            assert(remaining_valves@[w] == v);
                        } else {
                            assert(remaining_valves@.last() == v);
                            assert(remaining_valves@[remaining_valves@.len() - 1] == v);
                        }
                    }
                }
            }
            k = k + 1;
        }
        GameState {
            cumulated_pressure,
            cumulated_rate,
            minutes_elapsed,
            pos: target,
            remaining_valves,
        }
    }

    /// The recorded walking distance from the player to a valve.
    fn conn_distance_to(&self, board: &Board, target: usize) -> (r: u64)
        requires
            board.wf(),
            self.pos < board.valves@.len(),
            target < board.valves@.len(),
            has_conn(
                board.valves@[self.pos as int].connections@,
                board.valves@[target as int].name@,
            ),
        ensures
            r == conn_dist(
                board.valves@[self.pos as int].connections@,
                board.valves@[target as int].name@,
            ),
    {
        let ghost conns = board.valves@[self.pos as int].connections@;
        let ghost tname = board.valves@[target as int].name@;
        let nc = board.valves[self.pos].connections.len();
        let mut k: usize = 0;
        while k < nc
            invariant
                board.wf(),
                self.pos < board.valves@.len(),
                target < board.valves@.len(),
                conns == board.valves@[self.pos as int].connections@,
                tname == board.valves@[target as int].name@,
                nc == conns.len(),
                0 <= k <= nc,
                has_conn(conns, tname),
                forall|j: int| 0 <= j < k ==> (#[trigger] conns[j]).0@ != tname,
            decreases nc - k,
        {
            if str_eq(
                board.valves[self.pos].connections[k].0.as_str(),
                board.valves[target].name.as_str(),
            ) {
                proof {
                    lemma_conn_pos_unique(conns, tname, k as int);
                }
                return board.valves[self.pos].connections[k].1;
            }
            k = k + 1;
        }
        proof {
            let j = conn_pos(conns, tname);
            assert(false);
        }
        0
    }
}

} // verus!
