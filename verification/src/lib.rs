//! A collection of small puzzle solvers, written and proved as a Verus
//! library.  Its heart is a 2D coverage core: a coalescing interval
//! set, a diamond perimeter walker, and two search strategies that find
//! the one lattice point of a bounded square left uncovered by a set of
//! sensors.  Around it stand the other solvers: group tallies, duel
//! scoring, rucksack items, crate stacks, stream markers, tree
//! visibility, rope physics, a cycle processor with its screen, packet
//! ordering, monkey arithmetic, and a falling-sand scan.

pub mod calorie_counter;
pub mod calorie_podium;
pub mod crt_screen;
pub mod cyclic_move;
pub mod disk_usage;
pub mod duel_forced_round;
pub mod duel_move;
pub mod duel_outcome;
pub mod duel_round;
pub mod errors;
pub mod gap_search;
pub mod geometry;
pub mod interval_set;
pub mod monkey_business;
pub mod packet_compare;
pub mod parsing;
pub mod perimeter;
pub mod rope_chain;
pub mod rope_single;
pub mod rucksack;
pub mod rucksack_badge;
pub mod sand_scan;
pub mod section_overlap;
pub mod signal_cycles;
pub mod stream_marker;
pub mod supply_stacks;
pub mod tree_house;
pub mod valve_network;
