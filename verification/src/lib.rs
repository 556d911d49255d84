//! A simulator for abstract Turing machines: a transition table keyed by
//! configuration and observed symbol, run over an unbounded two-way tape.

use vstd::prelude::*;
use vstd::std_specs::cmp::PartialEqSpecImpl;

pub mod machine;
pub mod parser;
pub mod table;
pub mod tape;

pub use machine::TuringMachine;
pub use table::{DuplicateRuleError, Statements};
pub use tape::{Cell, Tape};

verus! {

/// The name of a machine configuration (a state of the automaton).
pub type Config = String;

/// The actions of one rule, applied in order.
pub type Operations = Vec<Op>;

/// An atomic label that may occupy a tape cell. Two symbols are the same
/// when their labels are.
#[derive(Debug, Eq, Hash)]
pub struct Symbol(pub String);

impl View for Symbol {
    type V = Seq<char>;

    open spec fn view(&self) -> Seq<char> {
        self.0@
    }
}

impl Clone for Symbol {
    fn clone(&self) -> (r: Self)
        ensures
            r == *self,
    {
        Symbol(self.0.clone())
    }
}

impl PartialEq for Symbol {
    fn eq(&self, other: &Self) -> (r: bool) {
        self.0 == other.0
    }
}

impl PartialEqSpecImpl for Symbol {
    open spec fn obeys_eq_spec() -> bool {
        true
    }

    open spec fn eq_spec(&self, other: &Self) -> bool {
        self@ == other@
    }
}

/// What a rule's trigger says of the observed cell.
pub enum Pattern {
    /// The cell holds exactly this symbol.
    Exact(Seq<char>),
    /// The cell is blank.
    Blank,
    /// The cell holds any symbol.
    Any,
    /// Whatever the cell holds, when no other rule of the configuration
    /// applies.
    Else,
}

/// The trigger of a rule: a pattern over the observed cell.
#[derive(Debug, Eq, Hash)]
pub enum InputSymbol {
    /// Matches a cell that holds exactly this symbol.
    Symbol(Symbol),
    /// Matches a blank cell.
    Blank,
    /// Matches a cell that holds any symbol.
    Any,
    /// Matches when no other rule of the configuration does.
    Else,
}

impl View for InputSymbol {
    type V = Pattern;

    open spec fn view(&self) -> Pattern {
        match self {
            InputSymbol::Symbol(s) => Pattern::Exact(s@),
            InputSymbol::Blank => Pattern::Blank,
            InputSymbol::Any => Pattern::Any,
            InputSymbol::Else => Pattern::Else,
        }
    }
}

impl Clone for InputSymbol {
    fn clone(&self) -> (r: Self)
        ensures
            r == *self,
    {
        match self {
            InputSymbol::Symbol(s) => InputSymbol::Symbol(s.clone()),
            InputSymbol::Blank => InputSymbol::Blank,
            InputSymbol::Any => InputSymbol::Any,
            InputSymbol::Else => InputSymbol::Else,
        }
    }
}

impl PartialEq for InputSymbol {
    fn eq(&self, other: &Self) -> (r: bool) {
        match (self, other) {
            (InputSymbol::Symbol(a), InputSymbol::Symbol(b)) => a.0 == b.0,
            (InputSymbol::Blank, InputSymbol::Blank) => true,
            (InputSymbol::Any, InputSymbol::Any) => true,
            (InputSymbol::Else, InputSymbol::Else) => true,
            _ => false,
        }
    }
}

impl PartialEqSpecImpl for InputSymbol {
    open spec fn obeys_eq_spec() -> bool {
        true
    }

    open spec fn eq_spec(&self, other: &Self) -> bool {
        self@ == other@
    }
}

/// What one action does, with the symbol of a print as its label.
pub enum Action {
    /// Move the head one cell to the left.
    Left,
    /// Move the head one cell to the right.
    Right,
    /// Blank the cell under the head.
    Erase,
    /// Write this symbol into the cell under the head.
    Print(Seq<char>),
}

/// One action of the machine.
#[derive(Debug, Eq)]
pub enum Op {
    /// Move the head one cell to the left.
    L,
    /// Move the head one cell to the right.
    R,
    /// Blank the cell under the head.
    E,
    /// Write the symbol into the cell under the head.
    P(Symbol),
}

impl View for Op {
    type V = Action;

    open spec fn view(&self) -> Action {
        match self {
            Op::L => Action::Left,
            Op::R => Action::Right,
            Op::E => Action::Erase,
            Op::P(s) => Action::Print(s@),
        }
    }
}

impl Clone for Op {
    fn clone(&self) -> (r: Self)
        ensures
            r == *self,
    {
        match self {
            Op::L => Op::L,
            Op::R => Op::R,
            Op::E => Op::E,
            Op::P(s) => Op::P(s.clone()),
        }
    }
}

impl PartialEq for Op {
    fn eq(&self, other: &Self) -> (r: bool) {
        match (self, other) {
            (Op::L, Op::L) => true,
            (Op::R, Op::R) => true,
            (Op::E, Op::E) => true,
            (Op::P(a), Op::P(b)) => a.0 == b.0,
            _ => false,
        }
    }
}

impl PartialEqSpecImpl for Op {
    open spec fn obeys_eq_spec() -> bool {
        true
    }

    open spec fn eq_spec(&self, other: &Self) -> bool {
        self@ == other@
    }
}

/// The actions behind a list of operations.
pub open spec fn actions(ops: Seq<Op>) -> Seq<Action> {
    ops.map_values(|o: Op| o@)
}

/// A rule as a mathematical value.
pub struct Rule {
    pub config: Seq<char>,
    pub pattern: Pattern,
    pub actions: Seq<Action>,
    pub next: Seq<char>,
}

/// One rule of a machine description: in configuration `config`, on a cell
/// that matches `symbol`, apply `ops` and go to `final_config`.
#[derive(Debug, Eq)]
pub struct Statement {
    pub config: Config,
    pub symbol: InputSymbol,
    pub ops: Operations,
    pub final_config: Config,
}

impl View for Statement {
    type V = Rule;

    open spec fn view(&self) -> Rule {
        Rule {
            config: self.config@,
            pattern: self.symbol@,
            actions: actions(self.ops@),
            next: self.final_config@,
        }
    }
}

impl Clone for Statement {
    fn clone(&self) -> (r: Self)
        ensures
            r@ == self@,
    {
        let ops = self.ops.clone();
        assert(actions(ops@) =~= actions(self.ops@));
        Statement {
            config: self.config.clone(),
            symbol: self.symbol.clone(),
            ops,
            final_config: self.final_config.clone(),
        }
    }
}

impl PartialEq for Statement {
    fn eq(&self, other: &Self) -> (r: bool) {
        if !(self.config == other.config && self.symbol == other.symbol && self.final_config
            == other.final_config && self.ops.len() == other.ops.len()) {
            assert(self.ops.len() != other.ops.len() ==> actions(self.ops@).len() != actions(
                other.ops@,
            ).len());
            return false;
        }
        let mut i: usize = 0;
        while i < self.ops.len()
            invariant
                self.ops@.len() == other.ops@.len(),
                i <= self.ops@.len(),
                forall|j: int| 0 <= j < i ==> self.ops@[j]@ == other.ops@[j]@,
            decreases self.ops@.len() - i,
        {
            if !(self.ops[i] == other.ops[i]) {
                assert(actions(self.ops@)[i as int] != actions(other.ops@)[i as int]);
                return false;
            }
            i = i + 1;
        }
        assert(actions(self.ops@) =~= actions(other.ops@));
        true
    }
}

impl PartialEqSpecImpl for Statement {
    open spec fn obeys_eq_spec() -> bool {
        true
    }

    open spec fn eq_spec(&self, other: &Self) -> bool {
        self@ == other@
    }
}

} // verus!
