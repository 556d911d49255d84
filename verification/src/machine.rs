//! The machine: a tape, a head, a configuration and a transition table,
//! and the step that takes it from one state to the next.

use vstd::prelude::*;
use vstd::string::{StrSliceExecFns, StringExecFns};
use crate::tape::{Cell, Tape, TapeView};
use crate::parser::{lines, lines_spec, parse_statement, parse_statement_spec, texts};
use crate::table::{
    accepts, body_of, key_of, resolve_spec, with_rule, RuleBody, Statements, TableView,
};
use crate::{actions, Action, Config, Op, Pattern, Rule, Statement};

verus! {

/// Where the head stands after `ops`, applied in order from `head`.
pub open spec fn head_after(head: int, ops: Seq<Action>) -> int
    decreases ops.len(),
{
    if ops.len() == 0 {
        head
    } else {
        let before = head_after(head, ops.drop_last());
        match ops.last() {
            Action::Left => before - 1,
            Action::Right => before + 1,
            _ => before,
        }
    }
}

/// The tape after `ops`, applied in order with the head starting at `head`.
/// A move changes no cell; an erase or a print writes at the offset that
/// the head has reached by then, growing the tape where needed.
pub open spec fn tape_after(tape: TapeView, head: int, ops: Seq<Action>) -> TapeView
    decreases ops.len(),
{
    if ops.len() == 0 {
        tape
    } else {
        let before = tape_after(tape, head, ops.drop_last());
        let at = head_after(head, ops.drop_last());
        match ops.last() {
            Action::Erase => before.write(at, None, None),
            Action::Print(label) => before.write(at, None, Some(label)),
            _ => before,
        }
    }
}

/// Whether the head, starting at `head`, stays within the offsets that the
/// machine can count while it applies `ops`.
pub open spec fn head_stays_in_range(head: int, ops: Seq<Action>) -> bool {
    forall|n: int|
        0 <= n <= ops.len() ==> isize::MIN <= #[trigger] head_after(head, ops.subrange(0, n))
            <= isize::MAX
}

/// The state of a machine as a mathematical value.
pub struct MachineView {
    pub tape: TapeView,
    pub head: int,
    pub config: Seq<char>,
    pub table: TableView,
}

impl MachineView {
    /// The rule that applies to the cell under the head, if any.
    pub open spec fn rule(self) -> Option<RuleBody> {
        resolve_spec(self.table, self.config, self.tape.read(self.head, None))
    }

    /// Whether no rule applies: the configuration has no rules at all, or
    /// none for the cell under the head.
    pub open spec fn halted(self) -> bool {
        self.rule() is None
    }

    /// The state after one step of a machine that has not halted: the
    /// rule's actions are applied in order, the cell under the new head
    /// position is stored, and the rule's next configuration is taken.
    pub open spec fn step(self) -> MachineView
        recommends
            !self.halted(),
    {
        let (ops, next) = self.rule()->0;
        let head = head_after(self.head, ops);
        MachineView {
            tape: tape_after(self.tape, self.head, ops).covering(head, None),
            head,
            config: next,
            table: self.table,
        }
    }

    /// Whether the machine can take a step without its head leaving the
    /// offsets that it can count.
    pub open spec fn can_step(self) -> bool {
        self.rule() matches Some(body) ==> head_stays_in_range(self.head, body.0)
    }
}

/// Where a configuration has a rule for `Any`, that rule is the one applied
/// to every cell that holds a symbol, also where the configuration has a
/// rule for that very symbol.
pub proof fn law_any_goes_first(machine: MachineView, label: Seq<char>)
    requires
        machine.table.contains_key((machine.config, Pattern::Any)),
        machine.tape.read(machine.head, None) == Some(label),
    ensures
        machine.rule() == Some(machine.table[(machine.config, Pattern::Any)]),
        !machine.halted(),
        machine.step().config == machine.table[(machine.config, Pattern::Any)].1,
        machine.step().head == head_after(
            machine.head,
            machine.table[(machine.config, Pattern::Any)].0,
        ),
        machine.step().tape == tape_after(
            machine.tape,
            machine.head,
            machine.table[(machine.config, Pattern::Any)].0,
        ).covering(machine.step().head, None),
{
}

/// A machine has halted exactly when its table holds none of the rules that
/// are tried for the cell under the head: `Blank` and `Else` on a blank
/// cell; `Any`, the symbol itself and `Else` on a symbol.
pub proof fn law_halted_without_rule(machine: MachineView)
    ensures
        machine.halted() <==> match machine.tape.read(machine.head, None) {
            None => !machine.table.contains_key((machine.config, Pattern::Blank))
                && !machine.table.contains_key((machine.config, Pattern::Else)),
            Some(label) => !machine.table.contains_key((machine.config, Pattern::Any))
                && !machine.table.contains_key((machine.config, Pattern::Exact(label)))
                && !machine.table.contains_key((machine.config, Pattern::Else)),
        },
{
}

/// A machine whose configuration has no rule at all has halted.
pub proof fn law_halted_without_config(machine: MachineView)
    requires
        forall|pattern: Pattern| !machine.table.contains_key((machine.config, pattern)),
    ensures
        machine.halted(),
{
}

/// A Turing machine: a tape, the head's offset on it, the current
/// configuration and the transition table.
#[derive(Debug)]
pub struct TuringMachine {
    tape: Tape,
    head: isize,
    config: Config,
    statements: Statements,
}

impl View for TuringMachine {
    type V = MachineView;

    closed spec fn view(&self) -> MachineView {
        MachineView {
            tape: self.tape@,
            head: self.head as int,
            config: self.config@,
            table: self.statements@,
        }
    }
}

impl Clone for TuringMachine {
    fn clone(&self) -> (r: Self)
        ensures
            r@ == self@,
    {
        TuringMachine {
            tape: self.tape.clone(),
            head: self.head,
            config: self.config.clone(),
            statements: self.statements.clone(),
        }
    }
}

impl TuringMachine {
    /// A machine without rules, in configuration `start`, with its head at
    /// offset 0 of `tape`.
    pub fn new(tape: Tape, start: Config) -> (r: Self)
        ensures
            r@ == (MachineView { tape: tape@, head: 0, config: start@, table: Map::empty() }),
    {
        Self { tape, head: 0, config: start, statements: Statements::new() }
    }

    /// The tape.
    pub fn tape(&self) -> (r: &Tape)
        ensures
            r@ == self@.tape,
    {
        &self.tape
    }

    /// The offset of the head.
    pub fn head(&self) -> (r: isize)
        ensures
            r == self@.head,
    {
        self.head
    }

    /// The current configuration.
    pub fn config(&self) -> (r: &Config)
        ensures
            r@ == self@.config,
    {
        &self.config
    }

    /// The transition table.
    pub fn statements(&self) -> (r: &Statements)
        ensures
            r@ == self@.table,
    {
        &self.statements
    }

    /// Adds a rule to the table. A second rule for a configuration and a
    /// pattern that already have one is refused, and the machine stays as
    /// it is.
    pub fn add_statement(&mut self, stmt: Statement) -> (r: Result<(), String>)
        ensures
            match r {
                Ok(_) => accepts(old(self)@.table, stmt) && final(self)@ == (MachineView {
                    table: with_rule(old(self)@.table, stmt),
                    ..old(self)@
                }),
                Err(msg) => !accepts(old(self)@.table, stmt) && final(self)@ == old(self)@ && msg@
                    == "more than one statement with same config and symbol"@,
            },
    {
        match self.statements.insert(stmt) {
            Err(_) => Err(String::from_str("more than one statement with same config and symbol")),
            Ok(_) => Ok(()),
        }
    }

    /// Whether the next step keeps the head within the offsets that the
    /// machine can count. A machine that has halted can always step.
    pub fn can_step(&self) -> (r: bool)
        ensures
            r == self@.can_step(),
    {
        let cell = self.tape.get(self.head);
        match self.statements.resolve(&self.config, cell) {
            None => true,
            Some((ops, _)) => {
                let ghost all = actions(ops@);
                let mut head = self.head;
                let mut i: usize = 0;
                assert(all.subrange(0, 0) =~= Seq::empty());
                while i < ops.len()
                    invariant
                        i <= ops@.len(),
                        all == actions(ops@),
                        self@.rule() matches Some(body) && body.0 == all,
                        head == head_after(self.head as int, all.subrange(0, i as int)),
                        forall|n: int|
                            0 <= n <= i ==> isize::MIN <= #[trigger] head_after(
                                self.head as int,
                                all.subrange(0, n),
                            ) <= isize::MAX,
                    decreases ops@.len() - i,
                {
                    proof {
                        let upto = all.subrange(0, i + 1);
                        assert(upto.drop_last() =~= all.subrange(0, i as int));
                        assert(upto.last() == ops@[i as int]@);
                    }
                    match &ops[i] {
                        Op::L => {
                            if head == isize::MIN {
                                assert(head_after(self.head as int, all.subrange(0, i + 1))
                                    < isize::MIN);
                                return false;
                            }
                            head = head - 1;
                        },
                        Op::R => {
                            if head == isize::MAX {
                                assert(head_after(self.head as int, all.subrange(0, i + 1))
                                    > isize::MAX);
                                return false;
                            }
                            head = head + 1;
                        },
                        _ => {},
                    }
                    i = i + 1;
                }
                true
            },
        }
    }

    /// Takes one step. Where no rule applies the machine has halted: nothing
    /// changes and nothing is returned. Otherwise the rule's actions are
    /// applied in order and its next configuration is taken; the new
    /// configuration and the cell now under the head are returned.
    pub fn step(&mut self) -> (r: Option<(&Config, &Cell)>)
        requires
            old(self)@.can_step(),
        ensures
            old(self)@.halted() ==> r is None && final(self)@ == old(self)@,
            !old(self)@.halted() ==> final(self)@ == old(self)@.step() && r is Some && (r->0).0@
                == final(self)@.config && (r->0).1@ == final(self)@.tape.at(final(self)@.head),
    {
        let cell = self.tape.get(self.head);
        let (ops, next_state) = match self.statements.resolve(&self.config, cell) {
            Some(rule) => rule,
            None => {
                return None;
            },
        };
        let ghost start = self@;
        let ghost all = actions(ops@);
        let mut i: usize = 0;
        while i < ops.len()
            invariant
                i <= ops@.len(),
                all == actions(ops@),
                head_stays_in_range(start.head, all),
                self.head == head_after(start.head, all.subrange(0, i as int)),
                self.tape@ == tape_after(start.tape, start.head, all.subrange(0, i as int)),
                self.config@ == start.config,
                self.statements@ == start.table,
            decreases ops@.len() - i,
        {
            proof {
                let upto = all.subrange(0, i + 1);
                assert(upto.drop_last() =~= all.subrange(0, i as int));
                assert(upto.last() == ops@[i as int]@);
                assert(isize::MIN <= head_after(start.head, upto) <= isize::MAX);
            }
            match &ops[i] {
                Op::L => {
                    self.head = self.head - 1;
                },
                Op::R => {
                    self.head = self.head + 1;
                },
                Op::E => {
                    self.tape.set(self.head, Cell::Blank);
                },
                Op::P(s) => {
                    self.tape.set(self.head, Cell::Symbol(s.clone()));
                },
            }
            i = i + 1;
        }
        assert(all.subrange(0, ops@.len() as int) =~= all);
        self.config = next_state.clone();
        self.tape.get_mut(self.head);
        proof {
            let reached = tape_after(start.tape, start.head, all);
            assert(reached.write(self.head as int, None, reached.read(self.head as int, None))
                =~= reached.covering(self.head as int, None));
            assert(self@ =~= start.step());
        }
        Some((&self.config, self.tape.get(self.head)))
    }
}

/// The character for a digit.
pub open spec fn digit_char(d: nat) -> char {
    if d == 0 {
        '0'
    } else if d == 1 {
        '1'
    } else if d == 2 {
        '2'
    } else if d == 3 {
        '3'
    } else if d == 4 {
        '4'
    } else if d == 5 {
        '5'
    } else if d == 6 {
        '6'
    } else if d == 7 {
        '7'
    } else if d == 8 {
        '8'
    } else {
        '9'
    }
}

/// A number in decimal digits.
pub open spec fn decimal_text(n: nat) -> Seq<char>
    decreases n,
{
    if n < 10 {
        seq![digit_char(n)]
    } else {
        decimal_text(n / 10).push(digit_char(n % 10))
    }
}

/// The text for a digit.
fn digit(d: usize) -> (r: &'static str)
    requires
        d < 10,
    ensures
        r@ == seq![digit_char(d as nat)],
{
    proof {
        reveal_strlit("0");
        reveal_strlit("1");
        reveal_strlit("2");
        reveal_strlit("3");
        reveal_strlit("4");
        reveal_strlit("5");
        reveal_strlit("6");
        reveal_strlit("7");
        reveal_strlit("8");
        reveal_strlit("9");
    }
    let r = if d == 0 {
        "0"
    } else if d == 1 {
        "1"
    } else if d == 2 {
        "2"
    } else if d == 3 {
        "3"
    } else if d == 4 {
        "4"
    } else if d == 5 {
        "5"
    } else if d == 6 {
        "6"
    } else if d == 7 {
        "7"
    } else if d == 8 {
        "8"
    } else {
        "9"
    };
    assert(r@ =~= seq![digit_char(d as nat)]);
    r
}

/// A number in decimal digits.
fn decimal(n: usize) -> (r: String)
    ensures
        r@ == decimal_text(n as nat),
    decreases n,
{
    if n < 10 {
        String::from_str(digit(n))
    } else {
        let mut out = decimal(n / 10);
        out.append(digit(n % 10));
        assert(out@ =~= decimal_text(n as nat));
        out
    }
}

/// Whether a line of a description holds a rule: it is neither empty nor a
/// comment, which starts with `#`.
pub open spec fn holds_rule(line: Seq<char>) -> bool {
    line.len() > 0 && line[0] != '#'
}

/// The rules that `lines` hold, in their order, or the complaint about the
/// first line that holds something else.
pub open spec fn parse_lines_spec(lines: Seq<Seq<char>>) -> Result<Seq<Rule>, Seq<char>>
    decreases lines.len(),
{
    if lines.len() == 0 {
        Ok(Seq::empty())
    } else {
        match parse_lines_spec(lines.drop_last()) {
            Err(e) => Err(e),
            Ok(rules) => if holds_rule(lines.last()) {
                match parse_statement_spec(lines.last()) {
                    Err(e) => Err(e),
                    Ok(rule) => Ok(rules.push(rule)),
                }
            } else {
                Ok(rules)
            },
        }
    }
}

/// The complaint about the rule with index `i`, counted from 0 over the
/// rules alone, when an earlier rule has its configuration and pattern.
pub open spec fn duplicate_text(i: nat) -> Seq<char> {
    "`more than one statement with same config and symbol` in line `"@ + decimal_text(i) + "`"@
}

/// The table that holds `rules`, or the complaint about the first of them
/// that repeats the configuration and pattern of an earlier one.
pub open spec fn build_spec(rules: Seq<Rule>) -> Result<TableView, Seq<char>>
    decreases rules.len(),
{
    if rules.len() == 0 {
        Ok(Map::empty())
    } else {
        match build_spec(rules.drop_last()) {
            Err(e) => Err(e),
            Ok(table) => {
                let rule = rules.last();
                if table.contains_key((rule.config, rule.pattern)) {
                    Err(duplicate_text((rules.len() - 1) as nat))
                } else {
                    Ok(table.insert((rule.config, rule.pattern), (rule.actions, rule.next)))
                }
            },
        }
    }
}

/// The machine that a description stands for: its rules are those of the
/// lines that hold one, its configuration is that of the first rule, its
/// tape is blank and its head at offset 0. A line that holds no rule, no
/// comment and is not empty is refused; so is a description without rules,
/// and one with two rules for one configuration and pattern.
pub open spec fn machine_spec(s: Seq<char>) -> Result<MachineView, Seq<char>> {
    match parse_lines_spec(lines_spec(s)) {
        Err(e) => Err(e),
        Ok(rules) => if rules.len() == 0 {
            Err("empty description"@)
        } else {
            match build_spec(rules) {
                Err(e) => Err(e),
                Ok(table) => Ok(
                    MachineView {
                        tape: TapeView { back: Seq::empty(), front: Seq::empty() },
                        head: 0,
                        config: rules[0].config,
                        table,
                    },
                ),
            }
        }
    }
}

/// The rules behind a list of statements.
pub open spec fn rules_of(stmts: Seq<Statement>) -> Seq<Rule> {
    stmts.map_values(|stmt: Statement| stmt@)
}

impl TuringMachine {
    /// Reads a machine from its description, one rule per line; empty lines
    /// and lines that start with `#` are passed over.
    pub fn from_description(s: &str) -> (r: Result<TuringMachine, String>)
        ensures
            match r {
                Ok(tm) => machine_spec(s@) == Ok::<MachineView, Seq<char>>(tm@),
                Err(msg) => machine_spec(s@) == Err::<MachineView, Seq<char>>(msg@),
            },
    {
        let all = lines(s);
        let mut stmts: Vec<Statement> = Vec::new();
        let mut i: usize = 0;
        assert(texts(all@).take(0) =~= Seq::empty());
        assert(rules_of(stmts@) =~= Seq::empty());
        while i < all.len()
            invariant
                i <= all@.len(),
                texts(all@) == lines_spec(s@),
                parse_lines_spec(texts(all@).take(i as int)) == Ok::<Seq<Rule>, Seq<char>>(
                    rules_of(stmts@),
                ),
            decreases all@.len() - i,
        {
            let line = all[i];
            let chars_len = line.unicode_len();
            proof {
                let upto = texts(all@).take(i + 1);
                assert(upto.drop_last() =~= texts(all@).take(i as int));
                assert(upto.last() == line@);
            }
            if chars_len > 0 && line.get_char(0) != '#' {
                let ghost before = rules_of(stmts@);
                match parse_statement(line) {
                    Err(e) => {
                        proof {
                            lemma_parse_lines_fails(texts(all@), i + 1);
                        }
                        return Err(e);
                    },
                    Ok(stmt) => {
                        stmts.push(stmt);
                        assert(rules_of(stmts@) =~= before.push(stmt@));
                    },
                }
            }
            i = i + 1;
        }
        assert(texts(all@).take(all@.len() as int) =~= texts(all@));
        if stmts.len() == 0 {
            return Err(String::from_str("empty description"));
        }
        let ghost rules = rules_of(stmts@);
        let mut tm = TuringMachine::new(Tape::new(), stmts[0].config.clone());
        let mut k: usize = 0;
        assert(rules.take(0) =~= Seq::empty());
        while k < stmts.len()
            invariant
                k <= stmts@.len(),
                rules == rules_of(stmts@),
                stmts@.len() > 0,
                parse_lines_spec(lines_spec(s@)) == Ok::<Seq<Rule>, Seq<char>>(rules),
                build_spec(rules.take(k as int)) == Ok::<TableView, Seq<char>>(tm@.table),
                tm@.tape == (TapeView { back: Seq::empty(), front: Seq::empty() }),
                tm@.head == 0,
                tm@.config == rules[0].config,
            decreases stmts@.len() - k,
        {
            proof {
                let upto = rules.take(k + 1);
                assert(upto.drop_last() =~= rules.take(k as int));
                assert(upto.last() == stmts@[k as int]@);
            }
            match tm.add_statement(stmts[k].clone()) {
                Err(_) => {
                    proof {
                        lemma_build_fails(rules, k + 1);
                    }
                    let mut msg = String::from_str(
                        "`more than one statement with same config and symbol` in line `",
                    );
                    let number = decimal(k);
                    msg.append(number.as_str());
                    msg.append("`");
                    assert(msg@ =~= duplicate_text(k as nat));
                    return Err(msg);
                },
                Ok(_) => {},
            }
            k = k + 1;
        }
        assert(rules.take(stmts@.len() as int) =~= rules);
        Ok(tm)
    }
}

/// Once the first `n` lines are refused, so is the whole.
proof fn lemma_parse_lines_fails(lines: Seq<Seq<char>>, n: int)
    requires
        0 <= n <= lines.len(),
        parse_lines_spec(lines.take(n)) is Err,
    ensures
        parse_lines_spec(lines) == parse_lines_spec(lines.take(n)),
    decreases lines.len() - n,
{
    if n < lines.len() {
        assert(lines.take(n + 1).drop_last() =~= lines.take(n));
        lemma_parse_lines_fails(lines, n + 1);
    } else {
        assert(lines.take(n) =~= lines);
    }
}

/// Once the first `n` rules are refused, so is the whole.
proof fn lemma_build_fails(rules: Seq<Rule>, n: int)
    requires
        0 <= n <= rules.len(),
        build_spec(rules.take(n)) is Err,
    ensures
        build_spec(rules) == build_spec(rules.take(n)),
    decreases rules.len() - n,
{
    if n < rules.len() {
        assert(rules.take(n + 1).drop_last() =~= rules.take(n));
        lemma_build_fails(rules, n + 1);
    } else {
        assert(rules.take(n) =~= rules);
    }
}

impl std::str::FromStr for TuringMachine {
    type Err = String;

    fn from_str(s: &str) -> (r: Result<Self, String>)
        ensures
            match r {
                Ok(tm) => machine_spec(s@) == Ok::<MachineView, Seq<char>>(tm@),
                Err(msg) => machine_spec(s@) == Err::<MachineView, Seq<char>>(msg@),
            },
    {
        TuringMachine::from_description(s)
    }
}

} // verus!
