//! The transition table: which rule applies in a configuration to the cell
//! under the head.

use vstd::prelude::*;
use crate::tape::Cell;
use crate::{actions, Action, Config, InputSymbol, Op, Pattern, Statement};

verus! {

/// What a table is keyed by: a configuration and a pattern, the pattern
/// taken as written. `Any`, `Blank`, `Else` and each exact symbol are
/// different keys, however much the cells that they match overlap.
pub type RuleKey = (Seq<char>, Pattern);

/// What a table holds for a key: the actions and the next configuration.
pub type RuleBody = (Seq<Action>, Seq<char>);

/// The mathematical content of a transition table.
pub type TableView = Map<RuleKey, RuleBody>;

/// The key under which a statement is stored.
pub open spec fn key_of(stmt: Statement) -> RuleKey {
    (stmt.config@, stmt.symbol@)
}

/// What is stored for a statement.
pub open spec fn body_of(stmt: Statement) -> RuleBody {
    (actions(stmt.ops@), stmt.final_config@)
}

/// The table that a list of statements stands for. Of two statements with
/// one key the earlier one counts.
pub open spec fn table_of(rules: Seq<Statement>) -> TableView
    decreases rules.len(),
{
    if rules.len() == 0 {
        Map::empty()
    } else {
        let earlier = table_of(rules.drop_last());
        if earlier.contains_key(key_of(rules.last())) {
            earlier
        } else {
            earlier.insert(key_of(rules.last()), body_of(rules.last()))
        }
    }
}

/// Whether `table` has room for `stmt`: it holds no rule yet for the
/// configuration and the pattern, as written, of `stmt`.
pub open spec fn accepts(table: TableView, stmt: Statement) -> bool {
    !table.contains_key(key_of(stmt))
}

/// `table` with `stmt` stored in it.
pub open spec fn with_rule(table: TableView, stmt: Statement) -> TableView {
    table.insert(key_of(stmt), body_of(stmt))
}

/// The rule that applies in `config` to a cell that holds `cell`, if any.
/// On a blank cell the `Blank` rule goes before the `Else` rule. On a symbol
/// the `Any` rule goes before the rule for that very symbol, and both go
/// before the `Else` rule.
pub open spec fn resolve_spec(table: TableView, config: Seq<char>, cell: Option<Seq<char>>) -> Option<RuleBody> {
    match cell {
        None => {
            if table.contains_key((config, Pattern::Blank)) {
                Some(table[(config, Pattern::Blank)])
            } else if table.contains_key((config, Pattern::Else)) {
                Some(table[(config, Pattern::Else)])
            } else {
                None
            }
        },
        Some(label) => {
            if table.contains_key((config, Pattern::Any)) {
                Some(table[(config, Pattern::Any)])
            } else if table.contains_key((config, Pattern::Exact(label))) {
                Some(table[(config, Pattern::Exact(label))])
            } else if table.contains_key((config, Pattern::Else)) {
                Some(table[(config, Pattern::Else)])
            } else {
                None
            }
        },
    }
}

/// No statement of `rules` has the key `key`.
proof fn lemma_absent(rules: Seq<Statement>, key: RuleKey)
    requires
        forall|j: int| 0 <= j < rules.len() ==> key_of(#[trigger] rules[j]) != key,
    ensures
        !table_of(rules).contains_key(key),
    decreases rules.len(),
{
    if rules.len() > 0 {
        let earlier = rules.drop_last();
        assert forall|j: int| 0 <= j < earlier.len() implies key_of(#[trigger] earlier[j])
            != key by {
            assert(earlier[j] == rules[j]);
        }
        lemma_absent(earlier, key);
    }
}

/// The first statement of `rules` with the key `key` is the one that the
/// table holds.
proof fn lemma_first_counts(rules: Seq<Statement>, key: RuleKey, i: int)
    requires
        0 <= i < rules.len(),
        key_of(rules[i]) == key,
        forall|j: int| 0 <= j < i ==> key_of(#[trigger] rules[j]) != key,
    ensures
        table_of(rules).contains_key(key),
        table_of(rules)[key] == body_of(rules[i]),
    decreases rules.len(),
{
    let earlier = rules.drop_last();
    if i == rules.len() - 1 {
        assert forall|j: int| 0 <= j < earlier.len() implies key_of(#[trigger] earlier[j])
            != key by {
            assert(earlier[j] == rules[j]);
        }
        lemma_absent(earlier, key);
    } else {
        assert(earlier[i] == rules[i]);
        assert forall|j: int| 0 <= j < i implies key_of(#[trigger] earlier[j]) != key by {
            assert(earlier[j] == rules[j]);
        }
        lemma_first_counts(earlier, key, i);
    }
}

/// Every statement of `rules` has its key in the table.
proof fn lemma_present(rules: Seq<Statement>, i: int)
    requires
        0 <= i < rules.len(),
    ensures
        table_of(rules).contains_key(key_of(rules[i])),
    decreases rules.len(),
{
    if i < rules.len() - 1 {
        assert(rules.drop_last()[i] == rules[i]);
        lemma_present(rules.drop_last(), i);
    }
}

/// Lists of statements that stand for the same rules stand for the same
/// table.
proof fn lemma_table_of_rules(a: Seq<Statement>, b: Seq<Statement>)
    requires
        a.len() == b.len(),
        forall|i: int| 0 <= i < a.len() ==> (#[trigger] a[i])@ == b[i]@,
    ensures
        table_of(a) == table_of(b),
    decreases a.len(),
{
    if a.len() > 0 {
        assert forall|i: int| 0 <= i < a.drop_last().len() implies (#[trigger] a.drop_last()[i])@
            == b.drop_last()[i]@ by {
            assert(a.drop_last()[i] == a[i]);
        }
        lemma_table_of_rules(a.drop_last(), b.drop_last());
        assert(a.last()@ == b.last()@);
    }
}

/// The key for which a second rule was offered.
#[derive(Debug)]
pub struct DuplicateRuleError {
    pub config: Config,
    pub symbol: InputSymbol,
}

/// The transition table: for a configuration and a pattern, the actions to
/// apply and the configuration to go to.
#[derive(Debug)]
pub struct Statements {
    rules: Vec<Statement>,
}

impl View for Statements {
    type V = TableView;

    closed spec fn view(&self) -> TableView {
        table_of(self.rules@)
    }
}

impl Clone for Statements {
    fn clone(&self) -> (r: Self)
        ensures
            r@ == self@,
    {
        let rules = self.rules.clone();
        proof {
            use_type_invariant(self);
            lemma_table_of_rules(self.rules@, rules@);
        }
        Statements { rules }
    }
}

impl Statements {
    /// No two stored statements have the same key.
    #[verifier::type_invariant]
    spec fn distinct_keys(&self) -> bool {
        forall|i: int, j: int|
            0 <= i < j < self.rules@.len() ==> key_of(#[trigger] self.rules@[i]) != key_of(
                #[trigger] self.rules@[j],
            )
    }

    /// A table without rules.
    pub fn new() -> (r: Self)
        ensures
            r@ == TableView::empty(),
    {
        Statements { rules: Vec::new() }
    }

    /// The statement stored under a key, if there is one.
    fn find(&self, config: &Config, symbol: &InputSymbol) -> (r: Option<&Statement>)
        ensures
            match r {
                Some(stmt) => self@.contains_key((config@, symbol@)) && self@[(config@, symbol@)]
                    == body_of(*stmt) && key_of(*stmt) == (config@, symbol@),
                None => !self@.contains_key((config@, symbol@)),
            },
    {
        let mut i: usize = 0;
        while i < self.rules.len()
            invariant
                i <= self.rules@.len(),
                forall|j: int| 0 <= j < i ==> key_of(#[trigger] self.rules@[j]) != (config@, symbol@),
            decreases self.rules@.len() - i,
        {
            let stmt = &self.rules[i];
            if stmt.config == *config && stmt.symbol == *symbol {
                proof {
                    lemma_first_counts(self.rules@, (config@, symbol@), i as int);
                }
                return Some(stmt);
            }
            i = i + 1;
        }
        proof {
            lemma_absent(self.rules@, (config@, symbol@));
        }
        None
    }

    /// Whether a rule is stored for exactly this configuration and pattern.
    pub fn contains(&self, config: &Config, symbol: &InputSymbol) -> (r: bool)
        ensures
            r == self@.contains_key((config@, symbol@)),
    {
        self.find(config, symbol).is_some()
    }

    /// Stores a rule, unless one is stored already for the same
    /// configuration and the same pattern as written; then the table stays
    /// as it is and the key comes back.
    pub fn insert(&mut self, stmt: Statement) -> (r: Result<(), DuplicateRuleError>)
        ensures
            match r {
                Ok(_) => accepts(old(self)@, stmt) && final(self)@ == with_rule(old(self)@, stmt),
                Err(e) => !accepts(old(self)@, stmt) && final(self)@ == old(self)@ && (
                    e.config@,
                    e.symbol@,
                ) == key_of(stmt),
            },
    {
        if self.contains(&stmt.config, &stmt.symbol) {
            Err(DuplicateRuleError { config: stmt.config, symbol: stmt.symbol })
        } else {
            proof {
                use_type_invariant(&*self);
                assert forall|i: int| 0 <= i < self.rules@.len() implies key_of(
                    #[trigger] self.rules@[i],
                ) != key_of(stmt) by {
                    lemma_present(self.rules@, i);
                }
            }
            let mut taken = Statements { rules: Vec::new() };
            std::mem::swap(self, &mut taken);
            let Statements { mut rules } = taken;
            rules.push(stmt);
            assert(rules@.drop_last() =~= old(self).rules@);
            *self = Statements { rules };
            Ok(())
        }
    }

    /// The rule that applies in `config` to `cell`: its actions and the next
    /// configuration. On a blank cell the `Blank` rule is tried, then the
    /// `Else` rule; on a symbol the `Any` rule, then the rule for that
    /// symbol, then the `Else` rule.
    pub fn resolve(&self, config: &Config, cell: &Cell) -> (r: Option<(&[Op], &Config)>)
        ensures
            match r {
                Some((ops, next)) => resolve_spec(self@, config@, cell@) == Some(
                    (actions(ops@), next@),
                ),
                None => resolve_spec(self@, config@, cell@) is None,
            },
    {
        let first = match cell {
            Cell::Blank => self.find(config, &InputSymbol::Blank),
            Cell::Symbol(s) => {
                match self.find(config, &InputSymbol::Any) {
                    Some(stmt) => Some(stmt),
                    None => self.find(config, &InputSymbol::Symbol(s.clone())),
                }
            },
        };
        let found = match first {
            Some(stmt) => Some(stmt),
            None => self.find(config, &InputSymbol::Else),
        };
        match found {
            Some(stmt) => Some((stmt.ops.as_slice(), &stmt.final_config)),
            None => None,
        }
    }
}

/// Once a rule is stored, the table has no room for a second rule with the
/// same configuration and the same pattern as written, whatever its actions
/// and its next configuration.
pub proof fn law_same_key_refused(table: TableView, first: Statement, second: Statement)
    requires
        key_of(second) == key_of(first),
    ensures
        !accepts(with_rule(table, first), second),
{
}

/// Storing a rule takes no room from a rule with another key. Patterns
/// count as written: for one configuration, `Any`, `Blank`, `Else` and each
/// exact symbol are keys of their own, so a rule for `Any` and a rule for a
/// symbol that `Any` matches are both stored.
pub proof fn law_other_key_accepted(table: TableView, first: Statement, second: Statement)
    requires
        first.config@ != second.config@ || first.symbol@ != second.symbol@,
    ensures
        accepts(with_rule(table, first), second) == accepts(table, second),
{
}

} // verus!
