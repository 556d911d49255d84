//! The text form of a machine description, one rule per line:
//!
//! ```text
//! config : pattern = op, op, ... -> next_config
//! ```

use vstd::prelude::*;
use vstd::string::{StrSliceExecFns, StringExecFns};
use crate::{Action, Config, InputSymbol, Op, Operations, Pattern, Rule, Statement, Symbol};

verus! {

/// Whether `c` may stand in the name of a configuration or a symbol: an
/// ASCII letter, an ASCII digit or `_`.
pub open spec fn is_ident_char(c: char) -> bool {
    ('a' <= c && c <= 'z') || ('A' <= c && c <= 'Z') || ('0' <= c && c <= '9') || c == '_'
}

/// Whether `s` is a name: not empty, and made of name characters only.
pub open spec fn is_ident_spec(s: Seq<char>) -> bool {
    s.len() > 0 && forall|i: int| 0 <= i < s.len() ==> is_ident_char(#[trigger] s[i])
}

/// Whether `c` is white space: one of the characters with the Unicode
/// property `White_Space`.
pub open spec fn is_space(c: char) -> bool {
    ('\u{9}' <= c && c <= '\u{d}') || c == ' ' || c == '\u{85}' || c == '\u{a0}' || c
        == '\u{1680}' || ('\u{2000}' <= c && c <= '\u{200a}') || c == '\u{2028}' || c
        == '\u{2029}' || c == '\u{202f}' || c == '\u{205f}' || c == '\u{3000}'
}

fn ident_char(c: char) -> (r: bool)
    ensures
        r == is_ident_char(c),
{
    ('a' <= c && c <= 'z') || ('A' <= c && c <= 'Z') || ('0' <= c && c <= '9') || c == '_'
}

fn space(c: char) -> (r: bool)
    ensures
        r == is_space(c),
{
    ('\u{9}' <= c && c <= '\u{d}') || c == ' ' || c == '\u{85}' || c == '\u{a0}' || c
        == '\u{1680}' || ('\u{2000}' <= c && c <= '\u{200a}') || c == '\u{2028}' || c
        == '\u{2029}' || c == '\u{202f}' || c == '\u{205f}' || c == '\u{3000}'
}

/// The characters of a string.
fn chars_of(s: &str) -> (r: Vec<char>)
    ensures
        r@ == s@,
{
    let mut out: Vec<char> = Vec::new();
    for c in it: s.chars()
        invariant
            out@ == it.seq().take(it.index()),
    {
        out.push(c);
    }
    out
}

/// Whether `s` is a name: not empty, and made of ASCII letters, ASCII
/// digits and `_` only.
pub fn is_ident(s: &str) -> (r: bool)
    ensures
        r == is_ident_spec(s@),
{
    let chars = chars_of(s);
    if chars.len() == 0 {
        return false;
    }
    let mut i: usize = 0;
    while i < chars.len()
        invariant
            chars@ == s@,
            chars@.len() > 0,
            i <= chars@.len(),
            forall|j: int| 0 <= j < i ==> is_ident_char(#[trigger] chars@[j]),
        decreases chars@.len() - i,
    {
        if !ident_char(chars[i]) {
            assert(!is_ident_char(s@[i as int]));
            return false;
        }
        i = i + 1;
    }
    true
}

/// Whether `i` is the first position of `c` in `s`, or the length of `s`
/// where `c` does not occur.
pub open spec fn is_first(s: Seq<char>, c: char, i: int) -> bool {
    &&& 0 <= i <= s.len()
    &&& forall|j: int| 0 <= j < i ==> #[trigger] s[j] != c
    &&& i < s.len() ==> s[i] == c
}

/// The first position of `c` in `s`, or the length of `s` where `c` does not
/// occur.
pub open spec fn first_index(s: Seq<char>, c: char) -> int {
    choose|i: int| is_first(s, c, i)
}

/// Whether `s` without its first `a` and its last `s.len() - b` characters
/// is `s` without the white space at its two ends.
pub open spec fn is_trim(s: Seq<char>, a: int, b: int) -> bool {
    &&& 0 <= a <= b <= s.len()
    &&& forall|j: int| 0 <= j < a ==> is_space(#[trigger] s[j])
    &&& forall|j: int| b <= j < s.len() ==> is_space(#[trigger] s[j])
    &&& a < b ==> !is_space(s[a]) && !is_space(s[b - 1])
}

/// `s` without the white space at its two ends.
pub open spec fn trimmed(s: Seq<char>) -> Seq<char> {
    let (a, b) = choose|a: int, b: int| is_trim(s, a, b);
    s.subrange(a, b)
}

/// Whether `pat` stands in `s` at position `i`.
pub open spec fn occurs_at(s: Seq<char>, pat: Seq<char>, i: int) -> bool {
    0 <= i && i + pat.len() <= s.len() && s.subrange(i, i + pat.len()) == pat
}

/// Whether `pat` stands in `s` at position `i` and nowhere else.
pub open spec fn only_at(s: Seq<char>, pat: Seq<char>, i: int) -> bool {
    occurs_at(s, pat, i) && forall|j: int| occurs_at(s, pat, j) ==> j == i
}

/// What stands before and after `pat` in `s`, where `pat` occurs in `s`
/// exactly once.
pub open spec fn split_in_two(s: Seq<char>, pat: Seq<char>) -> Option<(Seq<char>, Seq<char>)> {
    if exists|i: int| only_at(s, pat, i) {
        let i = choose|i: int| only_at(s, pat, i);
        Some((s.subrange(0, i), s.subrange(i + pat.len(), s.len() as int)))
    } else {
        None
    }
}

/// The first position of `c` in `chars` from `from` on, or the length of
/// `chars`.
fn find_char(chars: &Vec<char>, from: usize, c: char) -> (r: usize)
    requires
        from <= chars@.len(),
    ensures
        from <= r <= chars@.len(),
        is_first(chars@.subrange(from as int, chars@.len() as int), c, r - from),
{
    let mut i = from;
    while i < chars.len() && chars[i] != c
        invariant
            from <= i <= chars@.len(),
            forall|j: int| from <= j < i ==> #[trigger] chars@[j] != c,
        decreases chars@.len() - i,
    {
        i = i + 1;
    }
    i
}

/// Whether two strings hold the same text.
fn same_text(a: &str, b: &str) -> (r: bool)
    ensures
        r == (a@ == b@),
{
    let x = chars_of(a);
    let y = chars_of(b);
    if x.len() != y.len() {
        return false;
    }
    let mut i: usize = 0;
    while i < x.len()
        invariant
            x@ == a@,
            y@ == b@,
            x@.len() == y@.len(),
            i <= x@.len(),
            forall|j: int| 0 <= j < i ==> x@[j] == y@[j],
        decreases x@.len() - i,
    {
        if x[i] != y[i] {
            return false;
        }
        i = i + 1;
    }
    assert(a@ =~= b@);
    true
}

/// `s` without the white space at its two ends.
pub fn trim(s: &str) -> (r: &str)
    ensures
        r@ == trimmed(s@),
{
    let chars = chars_of(s);
    let n = chars.len();
    let mut a: usize = 0;
    while a < n && space(chars[a])
        invariant
            n == chars@.len(),
            a <= n,
            forall|j: int| 0 <= j < a ==> is_space(#[trigger] chars@[j]),
        decreases n - a,
    {
        a = a + 1;
    }
    let mut b: usize = n;
    while b > a && space(chars[b - 1])
        invariant
            n == chars@.len(),
            a <= b <= n,
            forall|j: int| b <= j < n ==> is_space(#[trigger] chars@[j]),
        decreases b,
    {
        b = b - 1;
    }
    proof {
        lemma_trim(s@, a as int, b as int);
    }
    s.substring_char(a, b)
}

/// Any two ways to cut the white space off the two ends of `s` leave the
/// same text.
proof fn lemma_trim(s: Seq<char>, a: int, b: int)
    requires
        is_trim(s, a, b),
    ensures
        trimmed(s) == s.subrange(a, b),
{
    let (x, y) = choose|x: int, y: int| is_trim(s, x, y);
    assert(is_trim(s, x, y));
    if a < b {
        assert(x <= a) by {
            if a < x {
                assert(is_space(s[a]));
            }
        }
        assert(b <= y) by {
            if y < b {
                assert(is_space(s[b - 1]));
            }
        }
        assert(x < y);
        assert(x == a) by {
            if x < a {
                assert(is_space(s[x]));
            }
        }
        assert(y == b) by {
            if b < y {
                assert(is_space(s[y - 1]));
            }
        }
    } else {
        if x < y {
            if x < a {
                assert(is_space(s[x]));
            } else {
                assert(is_space(s[x]));
            }
        }
        assert(s.subrange(x, y) =~= s.subrange(a, b));
    }
}

/// Whether `pat` stands in `chars` at position `i`.
fn matches_at(chars: &Vec<char>, pat: &Vec<char>, i: usize) -> (r: bool)
    requires
        i + pat@.len() <= chars@.len(),
    ensures
        r == occurs_at(chars@, pat@, i as int),
{
    let mut k: usize = 0;
    while k < pat.len()
        invariant
            i + pat.len() <= chars.len(),
            k <= pat@.len(),
            forall|j: int| 0 <= j < k ==> chars@[i + j] == #[trigger] pat@[j],
        decreases pat@.len() - k,
    {
        if chars[i + k] != pat[k] {
            assert(chars@.subrange(i as int, i + pat@.len())[k as int] != pat@[k as int]);
            return false;
        }
        k = k + 1;
    }
    assert(chars@.subrange(i as int, i + pat@.len()) =~= pat@);
    true
}

/// Whether `pat` stands in `s` at `k` and at no other position before
/// `upto`.
spec fn only_before(s: Seq<char>, pat: Seq<char>, k: int, upto: int) -> bool {
    occurs_at(s, pat, k) && forall|j: int| 0 <= j < upto && occurs_at(s, pat, j) ==> j == k
}

/// What stands before and after `pat` in `s`, where `pat` occurs in `s`
/// exactly once; nothing where it occurs more often or not at all.
pub fn extract<'a>(s: &'a str, pat: &str) -> (r: Option<(&'a str, &'a str)>)
    ensures
        match r {
            Some((before, after)) => split_in_two(s@, pat@) == Some((before@, after@)),
            None => split_in_two(s@, pat@) is None,
        },
{
    let chars = chars_of(s);
    let p = chars_of(pat);
    let n = chars.len();
    let m = p.len();
    if m > n {
        return None;
    }
    let last = n - m;
    let mut found: Option<usize> = None;
    let mut i: usize = 0;
    loop
        invariant_except_break
            i <= last,
            match found {
                Some(k) => k < i && only_before(chars@, p@, k as int, i as int),
                None => forall|j: int| 0 <= j < i ==> !occurs_at(chars@, p@, j),
            },
        invariant
            chars@ == s@,
            p@ == pat@,
            n == chars@.len(),
            m == p@.len(),
            last == n - m,
        ensures
            match found {
                Some(k) => only_at(chars@, p@, k as int),
                None => forall|j: int| !occurs_at(chars@, p@, j),
            },
        decreases last - i,
    {
        if matches_at(&chars, &p, i) {
            if found.is_some() {
                return None;
            }
            found = Some(i);
        }
        if i == last {
            break ;
        }
        i = i + 1;
    }
    match found {
        Some(k) => {
            let before = s.substring_char(0, k);
            let after = s.substring_char(k + m, n);
            Some((before, after))
        },
        None => None,
    }
}

/// The complaint about a line that is not of the form
/// `config : pattern = ops -> config`.
pub open spec fn malformed_text(line: Seq<char>) -> Seq<char> {
    "malformed statement `"@ + line + "`"@
}

/// The complaint about text that is no symbol.
pub open spec fn symbol_error_text(s: Seq<char>) -> Seq<char> {
    "error parsing symbol `"@ + s + "`"@
}

/// The complaint about text that is no configuration.
pub open spec fn config_error_text(s: Seq<char>) -> Seq<char> {
    "error parsing config `"@ + s + "`"@
}

/// The complaint about text that is no operation at all.
pub open spec fn op_error_text(op: Seq<char>) -> Seq<char> {
    "error parsing Op: unrecognized Op `"@ + op + "`"@
}

/// The complaint about a print whose symbol is refused with `inner`.
pub open spec fn print_error_text(inner: Seq<char>) -> Seq<char> {
    "error parsing Op: "@ + inner
}

/// A symbol is a name.
pub open spec fn parse_symbol_spec(s: Seq<char>) -> Result<Seq<char>, Seq<char>> {
    if is_ident_spec(s) {
        Ok(s)
    } else {
        Err(symbol_error_text(s))
    }
}

/// A configuration is a name.
pub open spec fn parse_config_spec(s: Seq<char>) -> Result<Seq<char>, Seq<char>> {
    if is_ident_spec(s) {
        Ok(s)
    } else {
        Err(config_error_text(s))
    }
}

/// A pattern is one of the words `Any`, `None` and `Else`, each also in
/// lower case, or else the symbol to match.
pub open spec fn parse_input_symbol_spec(s: Seq<char>) -> Result<Pattern, Seq<char>> {
    if s == "Any"@ || s == "any"@ {
        Ok(Pattern::Any)
    } else if s == "None"@ || s == "none"@ {
        Ok(Pattern::Blank)
    } else if s == "Else"@ || s == "else"@ {
        Ok(Pattern::Else)
    } else {
        match parse_symbol_spec(s) {
            Ok(label) => Ok(Pattern::Exact(label)),
            Err(e) => Err(e),
        }
    }
}

/// Whether `op` has the form of a print: `P(`, anything, `)`.
pub open spec fn is_print_form(op: Seq<char>) -> bool {
    op.len() >= 3 && op[0] == 'P' && op[1] == '(' && op.last() == ')'
}

/// An operation is `L`, `R`, `E` or `P(symbol)`.
pub open spec fn parse_op_spec(op: Seq<char>) -> Result<Action, Seq<char>> {
    if op == "L"@ {
        Ok(Action::Left)
    } else if op == "R"@ {
        Ok(Action::Right)
    } else if op == "E"@ {
        Ok(Action::Erase)
    } else if is_print_form(op) {
        match parse_symbol_spec(op.subrange(2, op.len() - 1)) {
            Ok(label) => Ok(Action::Print(label)),
            Err(e) => Err(print_error_text(e)),
        }
    } else {
        Err(op_error_text(op))
    }
}

/// The operations of a list with at least one item: the items stand
/// between commas, each with any white space around it. The first item that
/// is no operation decides the complaint.
pub open spec fn parse_op_list_spec(s: Seq<char>) -> Result<Seq<Action>, Seq<char>>
    decreases s.len(),
{
    let i = first_index(s, ',');
    if 0 <= i < s.len() {
        match parse_op_spec(trimmed(s.subrange(0, i))) {
            Err(e) => Err(e),
            Ok(action) => match parse_op_list_spec(s.subrange(i + 1, s.len() as int)) {
                Err(e) => Err(e),
                Ok(rest) => Ok(seq![action] + rest),
            },
        }
    } else {
        match parse_op_spec(trimmed(s)) {
            Err(e) => Err(e),
            Ok(action) => Ok(seq![action]),
        }
    }
}

/// The operations of a rule: none where only white space is written, else a
/// list with commas between its items.
pub open spec fn parse_ops_spec(s: Seq<char>) -> Result<Seq<Action>, Seq<char>> {
    if trimmed(s).len() == 0 {
        Ok(Seq::empty())
    } else {
        parse_op_list_spec(trimmed(s))
    }
}

/// A rule is `config : pattern = ops -> config`, with exactly one `:`, after
/// it exactly one `=`, and after that exactly one `->`. White space around
/// each part does not count. The first part that is refused decides the
/// complaint.
pub open spec fn parse_statement_spec(s: Seq<char>) -> Result<Rule, Seq<char>> {
    match split_in_two(s, ":"@) {
        None => Err(malformed_text(s)),
        Some((config, rest)) => match parse_config_spec(trimmed(config)) {
            Err(e) => Err(e),
            Ok(config) => match split_in_two(rest, "="@) {
                None => Err(malformed_text(s)),
                Some((symbol, rest)) => match parse_input_symbol_spec(trimmed(symbol)) {
                    Err(e) => Err(e),
                    Ok(pattern) => match split_in_two(rest, "->"@) {
                        None => Err(malformed_text(s)),
                        Some((ops, final_config)) => match parse_ops_spec(trimmed(ops)) {
                            Err(e) => Err(e),
                            Ok(actions) => match parse_config_spec(trimmed(final_config)) {
                                Err(e) => Err(e),
                                Ok(next) => Ok(Rule { config, pattern, actions, next }),
                            },
                        },
                    },
                },
            },
        },
    }
}

/// `open`, then `s`, then `close`.
fn quote(open: &str, s: &str, close: &str) -> (r: String)
    ensures
        r@ == open@ + s@ + close@,
{
    let mut out = String::from_str(open);
    out.append(s);
    out.append(close);
    out
}

/// Reads a symbol: a name.
pub fn parse_symbol(s: &str) -> (r: Result<Symbol, String>)
    ensures
        match r {
            Ok(symbol) => parse_symbol_spec(s@) == Ok::<Seq<char>, Seq<char>>(symbol@),
            Err(msg) => parse_symbol_spec(s@) == Err::<Seq<char>, Seq<char>>(msg@),
        },
{
    if is_ident(s) {
        Ok(Symbol(String::from_str(s)))
    } else {
        Err(quote("error parsing symbol `", s, "`"))
    }
}

/// Reads a configuration: a name.
pub fn parse_config(s: &str) -> (r: Result<Config, String>)
    ensures
        match r {
            Ok(config) => parse_config_spec(s@) == Ok::<Seq<char>, Seq<char>>(config@),
            Err(msg) => parse_config_spec(s@) == Err::<Seq<char>, Seq<char>>(msg@),
        },
{
    if is_ident(s) {
        Ok(String::from_str(s))
    } else {
        Err(quote("error parsing config `", s, "`"))
    }
}

/// Reads a pattern: `Any`, `None` or `Else`, each also in lower case, or
/// else a symbol.
pub fn parse_input_symbol(s: &str) -> (r: Result<InputSymbol, String>)
    ensures
        match r {
            Ok(symbol) => parse_input_symbol_spec(s@) == Ok::<Pattern, Seq<char>>(symbol@),
            Err(msg) => parse_input_symbol_spec(s@) == Err::<Pattern, Seq<char>>(msg@),
        },
{
    if same_text(s, "Any") || same_text(s, "any") {
        Ok(InputSymbol::Any)
    } else if same_text(s, "None") || same_text(s, "none") {
        Ok(InputSymbol::Blank)
    } else if same_text(s, "Else") || same_text(s, "else") {
        Ok(InputSymbol::Else)
    } else {
        match parse_symbol(s) {
            Ok(symbol) => Ok(InputSymbol::Symbol(symbol)),
            Err(e) => Err(e),
        }
    }
}

/// Reads one operation: `L`, `R`, `E` or `P(symbol)`.
pub fn parse_op(op: &str) -> (r: Result<Op, String>)
    ensures
        match r {
            Ok(o) => parse_op_spec(op@) == Ok::<Action, Seq<char>>(o@),
            Err(msg) => parse_op_spec(op@) == Err::<Action, Seq<char>>(msg@),
        },
{
    if same_text(op, "L") {
        return Ok(Op::L);
    }
    if same_text(op, "R") {
        return Ok(Op::R);
    }
    if same_text(op, "E") {
        return Ok(Op::E);
    }
    let chars = chars_of(op);
    let n = chars.len();
    if n >= 3 && chars[0] == 'P' && chars[1] == '(' && chars[n - 1] == ')' {
        let inner = op.substring_char(2, n - 1);
        match parse_symbol(inner) {
            Ok(symbol) => Ok(Op::P(symbol)),
            Err(e) => {
                let mut msg = String::from_str("error parsing Op: ");
                msg.append(e.as_str());
                Err(msg)
            },
        }
    } else {
        Err(quote("error parsing Op: unrecognized Op `", op, "`"))
    }
}

/// Reads the operations of a rule: nothing but white space for none, else
/// operations with commas between them.
pub fn parse_ops(ops: &str) -> (r: Result<Operations, String>)
    ensures
        match r {
            Ok(v) => parse_ops_spec(ops@) == Ok::<Seq<Action>, Seq<char>>(crate::actions(v@)),
            Err(msg) => parse_ops_spec(ops@) == Err::<Seq<Action>, Seq<char>>(msg@),
        },
{
    let t = trim(ops);
    let mut v = Operations::new();
    let chars = chars_of(t);
    let n = chars.len();
    if n == 0 {
        assert(crate::actions(v@) =~= Seq::empty());
        return Ok(v);
    }
    let mut from: usize = 0;
    proof {
        assert(t@.subrange(0, n as int) =~= t@);
        match parse_op_list_spec(t@) {
            Ok(rest) => {
                assert(crate::actions(v@) + rest =~= rest);
            },
            Err(_) => {},
        }
    }
    loop
        invariant
            t@ == trimmed(ops@),
            chars@ == t@,
            n == chars@.len(),
            n > 0,
            from <= n,
            parse_op_list_spec(t@) == (match parse_op_list_spec(t@.subrange(from as int, n as int)) {
                Ok(rest) => Ok::<Seq<Action>, Seq<char>>(crate::actions(v@) + rest),
                Err(e) => Err(e),
            }),
        decreases n - from,
    {
        let ghost rest = t@.subrange(from as int, n as int);
        let comma = find_char(&chars, from, ',');
        assert(first_index(rest, ',') == comma - from);
        let item = trim(t.substring_char(from, comma));
        assert(t@.subrange(from as int, comma as int) =~= rest.subrange(0, comma - from));
        let ghost before = crate::actions(v@);
        match parse_op(item) {
            Err(e) => {
                return Err(e);
            },
            Ok(op) => {
                v.push(op);
                assert(crate::actions(v@) =~= before + seq![op@]);
            },
        }
        if comma == n {
            assert(rest.subrange(0, comma - from) =~= rest);
            return Ok(v);
        }
        proof {
            assert(rest.subrange(comma - from + 1, rest.len() as int) =~= t@.subrange(
                comma + 1,
                n as int,
            ));
            match parse_op_list_spec(t@.subrange(comma + 1, n as int)) {
                Ok(more) => {
                    assert(before + (seq![v@.last()@] + more) =~= crate::actions(v@) + more);
                },
                Err(_) => {},
            }
        }
        from = comma + 1;
    }
}

/// Reads one rule of the form `config : pattern = ops -> config`.
pub fn parse_statement(s: &str) -> (r: Result<Statement, String>)
    ensures
        match r {
            Ok(stmt) => parse_statement_spec(s@) == Ok::<Rule, Seq<char>>(stmt@),
            Err(msg) => parse_statement_spec(s@) == Err::<Rule, Seq<char>>(msg@),
        },
{
    let (config, rest) = match extract(s, ":") {
        Some(parts) => parts,
        None => {
            return Err(quote("malformed statement `", s, "`"));
        },
    };
    let config = match parse_config(trim(config)) {
        Ok(c) => c,
        Err(e) => {
            return Err(e);
        },
    };
    let (symbol, rest) = match extract(rest, "=") {
        Some(parts) => parts,
        None => {
            return Err(quote("malformed statement `", s, "`"));
        },
    };
    let symbol = match parse_input_symbol(trim(symbol)) {
        Ok(p) => p,
        Err(e) => {
            return Err(e);
        },
    };
    let (ops, final_config) = match extract(rest, "->") {
        Some(parts) => parts,
        None => {
            return Err(quote("malformed statement `", s, "`"));
        },
    };
    let ops = match parse_ops(trim(ops)) {
        Ok(v) => v,
        Err(e) => {
            return Err(e);
        },
    };
    let final_config = match parse_config(trim(final_config)) {
        Ok(c) => c,
        Err(e) => {
            return Err(e);
        },
    };
    Ok(Statement { config, symbol, ops, final_config })
}

/// A line without the carriage return at its end, if it has one.
pub open spec fn without_cr(line: Seq<char>) -> Seq<char> {
    if line.len() > 0 && line.last() == '\r' {
        line.drop_last()
    } else {
        line
    }
}

/// The lines of a text. A line ends at a line feed, or at a carriage
/// return followed by a line feed; neither belongs to the line. What stands
/// after the last line feed is a line too, unless it is empty.
pub open spec fn lines_spec(s: Seq<char>) -> Seq<Seq<char>>
    decreases s.len(),
{
    if s.len() == 0 {
        Seq::empty()
    } else {
        let i = first_index(s, '\n');
        if 0 <= i < s.len() {
            seq![without_cr(s.subrange(0, i))] + lines_spec(s.subrange(i + 1, s.len() as int))
        } else {
            seq![s]
        }
    }
}

/// The text of each string.
pub open spec fn texts(v: Seq<&str>) -> Seq<Seq<char>> {
    v.map_values(|l: &str| l@)
}

/// The lines of a text, without their line endings.
pub fn lines(s: &str) -> (r: Vec<&str>)
    ensures
        texts(r@) == lines_spec(s@),
{
    let chars = chars_of(s);
    let n = chars.len();
    let mut out: Vec<&str> = Vec::new();
    let mut from: usize = 0;
    proof {
        assert(s@.subrange(0, n as int) =~= s@);
        assert(texts(out@) + lines_spec(s@) =~= lines_spec(s@));
    }
    while from < n
        invariant
            chars@ == s@,
            n == chars@.len(),
            from <= n,
            lines_spec(s@) == texts(out@) + lines_spec(s@.subrange(from as int, n as int)),
        decreases n - from,
    {
        let ghost rest = s@.subrange(from as int, n as int);
        let ghost before = texts(out@);
        let nl = find_char(&chars, from, '\n');
        assert(first_index(rest, '\n') == nl - from);
        if nl == n {
            let line = s.substring_char(from, n);
            out.push(line);
            proof {
                assert(line@ =~= rest);
                assert(texts(out@) =~= before + seq![rest]);
                assert(s@.subrange(n as int, n as int) =~= Seq::<char>::empty());
                assert(lines_spec(s@.subrange(n as int, n as int)) =~= Seq::empty());
                assert(texts(out@) + lines_spec(s@.subrange(n as int, n as int)) =~= before
                    + lines_spec(rest));
            }
            from = n;
        } else {
            let mut end = nl;
            if end > from && chars[end - 1] == '\r' {
                end = end - 1;
            }
            let line = s.substring_char(from, end);
            out.push(line);
            proof {
                let raw = rest.subrange(0, nl - from);
                assert(raw =~= s@.subrange(from as int, nl as int));
                assert(line@ =~= without_cr(raw));
                assert(texts(out@) =~= before + seq![without_cr(raw)]);
                assert(rest.subrange(nl - from + 1, rest.len() as int) =~= s@.subrange(
                    nl + 1,
                    n as int,
                ));
                assert(texts(out@) + lines_spec(s@.subrange(nl + 1, n as int)) =~= before
                    + lines_spec(rest));
            }
            from = nl + 1;
        }
    }
    proof {
        assert(s@.subrange(n as int, n as int) =~= Seq::<char>::empty());
        assert(texts(out@) + lines_spec(s@.subrange(n as int, n as int)) =~= texts(out@));
    }
    out
}

} // verus!
