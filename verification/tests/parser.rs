use turing::parser::{
    extract, is_ident, lines, parse_config, parse_input_symbol, parse_op, parse_ops,
    parse_statement, parse_symbol, trim,
};
use turing::{InputSymbol, Op, Statement, Symbol};

fn sym(s: &str) -> Symbol {
    Symbol(s.to_string())
}

fn err<T: std::fmt::Debug>(r: Result<T, String>) -> String {
    r.unwrap_err()
}

#[test]
fn is_ident_takes_letters_digits_and_underscores() {
    assert!(is_ident("a"));
    assert!(is_ident("Q_0"));
    assert!(is_ident("_"));
    assert!(is_ident("09azAZ_"));
    assert!(!is_ident(""));
    assert!(!is_ident("a b"));
    assert!(!is_ident(" a"));
    assert!(!is_ident("a-b"));
    assert!(!is_ident("P(x)"));
    assert!(!is_ident("\u{e9}"));
    assert!(!is_ident("`"));
    assert!(!is_ident("{"));
    assert!(!is_ident("@"));
    assert!(!is_ident("["));
    assert!(!is_ident("/"));
    assert!(!is_ident(":"));
}

#[test]
fn trim_cuts_white_space_at_both_ends_only() {
    assert_eq!(trim("  a b \t"), "a b");
    assert_eq!(trim("a"), "a");
    assert_eq!(trim(""), "");
    assert_eq!(trim(" \t\r\n "), "");
    assert_eq!(trim("\u{a0}x\u{3000}"), "x");
    assert_eq!(trim("\u{2003}x y\u{85}"), "x y");
    assert_eq!(trim("\u{200b}x"), "\u{200b}x");
    for s in ["  a b \t", "", " ", "\u{1680}q\u{2028}\u{2029}\u{202f}\u{205f}", "x\u{b}\u{c}"] {
        assert_eq!(trim(s), s.trim());
    }
}

#[test]
fn extract_wants_the_separator_exactly_once() {
    assert_eq!(extract("a:b", ":"), Some(("a", "b")));
    assert_eq!(extract(":", ":"), Some(("", "")));
    assert_eq!(extract("a -> b", "->"), Some(("a ", " b")));
    assert_eq!(extract("ab", ":"), None);
    assert_eq!(extract("a:b:c", ":"), None);
    assert_eq!(extract("a->b->c", "->"), None);
    assert_eq!(extract("a-b>c", "->"), None);
    assert_eq!(extract("", ":"), None);
    assert_eq!(extract("\u{e9}=\u{e8}", "="), Some(("\u{e9}", "\u{e8}")));
}

#[test]
fn lines_end_at_line_feeds() {
    assert_eq!(lines(""), Vec::<&str>::new());
    assert_eq!(lines("a"), vec!["a"]);
    assert_eq!(lines("a\n"), vec!["a"]);
    assert_eq!(lines("a\nb"), vec!["a", "b"]);
    assert_eq!(lines("a\r\nb\r\n"), vec!["a", "b"]);
    assert_eq!(lines("\n\na\n\n"), vec!["", "", "a", ""]);
    assert_eq!(lines("a\r"), vec!["a\r"]);
    assert_eq!(lines("a\r\r\n"), vec!["a\r"]);
    for s in ["", "\n", "x\ny\n\nz", "\r\n\r\n", "a\rb\nc\r"] {
        assert_eq!(lines(s), s.lines().collect::<Vec<&str>>());
    }
}

#[test]
fn parse_symbol_takes_names() {
    assert_eq!(parse_symbol("x"), Ok(sym("x")));
    assert_eq!(parse_symbol("a_1"), Ok(sym("a_1")));
    assert_eq!(err(parse_symbol("")), "error parsing symbol ``");
    assert_eq!(err(parse_symbol("a b")), "error parsing symbol `a b`");
    assert_eq!(err(parse_symbol(" ")), "error parsing symbol ` `");
}

#[test]
fn parse_config_takes_names() {
    assert_eq!(parse_config("q0"), Ok("q0".to_string()));
    assert_eq!(err(parse_config("")), "error parsing config ``");
    assert_eq!(err(parse_config("q 0")), "error parsing config `q 0`");
}

#[test]
fn parse_input_symbol_knows_the_three_words() {
    assert_eq!(parse_input_symbol("Any"), Ok(InputSymbol::Any));
    assert_eq!(parse_input_symbol("any"), Ok(InputSymbol::Any));
    assert_eq!(parse_input_symbol("None"), Ok(InputSymbol::Blank));
    assert_eq!(parse_input_symbol("none"), Ok(InputSymbol::Blank));
    assert_eq!(parse_input_symbol("Else"), Ok(InputSymbol::Else));
    assert_eq!(parse_input_symbol("else"), Ok(InputSymbol::Else));
    assert_eq!(parse_input_symbol("ANY"), Ok(InputSymbol::Symbol(sym("ANY"))));
    assert_eq!(parse_input_symbol("x"), Ok(InputSymbol::Symbol(sym("x"))));
    assert_eq!(err(parse_input_symbol("x y")), "error parsing symbol `x y`");
    assert_eq!(err(parse_input_symbol("")), "error parsing symbol ``");
}

#[test]
fn parse_op_reads_each_operation() {
    assert_eq!(parse_op("L"), Ok(Op::L));
    assert_eq!(parse_op("R"), Ok(Op::R));
    assert_eq!(parse_op("E"), Ok(Op::E));
    assert_eq!(parse_op("P(x)"), Ok(Op::P(sym("x"))));
    assert_eq!(parse_op("P(a_1)"), Ok(Op::P(sym("a_1"))));
    assert_eq!(err(parse_op("P()")), "error parsing Op: error parsing symbol ``");
    assert_eq!(err(parse_op("P(a b)")), "error parsing Op: error parsing symbol `a b`");
    assert_eq!(err(parse_op("P( x )")), "error parsing Op: error parsing symbol ` x `");
    assert_eq!(err(parse_op("P(")), "error parsing Op: unrecognized Op `P(`");
    assert_eq!(err(parse_op("P)")), "error parsing Op: unrecognized Op `P)`");
    assert_eq!(err(parse_op("l")), "error parsing Op: unrecognized Op `l`");
    assert_eq!(err(parse_op("")), "error parsing Op: unrecognized Op ``");
    assert_eq!(err(parse_op("Q(x)")), "error parsing Op: unrecognized Op `Q(x)`");
}

#[test]
fn parse_ops_reads_a_list() {
    assert_eq!(parse_ops(""), Ok(vec![]));
    assert_eq!(parse_ops("   "), Ok(vec![]));
    assert_eq!(parse_ops("L"), Ok(vec![Op::L]));
    assert_eq!(parse_ops(" P(x) ,R,  E , L "), Ok(vec![Op::P(sym("x")), Op::R, Op::E, Op::L]));
    assert_eq!(err(parse_ops("L,")), "error parsing Op: unrecognized Op ``");
    assert_eq!(err(parse_ops(",L")), "error parsing Op: unrecognized Op ``");
    assert_eq!(err(parse_ops("L,,R")), "error parsing Op: unrecognized Op ``");
    assert_eq!(err(parse_ops("L, X, Y")), "error parsing Op: unrecognized Op `X`");
    assert_eq!(err(parse_ops("L R")), "error parsing Op: unrecognized Op `L R`");
}

#[test]
fn parse_statement_reads_a_rule() {
    assert_eq!(
        parse_statement("a : None = P(x), R -> a"),
        Ok(Statement {
            config: "a".to_string(),
            symbol: InputSymbol::Blank,
            ops: vec![Op::P(sym("x")), Op::R],
            final_config: "a".to_string(),
        })
    );
    assert_eq!(
        parse_statement("b:y=E->c"),
        Ok(Statement {
            config: "b".to_string(),
            symbol: InputSymbol::Symbol(sym("y")),
            ops: vec![Op::E],
            final_config: "c".to_string(),
        })
    );
    assert_eq!(
        parse_statement("\tq0 :any=   ->  q1 "),
        Ok(Statement {
            config: "q0".to_string(),
            symbol: InputSymbol::Any,
            ops: vec![],
            final_config: "q1".to_string(),
        })
    );
    assert_eq!(
        parse_statement("a : Else = L, L -> halt"),
        Ok(Statement {
            config: "a".to_string(),
            symbol: InputSymbol::Else,
            ops: vec![Op::L, Op::L],
            final_config: "halt".to_string(),
        })
    );
}

#[test]
fn parse_statement_refuses_what_is_no_rule() {
    assert_eq!(err(parse_statement("")), "malformed statement ``");
    assert_eq!(err(parse_statement("a b")), "malformed statement `a b`");
    assert_eq!(err(parse_statement("a : b : c = R -> d")), "malformed statement `a : b : c = R -> d`");
    assert_eq!(err(parse_statement("a : b -> c")), "malformed statement `a : b -> c`");
    assert_eq!(err(parse_statement("a : b = c = R -> d")), "malformed statement `a : b = c = R -> d`");
    assert_eq!(err(parse_statement("a : b = R")), "malformed statement `a : b = R`");
    assert_eq!(err(parse_statement("a : b = R -> c -> d")), "malformed statement `a : b = R -> c -> d`");
    assert_eq!(err(parse_statement(" : b = R -> c")), "error parsing config ``");
    assert_eq!(err(parse_statement("a a : b = R -> c")), "error parsing config `a a`");
    assert_eq!(err(parse_statement("a : = R -> c")), "error parsing symbol ``");
    assert_eq!(err(parse_statement("a : b! = R -> c")), "error parsing symbol `b!`");
    assert_eq!(err(parse_statement("a : b = X -> c")), "error parsing Op: unrecognized Op `X`");
    assert_eq!(
        err(parse_statement("a : b = P(-) -> c")),
        "error parsing Op: error parsing symbol `-`"
    );
    assert_eq!(err(parse_statement("a : b = R -> ")), "error parsing config ``");
    assert_eq!(err(parse_statement("a : b = R -> c d")), "error parsing config `c d`");
}

#[test]
fn parse_statement_reports_the_first_fault() {
    assert_eq!(err(parse_statement("a a : b b = X -> c c")), "error parsing config `a a`");
    assert_eq!(err(parse_statement("a : b b = X -> c c")), "error parsing symbol `b b`");
    assert_eq!(err(parse_statement("a : b = X -> c c")), "error parsing Op: unrecognized Op `X`");
    assert_eq!(err(parse_statement("a a : b")), "error parsing config `a a`");
    assert_eq!(err(parse_statement("a : b b = c")), "error parsing symbol `b b`");
}

#[test]
fn white_space_is_what_the_standard_library_calls_so() {
    let mut buf = [0u8; 4];
    for c in '\0'..=char::MAX {
        let s: &str = c.encode_utf8(&mut buf);
        assert_eq!(trim(s).is_empty(), c.is_whitespace(), "{:?}", c);
    }
}

#[test]
fn name_characters_are_ascii_letters_digits_and_underscore() {
    let mut buf = [0u8; 4];
    for c in '\0'..=char::MAX {
        let s: &str = c.encode_utf8(&mut buf);
        assert_eq!(is_ident(s), c.is_ascii_alphanumeric() || c == '_', "{:?}", c);
    }
}
