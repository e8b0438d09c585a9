use scalc::calc::{calculator, CalcRule, CalcVal};
use scalc::parser::{Converter, LexError, Parser};
use scalc::pattern::Pattern;

fn drain(p: &Parser<CalcRule>, s: &str) -> Vec<Result<CalcVal, LexError>> {
    let mut it = p.parse(s);
    let mut out = Vec::new();
    while let Some(item) = it.next() {
        out.push(item);
        assert!(out.len() <= s.len() + 1, "stream does not end");
    }
    out
}

fn text_of(tokens: &[Result<CalcVal, LexError>]) -> String {
    let mut s = String::new();
    for t in tokens {
        match t {
            Ok(CalcVal::Number(n)) => s += &n.to_string(),
            Ok(CalcVal::Operator(c)) => s.push(*c),
            other => panic!("unexpected item {:?}", other),
        }
    }
    s
}

#[test]
fn empty_input_yields_nothing() {
    let p = calculator().ok().unwrap();
    let mut it = p.parse("");
    assert!(it.next().is_none());
    assert!(it.next().is_none());
    assert!(p.parse_all("").is_empty());
}

#[test]
fn longest_match_takes_whole_number() {
    let p = calculator().ok().unwrap();
    assert_eq!(drain(&p, "125"), vec![Ok(CalcVal::Number(125))]);
}

#[test]
fn longest_match_with_operator_rule_first() {
    let p = Parser::new()
        .push("[+\\-\\*/]", CalcRule::Operator)
        .push("[0-9]+", CalcRule::Number);
    assert_eq!(drain(&p, "125"), vec![Ok(CalcVal::Number(125))]);
}

#[test]
fn tokens_come_in_order_without_failure() {
    let p = calculator().ok().unwrap();
    assert_eq!(
        drain(&p, "125+14"),
        vec![
            Ok(CalcVal::Number(125)),
            Ok(CalcVal::Operator('+')),
            Ok(CalcVal::Number(14)),
        ]
    );
}

#[test]
fn unmatchable_character_gives_one_failure() {
    let p = calculator().ok().unwrap();
    let mut it = p.parse("12#3");
    assert_eq!(it.next(), Some(Ok(CalcVal::Number(12))));
    assert_eq!(it.next(), Some(Err(LexError)));
    assert_eq!(it.next(), None);
    assert_eq!(it.next(), None);
    assert_eq!(p.parse_all("12#3"), vec![Ok(CalcVal::Number(12)), Err(LexError)]);
}

#[test]
fn failure_at_start() {
    let p = calculator().ok().unwrap();
    assert_eq!(p.parse_all("#12"), vec![Err(LexError)]);
}

#[test]
fn non_ascii_character_is_unmatched() {
    let p = calculator().ok().unwrap();
    assert_eq!(p.parse_all("1\u{e9}2"), vec![Ok(CalcVal::Number(1)), Err(LexError)]);
}

#[test]
fn first_registered_rule_wins_on_equal_text() {
    let p = Parser::new()
        .push("[0-9]", CalcRule::Operator)
        .push("[0-9]+", CalcRule::Number);
    assert_eq!(p.parse_all("7"), vec![Ok(CalcVal::Operator('7'))]);

    let q = Parser::new()
        .push("[0-9]+", CalcRule::Number)
        .push("[0-9]", CalcRule::Operator);
    assert_eq!(q.parse_all("7"), vec![Ok(CalcVal::Number(7))]);
}

#[test]
fn tokens_reconstitute_digit_and_operator_text() {
    let p = calculator().ok().unwrap();
    for s in ["12+3*45-6/7", "0", "+", "1+2", "9/8-7*6+5", "--++**//", "007"] {
        let tokens = p.parse_all(s);
        assert!(tokens.iter().all(|t| t.is_ok()));
        let rebuilt = text_of(&tokens);
        let expected: String = if s == "007" { "7".to_string() } else { s.to_string() };
        assert_eq!(rebuilt, expected);
    }
}

#[test]
fn operators_come_one_at_a_time() {
    let p = calculator().ok().unwrap();
    assert_eq!(
        p.parse_all("-*"),
        vec![Ok(CalcVal::Operator('-')), Ok(CalcVal::Operator('*'))]
    );
}

#[test]
fn scanning_twice_gives_the_same_items() {
    let p = calculator().ok().unwrap();
    for s in ["125+14", "12#3", "", "99999999999999999999999+1"] {
        assert_eq!(p.parse_all(s), p.parse_all(s));
        assert_eq!(drain(&p, s), p.parse_all(s));
    }
}

#[test]
fn oversized_number_becomes_error_token() {
    let p = calculator().ok().unwrap();
    assert_eq!(
        p.parse_all("99999999999999999999999+1"),
        vec![
            Ok(CalcVal::Error(
                "Unable to parse integer: 99999999999999999999999".to_string()
            )),
            Ok(CalcVal::Operator('+')),
            Ok(CalcVal::Number(1)),
        ]
    );
}

#[test]
fn number_converter_reads_signs() {
    assert_eq!(CalcRule::Number.convert("-5"), CalcVal::Number(-5));
    assert_eq!(CalcRule::Number.convert("+7"), CalcVal::Number(7));
    assert_eq!(CalcRule::Number.convert("0042"), CalcVal::Number(42));
    assert_eq!(
        CalcRule::Number.convert("-"),
        CalcVal::Error("Unable to parse integer: -".to_string())
    );
    assert_eq!(
        CalcRule::Number.convert("1_0"),
        CalcVal::Error("Unable to parse integer: 1_0".to_string())
    );
}

#[test]
fn operator_converter_takes_first_character() {
    assert_eq!(CalcRule::Operator.convert("/"), CalcVal::Operator('/'));
}

#[test]
fn invalid_pattern_is_refused() {
    assert!(Parser::new().try_push("[0-9", CalcRule::Number).is_err());
    assert!(Pattern::new("(").is_err());
    let p = Parser::new()
        .try_push("[0-9]+", CalcRule::Number)
        .ok()
        .unwrap();
    assert_eq!(p.parse_all("42"), vec![Ok(CalcVal::Number(42))]);
}

#[test]
fn pattern_is_anchored() {
    let pat = Pattern::new("[0-9]+").ok().unwrap();
    assert_eq!(pat.as_str(), "^(?:[0-9]+)$");
    assert!(pat.matches("12"));
    assert!(!pat.matches("12a"));
    assert!(!pat.matches("a12"));
    assert!(!pat.matches(""));
}

#[test]
fn calculator_matches_hand_built_rules() {
    let p = calculator().ok().unwrap();
    let q = Parser::new()
        .push("[0-9]+", CalcRule::Number)
        .push("[+\\-\\*/]", CalcRule::Operator);
    for s in ["125+14", "12#3", "", "7/0-3"] {
        assert_eq!(p.parse_all(s), q.parse_all(s));
    }
}

#[test]
fn alternation_matches_whole_candidates_only() {
    let p = Parser::new().push("1|2", CalcRule::Operator);
    let mut it = p.parse("12");
    assert_eq!(it.next(), Some(Ok(CalcVal::Operator('1'))));
    assert_eq!(it.next(), Some(Ok(CalcVal::Operator('2'))));
    assert_eq!(it.next(), None);

    let pat = Pattern::new("1|2").ok().unwrap();
    assert!(pat.matches("1"));
    assert!(pat.matches("2"));
    assert!(!pat.matches("12"));
    assert!(!pat.matches("21"));
}
