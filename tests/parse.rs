use css_parse::context::{CssKey, CssNone, CssSelector, CssString, CssValue};
use css_parse::text::{string_of_range, trim_chars};
use css_parse::{CssCommand, CssContext, CssParser, CssRoot, CssRuleSet, ParseError};

fn parse(text: &str) -> Result<CssRoot, ParseError> {
    CssParser::new().parse(text.to_string())
}

fn selectors(rs: &CssRuleSet) -> Vec<&str> {
    rs.selectors.iter().map(|s| s.as_str()).collect()
}

fn rules(rs: &CssRuleSet) -> Vec<(&str, &str)> {
    rs.rules.iter().map(|r| (r.key.as_str(), r.value.as_str())).collect()
}

#[test]
fn comma_separated_selectors_are_three() {
    let doc = parse("a, b, c { color: red; }").unwrap();
    assert_eq!(doc.rule_sets.len(), 1);
    assert_eq!(selectors(&doc.rule_sets[0]), vec!["a", "b", "c"]);
    assert_eq!(rules(&doc.rule_sets[0]), vec![("color", "red")]);
}

#[test]
fn closing_brace_ends_value_and_rule_set() {
    let doc = parse("a{color:red}").unwrap();
    assert_eq!(doc.rule_sets.len(), 1);
    assert_eq!(selectors(&doc.rule_sets[0]), vec!["a"]);
    assert_eq!(rules(&doc.rule_sets[0]), vec![("color", "red")]);
}

#[test]
fn closing_brace_is_not_consumed_twice() {
    let doc = parse("a{color:red}b{x:y}").unwrap();
    assert_eq!(doc.rule_sets.len(), 2);
    assert_eq!(selectors(&doc.rule_sets[1]), vec!["b"]);
    assert_eq!(rules(&doc.rule_sets[1]), vec![("x", "y")]);
}

#[test]
fn quoted_semicolon_is_content_and_quotes_are_dropped() {
    let doc = parse("a{content:\"x;y\"}").unwrap();
    assert_eq!(doc.rule_sets.len(), 1);
    assert_eq!(rules(&doc.rule_sets[0]), vec![("content", "x;y")]);
}

#[test]
fn string_ends_only_at_its_own_quote() {
    let doc = parse("a{content:'say \"hi\"; }'; font: \"it's\" bold;}").unwrap();
    assert_eq!(
        rules(&doc.rule_sets[0]),
        vec![("content", "say \"hi\"; }"), ("font", "it's bold")]
    );
}

#[test]
fn unterminated_value_is_an_error() {
    assert_eq!(parse("a{color:red").unwrap_err(), ParseError::UnterminatedValue);
}

#[test]
fn unterminated_constructs_are_errors() {
    assert_eq!(parse("a").unwrap_err(), ParseError::UnterminatedSelector);
    assert_eq!(parse("a{} b, c").unwrap_err(), ParseError::UnterminatedSelector);
    assert_eq!(parse("a,").unwrap_err(), ParseError::UnterminatedSelector);
    assert_eq!(parse("a{").unwrap_err(), ParseError::UnterminatedRuleSet);
    assert_eq!(parse("a{color:red;").unwrap_err(), ParseError::UnterminatedRuleSet);
    assert_eq!(parse("a{color").unwrap_err(), ParseError::UnterminatedKey);
    assert_eq!(parse("a{content:\"x}").unwrap_err(), ParseError::UnterminatedString);
}

#[test]
fn empty_rule_set() {
    let doc = parse("a{}").unwrap();
    assert_eq!(doc.rule_sets.len(), 1);
    assert_eq!(selectors(&doc.rule_sets[0]), vec!["a"]);
    assert_eq!(doc.rule_sets[0].rules.len(), 0);
}

#[test]
fn empty_and_blank_inputs_give_empty_documents() {
    assert_eq!(parse("").unwrap().rule_sets.len(), 0);
    assert_eq!(parse("  \n\t ").unwrap().rule_sets.len(), 0);
    assert_eq!(parse("a{}\n").unwrap().rule_sets.len(), 1);
}

#[test]
fn source_order_is_kept() {
    let doc = parse("h1, h2 { a: 1; b: 2; c: 3 }\np { d: 4; }\ndiv{}").unwrap();
    assert_eq!(doc.rule_sets.len(), 3);
    assert_eq!(selectors(&doc.rule_sets[0]), vec!["h1", "h2"]);
    assert_eq!(rules(&doc.rule_sets[0]), vec![("a", "1"), ("b", "2"), ("c", "3")]);
    assert_eq!(selectors(&doc.rule_sets[1]), vec!["p"]);
    assert_eq!(rules(&doc.rule_sets[1]), vec![("d", "4")]);
    assert_eq!(selectors(&doc.rule_sets[2]), vec!["div"]);
    assert_eq!(doc.rule_sets[2].rules.len(), 0);
}

#[test]
fn outer_whitespace_is_trimmed_inner_whitespace_kept() {
    let doc = parse("  div  p ,\n  span  {\n  font :  12px  serif ;\r\n\t}").unwrap();
    assert_eq!(selectors(&doc.rule_sets[0]), vec!["div  p", "span"]);
    assert_eq!(rules(&doc.rule_sets[0]), vec![("font", "12px  serif")]);
}

#[test]
fn unicode_whitespace_is_trimmed() {
    let doc = parse("a{k:\u{3000}v w\u{A0}}").unwrap();
    assert_eq!(rules(&doc.rule_sets[0]), vec![("k", "v w")]);
}

#[test]
fn parsing_is_deterministic() {
    let text = "a, b { x: \"1;2\"; y: 3 } c { }";
    let first = format!("{:?}", parse(text).unwrap());
    let second = format!("{:?}", parse(text).unwrap());
    assert_eq!(first, second);
    let mut parser = CssParser::new();
    let again = format!("{:?}", parser.parse(text.to_string()).unwrap());
    let reused = format!("{:?}", parser.parse(text.to_string()).unwrap());
    assert_eq!(first, again);
    assert_eq!(first, reused);
}

#[test]
fn trim_chars_removes_outer_whitespace() {
    let chars: Vec<char> = " \t a b \n".chars().collect();
    assert_eq!(trim_chars(&chars), "a b");
    let blank: Vec<char> = "   ".chars().collect();
    assert_eq!(trim_chars(&blank), "");
    let plain: Vec<char> = "xyz".chars().collect();
    assert_eq!(trim_chars(&plain), "xyz");
}

#[test]
fn string_of_range_copies_the_range() {
    let chars: Vec<char> = "hello".chars().collect();
    assert_eq!(string_of_range(&chars, 1, 4), "ell");
    assert_eq!(string_of_range(&chars, 2, 2), "");
}

#[test]
fn flush_returns_trimmed_buffer_and_empties_it() {
    let mut parser = CssParser::new();
    for c in "  ab c ".chars() {
        parser.push_char(c);
    }
    assert_eq!(parser.flush_char_buffer(), "ab c");
    assert_eq!(parser.flush_char_buffer(), "");
}

#[test]
fn policies_classify_characters() {
    let t = CssSelector::new().test('{');
    assert_eq!((t.command, t.context), (CssCommand::End, CssContext::Absent));
    let t = CssSelector::new().test(',');
    assert_eq!((t.command, t.context), (CssCommand::Append, CssContext::Selector));
    let t = CssKey::new().test(':');
    assert_eq!(t.command, CssCommand::End);
    let t = CssValue::new().test('}');
    assert_eq!(t.command, CssCommand::EndKeepChar);
    let t = CssValue::new().test('\'');
    assert_eq!((t.command, t.context), (CssCommand::Begin, CssContext::String));
    let t = CssString::new().test('"', '\'');
    assert_eq!(t.command, CssCommand::Continue);
    let t = CssString::new().test('\'', '\'');
    assert_eq!(t.command, CssCommand::End);
    let t = CssRuleSet::new().test('\t');
    assert_eq!((t.command, t.context), (CssCommand::Continue, CssContext::RuleSet));
    let t = CssRuleSet::new().test('c');
    assert_eq!((t.command, t.context), (CssCommand::Begin, CssContext::Key));
    let t = CssRoot::new().test('x');
    assert_eq!((t.command, t.context), (CssCommand::Begin, CssContext::Selector));
    let t = CssNone::new().test('x');
    assert_eq!((t.command, t.context), (CssCommand::Continue, CssContext::Absent));
}

#[test]
fn parser_routes_to_the_context_policy() {
    let parser = CssParser::new();
    let t = parser.get_css_for_context(CssContext::Value, ';');
    assert_eq!((t.command, t.context), (CssCommand::End, CssContext::Absent));
    let t = parser.get_css_for_context(CssContext::RuleSet, '}');
    assert_eq!(t.command, CssCommand::End);
}

#[test]
fn complete_texts_concatenate() {
    let first = "a{x:1}\n";
    let first = first.trim_end();
    let second = " b, c { y: 2; }";
    let joined = format!("{}{}", first, second);
    let d1 = parse(first).unwrap();
    let d2 = parse(second).unwrap();
    let d = parse(&joined).unwrap();
    assert_eq!(d.rule_sets.len(), d1.rule_sets.len() + d2.rule_sets.len());
    assert_eq!(format!("{:?}", d.rule_sets[0]), format!("{:?}", d1.rule_sets[0]));
    assert_eq!(format!("{:?}", d.rule_sets[1]), format!("{:?}", d2.rule_sets[0]));
    assert_eq!(
        parse(&format!("{}{}", first, "p{q")).unwrap_err(),
        parse("p{q").unwrap_err()
    );
}

#[test]
fn whitespace_of_each_token_is_trimmed() {
    let doc = parse("\u{2003}h1 em ,\u{3000}p\t{\u{A0}k1 :\u{2028} v 1 ;\n k2: v2;}x{ }").unwrap();
    assert_eq!(doc.rule_sets.len(), 2);
    assert_eq!(selectors(&doc.rule_sets[0]), vec!["h1 em", "p"]);
    assert_eq!(rules(&doc.rule_sets[0]), vec![("k1", "v 1"), ("k2", "v2")]);
    assert_eq!(selectors(&doc.rule_sets[1]), vec!["x"]);
    assert_eq!(doc.rule_sets[1].rules.len(), 0);
}
