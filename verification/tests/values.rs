use nginx_config::position::Pos;
use nginx_config::value::{Item, Value, ValueError};

fn lit(s: &str) -> Item {
    Item::Literal(s.to_string())
}

fn var(s: &str) -> Item {
    Item::Variable(s.to_string())
}

fn parse(s: &str) -> Result<Vec<Item>, ValueError> {
    Value::parse_str(Pos { line: 3, column: 7 }, s).map(|v| {
        assert_eq!(v.position, Pos { line: 3, column: 7 });
        v.data
    })
}

fn text(data: Vec<Item>) -> String {
    Value { position: Pos { line: 0, column: 0 }, data }.to_string()
}

#[test]
fn bare_values() {
    assert_eq!(parse("abc"), Ok(vec![lit("abc")]));
    assert_eq!(parse("http://$host/x"), Ok(vec![lit("http://"), var("host"), lit("/x")]));
    assert_eq!(parse("$a$b"), Ok(vec![var("a"), var("b")]));
    assert_eq!(parse("${a}b"), Ok(vec![var("a"), lit("b")]));
    assert_eq!(parse("$1"), Ok(vec![var("1")]));
    assert_eq!(parse("id-$request_id"), Ok(vec![lit("id-"), var("request_id")]));
    assert_eq!(parse(r"a\$b"), Ok(vec![lit(r"a\$b")]));
    assert_eq!(parse(r"a\\$b"), Ok(vec![lit(r"a\\"), var("b")]));
}

#[test]
fn quoted_values() {
    assert_eq!(parse("\"a b\""), Ok(vec![lit("a b")]));
    assert_eq!(parse("'a b'"), Ok(vec![lit("a b")]));
    assert_eq!(parse("\"\""), Ok(vec![]));
    assert_eq!(parse("\"x $y z\""), Ok(vec![lit("x "), var("y"), lit(" z")]));
    assert_eq!(parse("\"${y}z\""), Ok(vec![var("y"), lit("z")]));
    assert_eq!(parse("'a\"b'"), Ok(vec![lit("a\"b")]));
    assert_eq!(parse(r#""a\"b""#), Ok(vec![lit("a\"b")]));
    assert_eq!(parse(r#""a\$b""#), Ok(vec![lit("a$b")]));
}

#[test]
fn value_errors() {
    assert_eq!(parse("a$"), Err(ValueError::BareDollar));
    assert_eq!(parse("a$-b"), Err(ValueError::BareDollar));
    assert_eq!(parse("${a b}"), Err(ValueError::MissingBrace));
    assert_eq!(parse("${a"), Err(ValueError::MissingBrace));
    assert_eq!(parse("\"a\"b\""), Err(ValueError::PrematureQuote));
    assert_eq!(parse("\"ab"), Err(ValueError::UnclosedQuote));
    assert_eq!(parse("\"a$b"), Err(ValueError::UnclosedQuote));
    assert_eq!(parse("\"a$"), Err(ValueError::BareDollar));
}

#[test]
fn value_error_texts() {
    assert_eq!(ValueError::BareDollar.to_string(), "Unexpected `bare $ in expression`");
    assert_eq!(ValueError::MissingBrace.to_string(), "Expected `}`");
    assert_eq!(ValueError::PrematureQuote.to_string(), "Unexpected `quote closes prematurely`");
    assert_eq!(ValueError::UnclosedQuote.to_string(), "Unexpected `unclosed quote`");
    assert_eq!("a$".parse::<Value>(), Err("Unexpected `bare $ in expression`".to_string()));
    assert_eq!("$a".parse::<Value>().unwrap().data, vec![var("a")]);
    assert_eq!("$a".parse::<Value>().unwrap().position, Pos { line: 0, column: 0 });
}

#[test]
fn values_are_written_with_quotes_where_needed() {
    assert_eq!(text(vec![lit("abc")]), "abc");
    assert_eq!(text(vec![]), "\"\"");
    assert_eq!(text(vec![lit("a b")]), "\"a b\"");
    assert_eq!(text(vec![lit("a;b")]), "\"a;b\"");
    assert_eq!(text(vec![lit("a{b")]), "\"a{b\"");
    assert_eq!(text(vec![lit("a}b")]), "\"a}b\"");
    assert_eq!(text(vec![lit("a\tb")]), "\"a\tb\"");
    assert_eq!(text(vec![lit("a\rb")]), "\"a\rb\"");
    assert_eq!(text(vec![lit("a\nb")]), "\"a\nb\"");
    assert_eq!(text(vec![var("a b")]), "$a b");
}

#[test]
fn variable_before_letter_or_digit_gets_braces() {
    assert_eq!(text(vec![var("x"), lit("y")]), "${x}y");
    assert_eq!(text(vec![var("x"), lit("1")]), "${x}1");
    assert_eq!(text(vec![var("x"), lit("é")]), "${x}é");
    assert_eq!(text(vec![var("x"), lit("-y")]), "$x-y");
    assert_eq!(text(vec![var("x"), lit("_y")]), "$x_y");
    assert_eq!(text(vec![var("x"), var("y")]), "$x$y");
    assert_eq!(text(vec![var("x"), lit("")]), "$x");
    assert_eq!(text(vec![lit("id-"), var("request_id")]), "id-$request_id");
    assert_eq!(text(vec![lit("a "), var("x"), lit("y")]), "\"a ${x}y\"");
}

#[test]
fn readable_values_are_read_back() {
    for data in vec![
        vec![lit("abc")],
        vec![],
        vec![lit("a b")],
        vec![var("x"), lit("y")],
        vec![lit("a"), var("x"), lit("-"), var("y"), var("z"), lit("9 {")],
        vec![var("x"), lit("é")],
    ] {
        assert_eq!(parse(&text(data.clone())), Ok(data));
    }
    // an underscore is part of a name, and no braces keep it apart
    assert_eq!(parse(&text(vec![var("x"), lit("_y")])), Ok(vec![var("x_y")]));
}

#[test]
fn replace_vars_in_a_value() {
    let mut v = Value::parse_str(Pos { line: 1, column: 1 }, "a$x-$y$x").unwrap();
    v.replace_vars(&|name: &str| if name == "x" { Some("1".to_string()) } else { None });
    assert_eq!(v.data, vec![lit("a"), lit("1"), lit("-"), var("y"), lit("1")]);
    assert_eq!(v.position, Pos { line: 1, column: 1 });
    assert_eq!(v.to_string(), "a1-${y}1");
    assert_eq!(var("a").resolve(Some("b".to_string())), lit("b"));
    assert_eq!(var("a").resolve(None), var("a"));
    assert_eq!(lit("a").resolve(Some("b".to_string())), lit("a"));
    assert_eq!(v.copy(), v);
}
