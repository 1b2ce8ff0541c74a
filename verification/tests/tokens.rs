use nginx_config::tokenizer::{Kind, LexError, TokenStream};

fn tok_str(s: &str) -> Vec<String> {
    let mut r = Vec::new();
    let mut s = TokenStream::new(s);
    loop {
        match s.uncons() {
            Ok(x) => r.push(x.value),
            Err(LexError::EndOfInput) => break,
            Err(e) => panic!("Parse error at {}: {:?}", s.position().to_string(), e),
        }
    }
    r
}

fn tok_typ(s: &str) -> Vec<Kind> {
    let mut r = Vec::new();
    let mut s = TokenStream::new(s);
    loop {
        match s.uncons() {
            Ok(x) => r.push(x.kind),
            Err(LexError::EndOfInput) => break,
            Err(e) => panic!("Parse error at {}: {:?}", s.position().to_string(), e),
        }
    }
    r
}

#[test]
fn comments_and_spaces() {
    assert_eq!(tok_str("# hello { world }"), Vec::<String>::new());
    assert_eq!(tok_str("# x\n\t\t# y"), Vec::<String>::new());
    assert_eq!(tok_str("\n \n"), Vec::<String>::new());
}

#[test]
fn tokenizer_simple() {
    assert_eq!(tok_str("pid /run/nginx.pid;"), ["pid", "/run/nginx.pid", ";"]);
    assert_eq!(
        tok_typ("pid /run/nginx.pid;"),
        [Kind::String, Kind::String, Kind::Semicolon]
    );
    assert_eq!(tok_str("a { b }"), ["a", "{", "b", "}"]);
    assert_eq!(
        tok_typ("a { b }"),
        [Kind::String, Kind::BlockStart, Kind::String, Kind::BlockEnd]
    );
}

#[test]
fn vars() {
    assert_eq!(tok_str("proxy_pass http://$x;"), ["proxy_pass", "http://$x", ";"]);
    assert_eq!(
        tok_typ("proxy_pass http://$x;"),
        [Kind::String, Kind::String, Kind::Semicolon]
    );
    assert_eq!(
        tok_str("proxy_pass http://${a b};"),
        ["proxy_pass", "http://${a b}", ";"]
    );
    assert_eq!(
        tok_typ("proxy_pass http://${a b};"),
        [Kind::String, Kind::String, Kind::Semicolon]
    );
}

#[test]
fn positions_count_lines_and_columns() {
    let mut s = TokenStream::new("a\n\tb  c;");
    assert_eq!(s.position().to_string(), "1:1");
    assert_eq!(s.uncons().unwrap().value, "a");
    // a tab has eight columns
    assert_eq!(s.position().to_string(), "2:9");
    assert_eq!(s.uncons().unwrap().value, "b");
    assert_eq!(s.position().to_string(), "2:12");
    assert_eq!(s.uncons().unwrap().value, "c");
    assert_eq!(s.position().to_string(), "2:13");
    assert_eq!(s.uncons().unwrap().kind, Kind::Semicolon);
    assert_eq!(s.position().to_string(), "2:14");
    assert_eq!(s.uncons(), Err(LexError::EndOfInput));
    assert_eq!(s.uncons(), Err(LexError::EndOfInput));
}

#[test]
fn carriage_return_and_byte_order_mark_have_no_width() {
    let mut s = TokenStream::new("\u{feff}\r a");
    assert_eq!(s.position().to_string(), "1:2");
    assert_eq!(s.uncons().unwrap().value, "a");
}

#[test]
fn comment_ends_with_its_line() {
    assert_eq!(tok_str("a # b ; c\r\nd"), ["a", "d"]);
    let mut s = TokenStream::new("# c\r\nx");
    assert_eq!(s.position().to_string(), "2:1");
    assert_eq!(s.uncons().unwrap().value, "x");
}

#[test]
fn quoted_strings_keep_their_quotes() {
    assert_eq!(tok_str("a \"b c\" 'd;e' \"\""), ["a", "\"b c\"", "'d;e'", "\"\""]);
    assert_eq!(tok_str(r#""a\"b" x"#), [r#""a\"b""#, "x"]);
}

#[test]
fn unterminated_string_is_an_error() {
    let mut s = TokenStream::new("a \"b\nc\"");
    assert_eq!(s.uncons().unwrap().value, "a");
    assert_eq!(s.uncons(), Err(LexError::Unterminated));
    assert_eq!(s.position().to_string(), "1:3");
    let mut s = TokenStream::new("'abc");
    assert_eq!(s.uncons(), Err(LexError::Unterminated));
}

#[test]
fn escapes_in_bare_words() {
    assert_eq!(tok_str(r"a\;b c"), [r"a\;b", "c"]);
    assert_eq!(tok_str(r"a\\;b"), [r"a\\", ";", "b"]);
    assert_eq!(tok_str(r"a\ b"), [r"a\ b"]);
    assert_eq!(tok_str("a${b;c}d;"), ["a${b;c}d", ";"]);
    assert_eq!(tok_str("a{b"), ["a", "{", "b"]);
}

#[test]
fn checkpoint_and_reset_give_the_same_token_again() {
    let mut s = TokenStream::new("one two three");
    assert_eq!(s.uncons().unwrap().value, "one");
    let c = s.checkpoint();
    let p = s.position();
    assert_eq!(s.uncons().unwrap().value, "two");
    assert_eq!(s.uncons().unwrap().value, "three");
    s.reset(c.clone());
    assert_eq!(s.position(), p);
    assert_eq!(s.uncons().unwrap().value, "two");
    s.reset(c);
    assert_eq!(s.uncons().unwrap().value, "two");
    assert_eq!(s.uncons().unwrap().value, "three");
}

#[test]
fn tokenize_gives_all_tokens_and_the_end() {
    let list = nginx_config::tokenizer::tokenize("a {\n  b;\n}\n");
    let texts: Vec<&str> = list.tokens.iter().map(|t| t.token.value.as_str()).collect();
    assert_eq!(texts, ["a", "{", "b", ";", "}"]);
    assert_eq!(list.tokens[2].position.to_string(), "2:3");
    assert_eq!(list.end, LexError::EndOfInput);
    assert_eq!(list.end_position.to_string(), "4:1");
    let list = nginx_config::tokenizer::tokenize("a 'b");
    assert_eq!(list.tokens.len(), 1);
    assert_eq!(list.end, LexError::Unterminated);
    assert_eq!(list.end_position.to_string(), "1:3");
}

#[test]
fn a_backslash_takes_the_next_character_in_quotes() {
    assert_eq!(tok_str(r#""a\\" b"#), [r#""a\\""#, "b"]);
    assert_eq!(tok_str(r#""a\"b" c"#), [r#""a\"b""#, "c"]);
    assert_eq!(tok_str(r#"'a\\' 'b\'c'"#), [r#"'a\\'"#, r#"'b\'c'"#]);
    assert_eq!(tok_str(r#""a\\\" b" c"#), [r#""a\\\" b""#, "c"]);
}
