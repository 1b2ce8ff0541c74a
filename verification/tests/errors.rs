use nginx_config::closest::shorten;
use nginx_config::error::{ErrorItem, ParseError};
use nginx_config::parse_main;
use nginx_config::position::Pos;

fn error_text(text: &str) -> String {
    parse_main(text).unwrap_err().to_string()
}

#[test]
fn error_wrong_toggle() {
    assert_eq!(
        error_text("daemon maybe;\n"),
        "parse error: Parse error at 1:8\nUnexpected `maybe`\nExpected `on` or `off`\n"
    );
}

#[test]
fn error_missing_semicolon() {
    assert_eq!(
        error_text("daemon on"),
        "parse error: Parse error at 1:10\nUnexpected `end of input`\nExpected `Semicolon`\n"
    );
}

#[test]
fn error_bare_dollar() {
    assert_eq!(
        error_text("root /a$;"),
        "parse error: Parse error at 1:6\nUnexpected `bare $ in expression`\n"
    );
}

#[test]
fn error_bad_number() {
    assert_eq!(
        error_text("worker_processes many;"),
        "parse error: Parse error at 1:18\ninvalid digit found in string\n"
    );
}

const NAMES: &str = "`daemon`, `master_process`, `worker_processes`, `http`, `server`, `rewrite`, `set`, `return`, `if`, `try_files`, `include`, `ssl_certificate`, `ssl_certificate_key`, `location`, `add_header`, `expires`, `server_name`, `map`, `client_max_body_size`, `proxy_pass`, `proxy_set_header`, `proxy_method`, `proxy_cache`, `proxy_cache_key`, `proxy_cache_valid`, `proxy_read_timeout`, `proxy_connect_timeout`, `proxy_hide_header`, `proxy_pass_header`, `proxy_pass_request_headers`, `proxy_pass_request_body`, `proxy_intercept_errors`, `proxy_buffering`, `proxy_ignore_headers`, `proxy_http_version`, `proxy_next_upstream`, `proxy_next_upstream_tries`, `proxy_next_upstream_timeout`, `gzip`, `gzip_static`, `gzip_proxied`, `error_page`, `listen`, `limit_except`, `root`, `alias`, `default_type`, `internal`, `etag`, `server_tokens`, `recursive_error_pages`, `chunked_transfer_encoding`, `keepalive_timeout`, `error_log`, `allow`, `deny`, `access_log`, `real_ip_header`, `real_ip_recursive`, `set_real_ip_from`, `rewrite_by_lua_file`, `balancer_by_lua_file`, `access_by_lua_file`, `header_filter_by_lua_file`, `content_by_lua_file`, `body_filter_by_lua_file`, `log_by_lua_file`, `lua_need_request_body`, `ssl_certificate_by_lua_file`, `ssl_session_fetch_by_lua_file`, `ssl_session_store_by_lua_file`, `empty_gif`";

#[test]
fn invalid_directive() {
    assert_eq!(
        error_text("xxx;\n"),
        format!("parse error: Parse error at 1:1\nUnexpected `xxx`\nExpected {} or `index`\n", NAMES)
    );
}

#[test]
fn invalid_directive_in_block() {
    assert_eq!(
        error_text("http {\n    xxx;\n}\n"),
        format!(
            "parse error: Parse error at 2:5\nUnexpected `xxx`\nExpected {}, `index` or `BlockEnd`\n",
            NAMES
        )
    );
}

#[test]
fn invalid_directive_with_newline() {
    assert_eq!(
        error_text("daemon on;\n\nxxx\n;\n"),
        format!(
            "parse error: Parse error at 3:1\nUnexpected `xxx`\nExpected {}, `index` or `end of input`\n",
            NAMES
        )
    );
}

#[test]
fn error_empty_text() {
    assert_eq!(
        error_text(" # nothing\n"),
        format!(
            "parse error: Parse error at 2:1\nUnexpected `end of input`\nExpected {} or `index`\n",
            NAMES
        )
    );
}

#[test]
fn error_unterminated_string() {
    assert_eq!(
        error_text("root \"abc;\n"),
        "parse error: Parse error at 1:6\nUnexpected `unterminated string value`\nExpected `String`\n"
    );
}

#[test]
fn error_missing_block() {
    assert_eq!(
        error_text("http;"),
        "parse error: Parse error at 1:5\nUnexpected `;`\nExpected `BlockStart`\n"
    );
    assert_eq!(
        error_text("limit_except GET;"),
        "parse error: Parse error at 1:17\nUnexpected `;`\nExpected `String` or `BlockStart`\n"
    );
    assert_eq!(
        error_text("location ;"),
        "parse error: Parse error at 1:10\nUnexpected `;`\nExpected `=`, `^~`, `~`, `~*` or `String`\n"
    );
}

#[test]
fn error_messages_of_directives() {
    let cases = [
        ("set x y;", "1:5", "Unexpected `invalid variable`\n"),
        ("set $1 y;", "1:5", "Unexpected `invalid variable`\n"),
        ("map $a b { }", "1:8", "Unexpected `invalid variable`\n"),
        ("if $a { }", "1:1", "Unexpected `missing parenthesis`\n"),
        ("if ($a { }", "1:1", "Unexpected `missing parenthesis`\n"),
        ("if (x $a) { }", "1:1", "Unexpected `missing parenthesis`\n"),
        ("if ($a ? b) { }", "1:1", "Unexpected `missing parenthesis`\n"),
        ("if (-f) { }", "1:1", "Unexpected `missing argument to condition`\n"),
        ("if (-f a b) { }", "1:1", "Unexpected `extra argument to condition`\n"),
        ("if ($a = b c) { }", "1:1", "Unexpected `you can only compare against a single literal`\n"),
        ("return 99;", "1:1", "Unexpected `invalid response code 99`\n"),
        ("return 301;", "1:1", "Unexpected `return with redirect code must have destination URI`\n"),
        ("return $x;", "1:1", "Unexpected `return code can't contain variables`\n"),
        ("return \"\";", "1:1", "Unexpected `empty return codes are not supported`\n"),
        ("return a$x b;", "1:1", "Unexpected `return code can't contain variables`\n"),
        ("error_page;", "1:1", "Unexpected `error_page directive must not be empty`\n"),
        ("error_page $x /a;", "1:1", "Unexpected `only last argument of error_codes can contain variables`\n"),
        ("error_page \"\" /a;", "1:1", "Unexpected `empty error codes are not supported`\n"),
        ("error_page 99 /a;", "1:1", "Unexpected `invalid response code 99`\n"),
        ("proxy_cache_valid any 200 1m;", "1:1", "Unexpected ``any` must be sole argument before time. It's not allowed to combine `any` and other codes`\n"),
        ("proxy_cache_valid 99 1m;", "1:1", "Unexpected `invalid http code \"99\"`\n"),
        ("proxy_cache_valid $x 1m;", "1:1", "Unexpected `variables aren't allowed in list of codes`\n"),
        ("proxy_http_version 2;", "1:20", "Unexpected `invalid http version`\n"),
        ("proxy_next_upstream error nope;", "1:27", "Unexpected `invalid proxy upstream flag`\n"),
        ("error_log /x loud;", "1:14", "Unexpected `invalid log level`\n"),
        ("listen 80 ipv6only=maybe;", "1:11", "Unexpected `only on/off supported`\n"),
        ("listen 80 backlog=x;", "1:11", "invalid digit found in string\n"),
        ("listen 80 backlog=;", "1:11", "cannot parse integer from empty string\n"),
        ("listen 80 fastopen=4294967296;", "1:11", "number too large to fit in target type\n"),
        ("listen 80 setfib=-2147483649;", "1:11", "number too small to fit in target type\n"),
        ("listen nowhere;", "1:8", "invalid socket address syntax\n"),
        ("listen *:x;", "1:8", "invalid digit found in string\n"),
        ("allow nobody;", "1:1", "invalid IP address syntax\n"),
        ("deny 10.0.0.0/x;", "1:1", "Unexpected `invalid subnet: invalid digit found in string`\n"),
        ("set_real_ip_from 10.0.0.0/256;", "1:18", "Unexpected `invalid subnet: number too large to fit in target type`\n"),
        ("access_log /x main what=1;", "1:20", "Unexpected `bad access_log param \"what=1\"`\n"),
        ("access_log /x main gzip=x;", "1:20", "invalid digit found in string\n"),
        ("root ${a;", "1:6", "Expected `}`\n"),
        ("try_files a =1;", "1:1", "Unexpected `invalid response code 1`\n"),
        ("worker_processes -1;", "1:18", "invalid digit found in string\n"),
    ];
    for (text, position, rest) in cases.iter() {
        assert_eq!(
            error_text(text),
            format!("parse error: Parse error at {}\n{}", position, rest),
            "{}",
            text
        );
    }
}

#[test]
fn error_expected_lists() {
    let cases = [
        ("gzip_static maybe;", "1:13", "Unexpected `maybe`\nExpected `on`, `off` or `always`\n"),
        ("gzip_proxied;", "1:13", "Unexpected `;`\nExpected `off`, `expired`, `no-cache`, `no-store`, `private`, `no_last_modified`, `no_etag`, `auth` or `any`\n"),
        ("rewrite a b c;", "1:13", "Unexpected `c`\nExpected `last`, `break`, `redirect`, `permanent` or `Semicolon`\n"),
        ("server_name a {", "1:15", "Unexpected `{`\nExpected `String` or `Semicolon`\n"),
        ("add_header a b c;", "1:16", "Unexpected `c`\nExpected `always` or `Semicolon`\n"),
        ("expires;", "1:8", "Unexpected `;`\nExpected `modified` or `String`\n"),
        ("access_log;", "1:11", "Unexpected `;`\nExpected `off` or `String`\n"),
        ("worker_processes;", "1:17", "Unexpected `;`\nExpected `auto` or `String`\n"),
        ("map $a $b { x; }", "1:14", "Unexpected `;`\nExpected `String`\n"),
        ("map $a $b { {", "1:13", "Unexpected `{`\nExpected `hostnames`, `volatile`, `default`, `include`, `String` or `BlockEnd`\n"),
        ("listen 80 {", "1:11", "Unexpected `{`\nExpected `default_server`, `ssl`, `http2`, `spdy`, `proxy_protocol`, `setfib=`, `fastopen=`, `backlog=`, `rcvbuf=`, `sndbuf=`, `deferred`, `bind`, `ipv6only=`, `reuseport` or `Semicolon`\n"),
        ("root /a /b;", "1:9", "Unexpected `/b`\nExpected `Semicolon`\n"),
        ("internal x;", "1:10", "Unexpected `x`\nExpected `Semicolon`\n"),
    ];
    for (text, position, rest) in cases.iter() {
        assert_eq!(
            error_text(text),
            format!("parse error: Parse error at {}\n{}", position, rest),
            "{}",
            text
        );
    }
}

#[test]
fn error_items_are_written_once() {
    let e = ParseError {
        position: Pos { line: 2, column: 3 },
        errors: vec![
            ErrorItem::Expected("a".to_string()),
            ErrorItem::Unexpected("x".to_string()),
            ErrorItem::Expected("b".to_string()),
            ErrorItem::Expected("a".to_string()),
            ErrorItem::Message("m".to_string()),
        ],
    };
    assert_eq!(e.to_string(), "parse error: Parse error at 2:3\nUnexpected `x`\nExpected `a` or `b`\nm\n");
}

fn names(list: &[&str]) -> Vec<String> {
    list.iter().map(|s| s.to_string()).collect()
}

fn expected(list: &[&str]) -> Vec<ErrorItem> {
    list.iter().map(|s| ErrorItem::Expected(s.to_string())).collect()
}

#[test]
fn long_lists_of_names_are_cut_down_to_the_closest() {
    assert_eq!(shorten(names(&[]), vec![]), expected(&[]));
    assert_eq!(
        shorten(names(&["a", "b", "c"]), vec![None, Some(1), None]),
        expected(&["a", "b", "c"])
    );
    assert_eq!(
        shorten(names(&["a", "b", "c", "d", "e"]), vec![Some(5), None, Some(1), Some(5), Some(0)]),
        expected(&["e", "c", "a", "one of 2 options"])
    );
    assert_eq!(
        shorten(names(&["a", "b", "c", "d"]), vec![Some(7), Some(7), Some(7), Some(7)]),
        expected(&["a", "b", "c", "one of 1 options"])
    );
    assert_eq!(
        shorten(names(&["a", "b", "c", "d"]), vec![None, Some(3), None, None]),
        expected(&["b", "one of 3 options"])
    );
    assert_eq!(
        shorten(names(&["a", "b", "c", "d"]), vec![None, None, None, None]),
        expected(&["one of 4 options"])
    );
    assert_eq!(
        shorten(names(&["a", "b", "c", "d", "e"]), vec![Some(2), Some(1), Some(0), None, None]),
        expected(&["c", "b", "a", "one of 2 options"])
    );
}
