use nginx_config::ast::{
    AccessLog, Address, ErrorPageResponse, IfCondition, Item, LocationPattern, MapPattern,
    ProxyCacheValid, Return, ServerName, Source, TryFilesLastOption, WorkerProcesses,
};
use nginx_config::net::IpAddress;
use nginx_config::position::{Pos, Span};
use nginx_config::value::{Item as Piece, Value};
use nginx_config::{parse_directives, parse_main};

fn one(text: &str) -> Item {
    let mut list = parse_directives(text).unwrap();
    assert_eq!(list.len(), 1);
    list.pop().unwrap().item
}

fn data(v: &Value) -> Vec<Piece> {
    v.data.clone()
}

fn lit(s: &str) -> Piece {
    Piece::Literal(s.to_string())
}

fn var(s: &str) -> Piece {
    Piece::Variable(s.to_string())
}

#[test]
fn return_is_a_redirect_or_a_text() {
    match one("return https://example.com;") {
        Item::Return(Return::Redirect { code: None, url }) => {
            assert_eq!(data(&url), vec![lit("https://example.com")]);
        }
        other => panic!("{:?}", other),
    }
    match one("return 404;") {
        Item::Return(Return::Text { code: 404, text: None }) => {}
        other => panic!("{:?}", other),
    }
    match one("return 301 https://x;") {
        Item::Return(Return::Redirect { code: Some(301), url }) => {
            assert_eq!(data(&url), vec![lit("https://x")]);
        }
        other => panic!("{:?}", other),
    }
    match one("return 200 \"hello world\";") {
        Item::Return(Return::Text { code: 200, text: Some(t) }) => {
            assert_eq!(data(&t), vec![lit("hello world")]);
        }
        other => panic!("{:?}", other),
    }
    match one("return $scheme://example.com;") {
        Item::Return(Return::Redirect { code: None, url }) => {
            assert_eq!(data(&url), vec![var("scheme"), lit("://example.com")]);
        }
        other => panic!("{:?}", other),
    }
    match one("return http://x;") {
        Item::Return(Return::Redirect { code: None, .. }) => {}
        other => panic!("{:?}", other),
    }
}

#[test]
fn positions_of_directives_and_blocks() {
    let main = parse_main("daemon on;\nhttp {\n  server { }\n}\nroot /x;").unwrap();
    assert_eq!(main.directives.len(), 3);
    assert_eq!(main.directives[0].position, Pos { line: 1, column: 1 });
    assert_eq!(main.directives[1].position, Pos { line: 2, column: 1 });
    assert_eq!(main.directives[2].position, Pos { line: 5, column: 1 });
    match &main.directives[1].item {
        Item::Http(h) => {
            assert_eq!(h.position, Span(Pos { line: 2, column: 6 }, Pos { line: 5, column: 1 }));
            assert_eq!(h.directives.len(), 1);
            assert_eq!(h.directives[0].position, Pos { line: 3, column: 3 });
            match &h.directives[0].item {
                Item::Server(s) => {
                    assert_eq!(
                        s.position,
                        Span(Pos { line: 3, column: 10 }, Pos { line: 4, column: 1 })
                    );
                    assert!(s.directives.is_empty());
                }
                other => panic!("{:?}", other),
            }
        }
        other => panic!("{:?}", other),
    }
    match &main.directives[2].item {
        Item::Root(v) => assert_eq!(v.position, Pos { line: 5, column: 6 }),
        other => panic!("{:?}", other),
    }
}

#[test]
fn worker_processes_and_toggles() {
    assert_eq!(one("worker_processes auto;"), Item::WorkerProcesses(WorkerProcesses::Auto));
    assert_eq!(one("worker_processes 13;"), Item::WorkerProcesses(WorkerProcesses::Exact(13)));
    assert_eq!(one("daemon off;"), Item::Daemon(false));
    assert_eq!(one("master_process on;"), Item::MasterProcess(true));
    assert_eq!(one("empty_gif;"), Item::EmptyGif);
    assert_eq!(one("internal;"), Item::Internal);
}

#[test]
fn server_names() {
    assert_eq!(
        one("server_name a.b .c *.d e.* ~f;"),
        Item::ServerName(vec![
            ServerName::Exact("a.b".to_string()),
            ServerName::Suffix("c".to_string()),
            ServerName::StarSuffix("d".to_string()),
            ServerName::StarPrefix("e".to_string()),
            ServerName::Regex("f".to_string()),
        ])
    );
}

#[test]
fn map_patterns() {
    match one("map $a $b { hostnames; *.x 1; y.* 2; .z 3; w 4; ~r 5; \\default 6; default 7; volatile; include inc; }") {
        Item::MapBlock(m) => {
            assert_eq!(m.variable, "b");
            assert_eq!(data(&m.expression), vec![var("a")]);
            assert!(m.hostnames);
            assert!(m.volatile);
            assert_eq!(m.includes, vec!["inc".to_string()]);
            assert_eq!(data(&m.default.unwrap()), vec![lit("7")]);
            let patterns: Vec<MapPattern> = m.patterns.iter().map(|p| p.0.clone()).collect();
            assert_eq!(
                patterns,
                vec![
                    MapPattern::StarSuffix("x".to_string()),
                    MapPattern::StarPrefix("y".to_string()),
                    MapPattern::Suffix("z".to_string()),
                    MapPattern::Exact("w".to_string()),
                    MapPattern::Regex("r".to_string()),
                    MapPattern::Exact("default".to_string()),
                ]
            );
        }
        other => panic!("{:?}", other),
    }
    // without `hostnames` the forms of names of hosts are not told apart,
    // and `hostnames` counts from where it stands
    match one("map $a $b { *.x 1; hostnames; *.x 2; }") {
        Item::MapBlock(m) => {
            let patterns: Vec<MapPattern> = m.patterns.iter().map(|p| p.0.clone()).collect();
            assert_eq!(
                patterns,
                vec![MapPattern::Exact("*.x".to_string()), MapPattern::StarSuffix("x".to_string())]
            );
        }
        other => panic!("{:?}", other),
    }
}

#[test]
fn reserved_words_of_map_are_written_with_a_backslash() {
    let text = "map $a $b {\n    \\volatile 1;\n    \\hostnames 2;\n    \\default 3;\n    \\include 4;\n}\n";
    let main = parse_main(text).unwrap();
    assert_eq!(main.to_string(), text);
}

#[test]
fn try_files_last_option() {
    match one("try_files $uri /index.html;") {
        Item::TryFiles(t) => {
            assert_eq!(t.options.len(), 1);
            assert!(matches!(t.last_option, TryFilesLastOption::Uri(_)));
        }
        other => panic!("{:?}", other),
    }
    match one("try_files $uri @app;") {
        Item::TryFiles(t) => {
            assert_eq!(t.last_option, TryFilesLastOption::NamedLocation("app".to_string()));
        }
        other => panic!("{:?}", other),
    }
    match one("try_files =404;") {
        Item::TryFiles(t) => {
            assert!(t.options.is_empty());
            assert_eq!(t.last_option, TryFilesLastOption::Code(404));
        }
        other => panic!("{:?}", other),
    }
}

#[test]
fn error_pages() {
    match one("error_page 404 500 /e.html;") {
        Item::ErrorPage(e) => {
            assert_eq!(e.codes, vec![404, 500]);
            assert_eq!(e.response_code, ErrorPageResponse::Target);
            assert_eq!(data(&e.uri), vec![lit("/e.html")]);
        }
        other => panic!("{:?}", other),
    }
    match one("error_page 404 =200 /e.html;") {
        Item::ErrorPage(e) => assert_eq!(e.response_code, ErrorPageResponse::Replace(200)),
        other => panic!("{:?}", other),
    }
    match one("error_page 404 =302 /e.html;") {
        Item::ErrorPage(e) => assert_eq!(e.response_code, ErrorPageResponse::Redirect(302)),
        other => panic!("{:?}", other),
    }
    match one("error_page 404 = /e.html;") {
        Item::ErrorPage(e) => {
            assert_eq!(e.codes, vec![404]);
            assert_eq!(e.response_code, ErrorPageResponse::Keep);
        }
        other => panic!("{:?}", other),
    }
}

#[test]
fn listen_addresses_and_options() {
    match one("listen 80;") {
        Item::Listen(l) => {
            assert_eq!(l.address, Address::Port(80));
            assert!(!l.ssl && !l.default_server && l.backlog.is_none());
        }
        other => panic!("{:?}", other),
    }
    match one("listen *:443 ssl http2 default_server setfib=-1 fastopen=3 backlog=511 rcvbuf=1 sndbuf=2 deferred bind ipv6only=on reuseport proxy_protocol;") {
        Item::Listen(l) => {
            assert_eq!(l.address, Address::StarPort(443));
            assert!(l.ssl && l.default_server && l.deferred && l.bind && l.reuseport);
            assert!(l.proxy_protocol);
            assert_eq!(l.setfib, Some(-1));
            assert_eq!(l.fastopen, Some(3));
            assert_eq!(l.backlog, Some(511));
            assert_eq!(l.rcvbuf, Some(1));
            assert_eq!(l.sndbuf, Some(2));
            assert_eq!(l.ipv6only, Some(true));
        }
        other => panic!("{:?}", other),
    }
    match one("listen 127.0.0.1:8080;") {
        Item::Listen(l) => {
            assert_eq!(l.to_string(), "listen 127.0.0.1:8080;\n");
            assert_eq!(l.address.to_string(), "127.0.0.1:8080");
        }
        other => panic!("{:?}", other),
    }
    match one("listen unix:/run/n.sock;") {
        Item::Listen(l) => assert_eq!(l.address, Address::Unix("/run/n.sock".to_string())),
        other => panic!("{:?}", other),
    }
}

#[test]
fn if_conditions() {
    let cond = |text: &str| match one(text) {
        Item::If(i) => i.condition,
        other => panic!("{:?}", other),
    };
    assert!(matches!(cond("if ($a) { }"), IfCondition::NonEmpty(_)));
    assert!(matches!(cond("if ( $a ) { }"), IfCondition::NonEmpty(_)));
    match cond("if ($a = b) { }") {
        IfCondition::Eq(v, s) => {
            assert_eq!(data(&v), vec![var("a")]);
            assert_eq!(s, "b");
            assert_eq!(v.position, Pos { line: 1, column: 4 });
        }
        other => panic!("{:?}", other),
    }
    assert!(matches!(cond("if ($a != b) { }"), IfCondition::Neq(_, _)));
    assert!(matches!(cond("if ($a ~ b) { }"), IfCondition::RegEq(_, _, true)));
    assert!(matches!(cond("if ($a ~* b) { }"), IfCondition::RegEq(_, _, false)));
    assert!(matches!(cond("if ($a !~ b) { }"), IfCondition::RegNeq(_, _, true)));
    assert!(matches!(cond("if ($a !~* b) { }"), IfCondition::RegNeq(_, _, false)));
    assert!(matches!(cond("if (-f $a) { }"), IfCondition::FileExists(_)));
    assert!(matches!(cond("if (!-f $a) { }"), IfCondition::FileNotExists(_)));
    assert!(matches!(cond("if (-d $a) { }"), IfCondition::DirExists(_)));
    assert!(matches!(cond("if (!-d $a) { }"), IfCondition::DirNotExists(_)));
    assert!(matches!(cond("if (-e $a) { }"), IfCondition::Exists(_)));
    assert!(matches!(cond("if (!-e $a) { }"), IfCondition::NotExists(_)));
    assert!(matches!(cond("if (-x $a) { }"), IfCondition::Executable(_)));
    assert!(matches!(cond("if (!-x $a) { }"), IfCondition::NotExecutable(_)));
}

#[test]
fn location_patterns() {
    let pattern = |text: &str| match one(text) {
        Item::Location(l) => l.pattern,
        other => panic!("{:?}", other),
    };
    assert_eq!(pattern("location / { }"), LocationPattern::Prefix("/".to_string()));
    assert_eq!(pattern("location = / { }"), LocationPattern::Exact("/".to_string()));
    assert_eq!(pattern("location ^~ /a { }"), LocationPattern::FinalPrefix("/a".to_string()));
    assert_eq!(pattern("location ~ a { }"), LocationPattern::Regex("a".to_string()));
    assert_eq!(pattern("location ~* a { }"), LocationPattern::RegexInsensitive("a".to_string()));
    assert_eq!(pattern("location @app { }"), LocationPattern::Named("app".to_string()));
    assert_eq!(
        parse_main("location @app {\n}\n").unwrap().to_string(),
        "location @app {\n}\n"
    );
}

#[test]
fn sources_and_logs() {
    assert_eq!(one("allow all;"), Item::Allow(Source::All));
    assert_eq!(one("deny unix:;"), Item::Deny(Source::Unix));
    assert_eq!(one("allow 10.0.0.1;"), Item::Allow(Source::Ip(IpAddress::V4(10, 0, 0, 1))));
    assert_eq!(
        one("deny 10.0.0.0/8;"),
        Item::Deny(Source::Network(IpAddress::V4(10, 0, 0, 0), 8))
    );
    assert_eq!(one("access_log off;"), Item::AccessLog(AccessLog::Off));
    match one("access_log /x main gzip flush=1s buffer=4k if=$ok;") {
        Item::AccessLog(AccessLog::On(o)) => {
            assert_eq!(o.format, Some("main".to_string()));
            assert_eq!(o.gzip, Some(None));
            assert_eq!(o.flush, Some("1s".to_string()));
            assert_eq!(o.buffer, Some("4k".to_string()));
            assert_eq!(data(&o.condition.unwrap()), vec![var("ok")]);
        }
        other => panic!("{:?}", other),
    }
    match one("proxy_cache_valid any 1m;") {
        Item::ProxyCacheValid(ProxyCacheValid::Any(_)) => {}
        other => panic!("{:?}", other),
    }
    match one("proxy_cache_valid 200 301 1m;") {
        Item::ProxyCacheValid(ProxyCacheValid::Specific(codes, _)) => {
            assert_eq!(codes, vec![200, 301]);
        }
        other => panic!("{:?}", other),
    }
}

#[test]
fn names_and_children() {
    let main = parse_main("location / { root /x; }\nroot /y;\nset $a b;\nmap $a $b { }\n").unwrap();
    assert_eq!(main.directives[0].item.directive_name(), "location");
    assert_eq!(main.directives[1].item.directive_name(), "root");
    assert_eq!(main.directives[2].item.directive_name(), "set");
    assert_eq!(main.directives[3].item.directive_name(), "map");
    assert_eq!(main.directives[0].item.children().unwrap().len(), 1);
    assert!(main.directives[1].item.children().is_none());
    assert!(main.directives[3].item.children().is_none());
    let mut main = main;
    main.directives[0].item.children_mut().unwrap().clear();
    assert!(main.directives[1].item.children_mut().is_none());
    assert_eq!(main.to_string(), "location / {\n}\nroot /y;\nset $a b;\n\nmap $a $b {\n}\n");
    let copy = main.clone();
    assert_eq!(copy, main);
}

#[test]
fn a_copy_holds_what_the_tree_holds() {
    let text = "http {\n\n    server {\n        listen unix:/run/x.sock ssl backlog=-1;\n        server_name a.b .c ~^d;\n        error_page 404 500 =200 /e.html;\n        access_log /l main buffer=1k gzip=2 flush=3s if=$x;\n        proxy_cache_valid 200 301 5m;\n        try_files $uri @back;\n        keepalive_timeout 1 2;\n        error_log /e warn;\n\n        location ~* \\.php$ {\n\n            limit_except GET {\n                deny 10.0.0.0/8;\n            }\n            if ($a ~ b) {\n                return 301 https://x;\n                rewrite ^/a /b last;\n                add_header A b always;\n                expires modified 1d;\n                set $v w;\n            }\n        }\n    }\n}\n\nmap $a $b {\n    hostnames;\n    default 0;\n    include m.conf;\n    *.x 1;\n}\n";
    let main = parse_main(text).unwrap();
    let copy = main.clone();
    assert_eq!(copy, main);
    assert_eq!(copy.to_string(), text);
    for (a, b) in main.directives.iter().zip(copy.directives.iter()) {
        assert_eq!(a.clone(), *b);
        assert_eq!(a.item.clone(), b.item);
    }
}
