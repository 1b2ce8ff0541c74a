use nginx_config::format::{Formatter, Style};
use nginx_config::parse_main;

#[test]
fn style_sets_the_width_of_a_level() {
    let mut style = Style::default();
    assert_eq!(style.width(), 4);
    style.indent(2);
    assert_eq!(style.width(), 2);
    let main = parse_main("http { server { root /x; } }").unwrap();
    let mut f = Formatter::new(&style);
    main.display(&mut f);
    assert_eq!(f.into_string(), "http {\n\n  server {\n    root /x;\n  }\n}\n");
}

#[test]
fn formatter_writes_lines_and_blocks() {
    let mut f = Formatter::new(&Style::default());
    f.margin();
    f.indent();
    f.write("a");
    f.put(' ');
    f.start_block();
    assert_eq!(f.level(), 4);
    f.indent();
    f.number(12);
    f.put(' ');
    f.signed(-3);
    f.end();
    f.margin();
    f.end_block(0);
    assert_eq!(f.into_string(), "a {\n    12 -3;\n\n}\n");
}

#[test]
fn blocks_have_an_empty_line_before_them() {
    let text = "daemon on;\n\nhttp {\n    gzip on;\n\n    server {\n\n        location / {\n            if ($a) {\n                return 404;\n            }\n\n            limit_except GET POST {\n                deny all;\n            }\n        }\n    }\n\n    map $a $b {\n        default 1;\n    }\n}\n";
    assert_eq!(parse_main(text).unwrap().to_string(), text);
}

#[test]
fn formatting_twice_changes_nothing() {
    let text = "  http{server{listen 80;location / {root '/a b';}}}\nset   $x \"y\";";
    let once = parse_main(text).unwrap().to_string();
    assert_eq!(
        once,
        "http {\n\n    server {\n        listen 80;\n\n        location / {\n            root \"/a b\";\n        }\n    }\n}\nset $x y;\n"
    );
    let twice = parse_main(&once).unwrap().to_string();
    assert_eq!(twice, once);
}
