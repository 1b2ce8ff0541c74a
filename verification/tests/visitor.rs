use nginx_config::{parse_main, visitors};

fn list(value: &str) -> Vec<String> {
    let ast = parse_main(value).unwrap();
    let mut out = Vec::new();
    let mut iter = ast.all_directives();
    while let Some(s) = iter.next() {
        out.push(s.to_string());
    }
    out
}

fn replace_vars<F>(text: &str, f: F) -> String
where
    F: Fn(&str) -> Option<String>,
{
    let mut ast = parse_main(text).unwrap();
    visitors::replace_vars(&mut ast.directives, f);
    ast.to_string()
}

#[test]
fn iterlocation() {
    assert_eq!(
        list(
            r#"
        server_name devd.io;
        location / {
            root /public;
        }
    "#
        ),
        vec![
            "server_name devd.io;\n",
            "location / {\n    root /public;\n}\n",
            "root /public;\n",
        ]
    );
}

#[test]
fn test_replace_vars() {
    assert_eq!(
        replace_vars(
            r#"
        location / {
            root /public/$dir;
        }
    "#,
            |x| if x == "dir" {
                Some("some/path".to_string())
            } else {
                None
            }
        ),
        "\
        location / {\n    \
            root /public/some/path;\n\
        }\n\
        "
    );
}

#[test]
fn replace_vars_keeps_unknown_variables() {
    assert_eq!(
        replace_vars("if ($a = x) {\n    set $b $a$c;\n}\n", |x| if x == "a" {
            Some("1".to_string())
        } else {
            None
        }),
        "if (1 = x) {\n    set $b 1$c;\n}\n"
    );
}

#[test]
fn visit_values_mut_reaches_own_values_only() {
    let mut ast = parse_main("location / {\n    root /a;\n}\nproxy_set_header A b;\n").unwrap();
    for d in ast.directives.iter_mut() {
        d.visit_values_mut(|v: &mut nginx_config::value::Value| {
            v.data.push(nginx_config::value::Item::Literal("!".to_string()));
        });
    }
    assert_eq!(
        ast.to_string(),
        "location / {\n    root /a;\n}\nproxy_set_header A! b!;\n"
    );
}
