use nginx_config::parse_main;

fn roundtrip(value: &str) {
    let ast = parse_main(value).unwrap();
    assert_eq!(ast.to_string(), value);
}

#[test]
fn exact() {
    roundtrip("server_name devd.io;\n");
}

#[test]
fn suffix() {
    roundtrip("server_name .devd.io;\n");
}

#[test]
fn multiple() {
    roundtrip("server_name example.com .devd.io;\n");
}

#[test]
fn star_pre() {
    roundtrip("server_name *.devd.io;\n");
}

#[test]
fn star_suf() {
    roundtrip("server_name mail.*;\n");
}

#[test]
fn regex() {
    roundtrip("server_name ~^www\\.[.*]\\.devd\\.io;\n");
}

#[test]
fn set_simple() {
    roundtrip("set $xy something;\n");
}

#[test]
fn from_vars() {
    roundtrip("set $real_id id-$request_id;\n");
}

#[test]
fn from_regex() {
    roundtrip("set $real_id $1;\n");
}

#[test]
fn minimal() {
    roundtrip("daemon on;\n");
}

#[test]
fn nested_blocks() {
    roundtrip("http {\n\n    server {\n        listen 80 default_server;\n        listen 127.0.0.1:8080 ssl http2;\n        server_name example.com;\n\n        location / {\n            root /var/www;\n            try_files $uri $uri/ =404;\n        }\n\n        location ~ \\.php$ {\n            return 301 https://example.com$request_uri;\n        }\n    }\n}\n");
}

#[test]
fn map_block() {
    roundtrip("map $http_host $name {\n    hostnames;\n    default 0;\n    include map.conf;\n    example.com 1;\n    *.example.com 1;\n    \\default 2;\n    ~^x 3;\n}\n");
}

#[test]
fn if_blocks() {
    roundtrip("if ($request_method = POST) {\n    return 405;\n}\nif (-f $request_filename) {\n    empty_gif;\n}\nif ($slow) {\n    set $x \"a b\";\n}\n");
}

#[test]
fn many_leaves() {
    roundtrip("worker_processes auto;\nworker_processes 7;\nerror_page 404 /404.html;\nerror_page 500 502 =200 /50x.html;\nerror_page 404 = /x;\nerror_page 404 =301 http://example.com/;\nproxy_cache_valid 200 302 10m;\nproxy_cache_valid any 1m;\nproxy_cache_valid 5m;\ngzip_static always;\ngzip_proxied expired no-cache;\nadd_header X-A b always;\nexpires modified 1d;\nallow 10.0.0.0/8;\ndeny all;\naccess_log off;\naccess_log /var/log/x.log main buffer=32k gzip=3 flush=5m if=$loggable;\nset_real_ip_from 192.168.1.1;\nreal_ip_recursive on;\nerror_log /var/log/e.log warn;\nkeepalive_timeout 65 60;\nproxy_set_header Host $host;\nproxy_http_version 1.1;\nproxy_next_upstream error timeout http_502;\nproxy_ignore_headers Expires Cache-Control;\nrewrite ^/a /b last;\nreturn 404;\nreturn https://example.com;\nindex index.html index.htm;\nlisten unix:/run/x.sock;\nlisten *:8000 backlog=511 ipv6only=off reuseport;\n");
}

#[test]
fn listen_with_every_option() {
    roundtrip("listen 80 default_server ssl http2 proxy_protocol setfib=-1 fastopen=5 backlog=-1 rcvbuf=1024 sndbuf=2048 deferred bind ipv6only=on reuseport;\nlisten 10.1.2.3:8443 spdy;\n");
}

#[test]
fn try_files_and_sources() {
    roundtrip("try_files $uri @fallback;\ntry_files /a /b /index.html;\nallow unix:;\ndeny 192.168.0.0/16;\nset_real_ip_from 10.0.0.0/8;\nset_real_ip_from unix:;\nproxy_cache_valid 404 1m;\naccess_log /var/log/a.log;\naccess_log /var/log/a.log combined gzip;\n");
}

#[test]
fn every_switch() {
    roundtrip("daemon on;\nmaster_process off;\nproxy_pass_request_body on;\nproxy_pass_request_headers off;\nproxy_intercept_errors on;\nproxy_buffering off;\ngzip on;\netag off;\nrecursive_error_pages on;\nchunked_transfer_encoding off;\nreal_ip_recursive on;\n");
}

#[test]
fn every_directive_with_one_value() {
    roundtrip("proxy_pass /a/$b-0;\nproxy_method /a/$b-1;\nproxy_read_timeout /a/$b-2;\nproxy_connect_timeout /a/$b-3;\nproxy_hide_header /a/$b-4;\nproxy_pass_header /a/$b-5;\nproxy_cache /a/$b-6;\nproxy_cache_key /a/$b-7;\nproxy_next_upstream_tries /a/$b-8;\nproxy_next_upstream_timeout /a/$b-9;\nroot /a/$b-10;\nalias /a/$b-11;\ndefault_type /a/$b-12;\nclient_max_body_size /a/$b-13;\ninclude /a/$b-14;\nserver_tokens /a/$b-15;\nssl_certificate /a/$b-16;\nssl_certificate_key /a/$b-17;\nrewrite_by_lua_file /a/$b-18;\nbalancer_by_lua_file /a/$b-19;\naccess_by_lua_file /a/$b-20;\nheader_filter_by_lua_file /a/$b-21;\ncontent_by_lua_file /a/$b-22;\nbody_filter_by_lua_file /a/$b-23;\nlog_by_lua_file /a/$b-24;\nlua_need_request_body /a/$b-25;\nssl_certificate_by_lua_file /a/$b-26;\nssl_session_fetch_by_lua_file /a/$b-27;\nssl_session_store_by_lua_file /a/$b-28;\nreal_ip_header /a/$b-29;\n");
}

#[test]
fn quoted_values_keep_their_quotes() {
    roundtrip("root \"/var/my files\";\nadd_header X \"a;b\";\n");
}

#[test]
fn blocks_in_blocks() {
    roundtrip("http {\n\n    server {\n\n        location = /a {\n\n            limit_except GET POST {\n                deny all;\n            }\n            if ($a != b) {\n                internal;\n            }\n        }\n\n        location @named {\n            empty_gif;\n        }\n    }\n}\n");
}

#[test]
fn addresses_of_version_six_are_read_and_written() {
    roundtrip("listen [::]:80;\nlisten [::1]:8443 ssl ipv6only=on;\nallow ::1;\ndeny 2001:db8::/32;\nset_real_ip_from 2001:db8::/32;\nset_real_ip_from fe80::1;\n");
}
