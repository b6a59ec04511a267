//! The nginx configuration: one server per port with a location per
//! application route, the applications reached through variables that
//! Docker's DNS resolves when a request comes.

use vstd::prelude::*;
use crate::config::{app_is_proxied, app_ref_views, app_views, is_proxied, join_path, path_join, proxied, AppConfig, AppConfigView, AppType};
use crate::error::Error;
use crate::text::{byte_len, decimal, lines, lines_of, opt_view, push_decimal, str_byte_len, str_eq, views};

verus! {

/// The start of the configuration, up to the generation time.
pub const HEADER_TOP: &'static str = "# Nginx配置文件\n# 由proxy-config自动生成\n# 生成时间: ";

/// The global settings that follow the generation time, up to the
/// server blocks inside `http`.
pub const HEADER_BODY: &'static str = "\n\nworker_processes auto;\n\nevents {\n    worker_connections 1024;\n}\n\nhttp {\n    include       /etc/nginx/mime.types;\n    default_type  application/octet-stream;\n\n    log_format  main  '$remote_addr - $remote_user [$time_local] \"$request\" '\n                      '$status $body_bytes_sent \"$http_referer\" '\n                      '\"$http_user_agent\" \"$http_x_forwarded_for\"';\n\n    access_log  /var/log/nginx/access.log  main;\n    error_log   /var/log/nginx/error.log warn;\n\n    sendfile        on;\n    tcp_nopush      on;\n    tcp_nodelay     on;\n    keepalive_timeout  65;\n    types_hash_max_size 2048;\n\n    # Gzip压缩\n    gzip on;\n    gzip_vary on;\n    gzip_proxied any;\n    gzip_comp_level 6;\n    gzip_types text/plain text/css text/xml text/javascript \n               application/json application/javascript application/xml+rss \n               application/rss+xml font/truetype font/opentype \n               application/vnd.ms-fontobject image/svg+xml;\n\n    # 使用Docker内部DNS解析器，支持动态DNS解析\n    # valid=30s: DNS解析结果缓存30秒\n    # ipv6=off: 禁用IPv6解析，避免解析延迟\n    resolver 127.0.0.11 valid=30s ipv6=off;\n\n";

/// The start of the port-80 server that redirects to HTTPS, up to the
/// server name.
pub const REDIRECT_START: &'static str = "    server {\n        listen 80;\n        server_name ";

/// Between the server name and the ACME web root of the redirecting server.
pub const REDIRECT_MIDDLE: &'static str = ";\n\n        # ACME 验证（Let's Encrypt 证书申请）\n        # acme.sh 会在此目录下创建验证文件\n        location /.well-known/acme-challenge/ {\n            root ";

/// The rest of the redirecting server.
pub const REDIRECT_END: &'static str = ";\n            default_type \"text/plain\";\n        }\n\n        # 其他所有请求重定向到HTTPS\n        location / {\n            return 301 https://$host$request_uri;\n        }\n    }\n";

/// The start of the TLS settings, up to the server name.
pub const SSL_START: &'static str = "        listen 443 ssl;\n        server_name ";

/// Between the server name and the certificate path.
pub const SSL_CERT: &'static str = ";\n\n        # SSL 证书配置\n        ssl_certificate ";

/// Between the certificate path and the key path.
pub const SSL_KEY: &'static str = ";\n        ssl_certificate_key ";

/// After the key path: the key file extension and the TLS tuning.
pub const SSL_END: &'static str = ".key;\n\n        # SSL 优化配置\n        ssl_protocols TLSv1.2 TLSv1.3;\n        ssl_ciphers HIGH:!aNULL:!MD5;\n        ssl_prefer_server_ciphers on;\n        ssl_session_cache shared:SSL:10m;\n        ssl_session_timeout 10m;\n\n";

/// The listen directive of a plain HTTP server, up to the port.
pub const PLAIN_START: &'static str = "        listen ";

/// What follows the listen port number of a plain HTTP server.
pub const PLAIN_END: &'static str = ";\n        server_name localhost;\n\n";

/// The ACME challenge location, up to its web root.
pub const ACME_START: &'static str = "        # ACME 验证（Let's Encrypt 证书申请）\n        # acme.sh 会在此目录下创建验证文件\n        location /.well-known/acme-challenge/ {\n            root ";

/// The rest of the ACME challenge location.
pub const ACME_END: &'static str = ";\n            default_type \"text/plain\";\n        }\n\n";

/// The comment before an upstream variable, up to the application name.
pub const SET_START: &'static str = "        # 定义";

/// Between the comment and the variable name.
pub const SET_VAR: &'static str = "服务地址变量\n        set $";

/// The end of an upstream variable definition.
pub const SET_END: &'static str = ";\n\n";

/// The location that answers 404 when no application serves `/`.
pub const NOT_FOUND: &'static str = "        # 默认返回404\n        location / {\n            return 404;\n        }\n\n";

/// The comment that opens a static site location, up to the name.
pub const STATIC_START: &'static str = "        # 静态网站: ";

/// Between the comment and the route of a location.
pub const LOCATION: &'static str = "\n        location ";

/// After the route of a static site location.
pub const LOCATION_OPEN: &'static str = " {\n";

/// The proxy directive of a static site location, up to the address.
pub const STATIC_PROXY: &'static str = "            proxy_pass ";

/// The headers and cache settings of a static site location.
pub const STATIC_END: &'static str = ";\n            proxy_set_header Host $host;\n            proxy_set_header X-Real-IP $remote_addr;\n            proxy_set_header X-Forwarded-For $proxy_add_x_forwarded_for;\n            proxy_set_header X-Forwarded-Proto $scheme;\n\n            # 静态文件缓存\n            expires 7d;\n            add_header Cache-Control \"public, immutable\";\n";

/// The comment that opens an API location, up to the name.
pub const API_START: &'static str = "        # API服务: ";

/// After the route of an API location, up to the address.
pub const API_PROXY: &'static str = " {\n            proxy_pass ";

/// The headers of an API location, up to its timeouts.
pub const API_HEADERS: &'static str = ";\n            proxy_set_header Host $host;\n            proxy_set_header X-Real-IP $remote_addr;\n            proxy_set_header X-Forwarded-For $proxy_add_x_forwarded_for;\n            proxy_set_header X-Forwarded-Proto $scheme;\n\n            # API超时设置\n";

/// The cache settings of an API location, after its timeouts.
pub const API_CACHE: &'static str = "\n            # 禁用API缓存\n            expires off;\n            add_header Cache-Control \"no-cache, no-store, must-revalidate\";\n";

/// The comment that opens the location of a routed Internal service, up
/// to the name.
pub const INTERNAL_START: &'static str = "        # 内部服务: ";

/// The headers of an Internal service location, up to its timeouts.
pub const INTERNAL_HEADERS: &'static str = ";\n            proxy_set_header Host $host;\n            proxy_set_header X-Real-IP $remote_addr;\n            proxy_set_header X-Forwarded-For $proxy_add_x_forwarded_for;\n            proxy_set_header X-Forwarded-Proto $scheme;\n\n            # 代理超时设置\n";

/// The end of a location block.
pub const LOCATION_CLOSE: &'static str = "        }\n\n";

/// Which certificate files exist in the certificate folder for the
/// domain: `<domain>.cer`, `<domain>.crt` and `<domain>.key`.
#[derive(Clone, Copy, Debug)]
pub struct CertFiles {
    /// `<cert_dir>/<domain>.cer` exists.
    pub cer: bool,
    /// `<cert_dir>/<domain>.crt` exists.
    pub crt: bool,
    /// `<cert_dir>/<domain>.key` exists.
    pub key: bool,
}

/// The paths of the certificate files of `domain` in `cert_dir`, in the
/// order `.cer`, `.crt`, `.key`.
pub fn certificate_paths(cert_dir: &str, domain: &str) -> (r: (String, String, String))
    ensures
        r.0@ == path_join(cert_dir@, domain@ + ".cer"@),
        r.1@ == path_join(cert_dir@, domain@ + ".crt"@),
        r.2@ == path_join(cert_dir@, domain@ + ".key"@),
{
    let mut cer = domain.to_owned();
    cer.append(".cer");
    let mut crt = domain.to_owned();
    crt.append(".crt");
    let mut key = domain.to_owned();
    key.append(".key");
    (join_path(cert_dir, cer.as_str()), join_path(cert_dir, crt.as_str()), join_path(cert_dir, key.as_str()))
}

/// TLS is possible when a certificate (`.cer` or `.crt`) and its key exist.
pub open spec fn certificates_present(certs: CertFiles) -> bool {
    (certs.cer || certs.crt) && certs.key
}

/// Whether a certificate and its key exist.
pub fn check_ssl_certificates(certs: &CertFiles) -> (r: bool)
    ensures
        r == certificates_present(*certs),
{
    (certs.cer || certs.crt) && certs.key
}

/// The name of an application kind, as the logs show it.
pub open spec fn app_type_name(t: AppType) -> Seq<char> {
    match t {
        AppType::Static => "Static"@,
        AppType::Api => "Api"@,
        AppType::Internal => "Internal"@,
    }
}

/// The name of an application kind, as the logs show it.
pub fn format_app_type(app_type: &AppType) -> (r: &'static str)
    ensures
        r@ == app_type_name(*app_type),
{
    match app_type {
        AppType::Static => "Static",
        AppType::Api => "Api",
        AppType::Internal => "Internal",
    }
}

/// The start of the configuration, stamped with `generated_at`.
pub open spec fn header_text(generated_at: Seq<char>) -> Seq<char> {
    HEADER_TOP@ + generated_at + HEADER_BODY@
}

/// The start of the configuration, stamped with `generated_at`.
pub fn generate_header(generated_at: &str) -> (r: String)
    ensures
        r@ == header_text(generated_at@),
{
    let mut r = HEADER_TOP.to_owned();
    r.append(generated_at);
    r.append(HEADER_BODY);
    r
}

/// The port-80 server of an HTTPS setup: ACME challenges are served,
/// everything else is redirected to HTTPS.
pub open spec fn redirect_block(web_root: Seq<char>, domain: Seq<char>) -> Seq<char> {
    REDIRECT_START@ + domain + REDIRECT_MIDDLE@ + web_root + REDIRECT_END@
}

/// The port-80 server of an HTTPS setup.
pub fn generate_http_redirect_server_block(web_root: &str, domain: &str) -> (r: String)
    ensures
        r@ == redirect_block(web_root@, domain@),
{
    let mut r = REDIRECT_START.to_owned();
    r.append(domain);
    r.append(REDIRECT_MIDDLE);
    r.append(web_root);
    r.append(REDIRECT_END);
    r
}

/// The address of an application behind its upstream variable.
pub open spec fn upstream_url(app: AppConfigView) -> Seq<char> {
    "http://${"@ + app.name + "_upstream_host}:"@ + decimal(app.container_port as nat)
}

/// The rewrite that strips a static site's route before proxying; none
/// for the root route.
pub open spec fn rewrite_rule(route: Seq<char>) -> Seq<char> {
    if route == seq!['/'] {
        seq![]
    } else {
        "            rewrite ^"@ + route + "(/.*)?$ /$1 break;\n"@
    }
}

/// Each line indented into a location block.
pub open spec fn indented_lines(ls: Seq<Seq<char>>) -> Seq<char>
    decreases ls.len(),
{
    if ls.len() == 0 {
        seq![]
    } else {
        indented_lines(ls.drop_last()) + "            "@ + ls.last() + "\n"@
    }
}

/// The extra directives of a location, one per line.
pub open spec fn extra_directives(extra: Option<Seq<char>>) -> Seq<char> {
    match extra {
        None => seq![],
        Some(e) => indented_lines(lines(e)),
    }
}

/// A proxy timeout in seconds: the configured one, else 60.
pub open spec fn timeout_secs(t: Option<u64>) -> nat {
    match t {
        Some(v) => v as nat,
        None => 60,
    }
}

/// The proxy timeouts of a location: connect, send and read, each the
/// configured value or 60 seconds.
pub open spec fn timeouts_text(app: AppConfigView) -> Seq<char> {
    "            proxy_connect_timeout "@ + decimal(timeout_secs(app.proxy_connect_timeout))
        + "s;\n            proxy_send_timeout "@ + decimal(timeout_secs(app.proxy_send_timeout))
        + "s;\n            proxy_read_timeout "@ + decimal(timeout_secs(app.proxy_read_timeout)) + "s;\n"@
}

/// The location block that serves `route` of `app`: static sites are
/// proxied with the route stripped and cached, with the extra directives;
/// API requests are proxied
/// with their full path, uncached, with the configured timeouts and the
/// extra directives; a routed Internal service is proxied with the route
/// stripped, with the configured timeouts and the extra directives.
pub open spec fn location_text(app: AppConfigView, route: Seq<char>) -> Seq<char> {
    match app.app_type {
        AppType::Static => STATIC_START@ + app.name + LOCATION@ + route + LOCATION_OPEN@ + rewrite_rule(route)
            + STATIC_PROXY@ + upstream_url(app) + STATIC_END@ + extra_directives(app.nginx_extra_config)
            + LOCATION_CLOSE@,
        AppType::Api => API_START@ + app.name + LOCATION@ + route + API_PROXY@ + upstream_url(app) + API_HEADERS@
            + timeouts_text(app) + API_CACHE@ + extra_directives(app.nginx_extra_config) + LOCATION_CLOSE@,
        AppType::Internal => INTERNAL_START@ + app.name + LOCATION@ + route + LOCATION_OPEN@ + rewrite_rule(
            route,
        ) + STATIC_PROXY@ + upstream_url(app) + INTERNAL_HEADERS@ + timeouts_text(app) + extra_directives(
            app.nginx_extra_config,
        ) + LOCATION_CLOSE@,
    }
}

/// The address of an application behind its upstream variable.
fn push_upstream(s: &mut String, app: &AppConfig)
    ensures
        final(s)@ == old(s)@ + upstream_url(app@),
{
    s.append("http://${");
    s.append(app.name.as_str());
    s.append("_upstream_host}:");
    push_decimal(s, app.container_port as u64);
}

/// Appends the proxy timeouts of `app`.
fn push_timeouts(s: &mut String, app: &AppConfig)
    ensures
        final(s)@ == old(s)@ + timeouts_text(app@),
{
    s.append("            proxy_connect_timeout ");
    push_decimal(s, timeout_value(app.proxy_connect_timeout));
    s.append("s;\n            proxy_send_timeout ");
    push_decimal(s, timeout_value(app.proxy_send_timeout));
    s.append("s;\n            proxy_read_timeout ");
    push_decimal(s, timeout_value(app.proxy_read_timeout));
    s.append("s;\n");
}

/// A configured timeout, else 60.
fn timeout_value(t: Option<u64>) -> (r: u64)
    ensures
        r as nat == timeout_secs(t),
{
    match t {
        Some(v) => v,
        None => 60,
    }
}

/// Appends the extra directives, one indented line each.
fn push_extra(r: &mut String, extra: &Option<String>)
    ensures
        final(r)@ == old(r)@ + extra_directives(opt_view(*extra)),
{
    let ghost before = r@;
    match extra {
        Some(extra) => {
            let ls = lines_of(extra.as_str());
            let ghost lv = views(ls@);
            let mut i: usize = 0;
            while i < ls.len()
                invariant
                    i <= ls.len(),
                    lv == views(ls@),
                    lv == lines(extra@),
                    r@ == before + indented_lines(lv.take(i as int)),
                decreases ls.len() - i,
            {
                assert(lv.take(i + 1).drop_last() =~= lv.take(i as int));
                assert(lv.take(i + 1).last() == ls@[i as int]@);
                r.append("            ");
                r.append(ls[i].as_str());
                r.append("\n");
                i = i + 1;
            }
            assert(lv.take(i as int) =~= lv);
        },
        None => {
            assert(r@ =~= before + extra_directives(opt_view(*extra)));
        },
    }
}

/// Appends the rewrite that strips `route`, unless it is the root.
fn push_rewrite(r: &mut String, route: &str)
    ensures
        final(r)@ == old(r)@ + rewrite_rule(route@),
{
    let is_root = str_eq(route, "/");
    proof {
        assert(seq!['/'] =~= "/"@) by {
            reveal_strlit("/");
        }
    }
    if !is_root {
        r.append("            rewrite ^");
        r.append(route);
        r.append("(/.*)?$ /$1 break;\n");
    } else {
        assert(r@ =~= r@ + rewrite_rule(route@));
    }
}

/// The location block that serves `route` of `app`.
pub fn generate_location_config(app: &AppConfig, route: &str) -> (r: String)
    ensures
        r@ == location_text(app@, route@),
{
    let mut r = String::new();
    match app.app_type {
        AppType::Static => {
            r.append(STATIC_START);
            r.append(app.name.as_str());
            r.append(LOCATION);
            r.append(route);
            r.append(LOCATION_OPEN);
            push_rewrite(&mut r, route);
            r.append(STATIC_PROXY);
            push_upstream(&mut r, app);
            r.append(STATIC_END);
            push_extra(&mut r, &app.nginx_extra_config);
            r.append(LOCATION_CLOSE);
            assert(r@ =~= location_text(app@, route@));
        },
        AppType::Api => {
            r.append(API_START);
            r.append(app.name.as_str());
            r.append(LOCATION);
            r.append(route);
            r.append(API_PROXY);
            push_upstream(&mut r, app);
            r.append(API_HEADERS);
            push_timeouts(&mut r, app);
            r.append(API_CACHE);
            push_extra(&mut r, &app.nginx_extra_config);
            r.append(LOCATION_CLOSE);
            assert(r@ =~= location_text(app@, route@));
        },
        AppType::Internal => {
            r.append(INTERNAL_START);
            r.append(app.name.as_str());
            r.append(LOCATION);
            r.append(route);
            r.append(LOCATION_OPEN);
            push_rewrite(&mut r, route);
            r.append(STATIC_PROXY);
            push_upstream(&mut r, app);
            r.append(INTERNAL_HEADERS);
            push_timeouts(&mut r, app);
            push_extra(&mut r, &app.nginx_extra_config);
            r.append(LOCATION_CLOSE);
            assert(r@ =~= location_text(app@, route@));
        },
    }
    r
}

/// The locations of one application: one per route.
pub open spec fn app_locations(app: AppConfigView) -> Seq<(Seq<char>, Seq<char>)> {
    app.routes.map_values(|route: Seq<char>| (route, location_text(app, route)))
}

/// The locations of all applications, in order.
pub open spec fn all_locations(apps: Seq<AppConfigView>) -> Seq<(Seq<char>, Seq<char>)>
    decreases apps.len(),
{
    if apps.len() == 0 {
        seq![]
    } else {
        all_locations(apps.drop_last()) + app_locations(apps.last())
    }
}

/// The position in `s` before the first location whose route is shorter
/// (in bytes) than `n`.
pub open spec fn first_shorter(s: Seq<(Seq<char>, Seq<char>)>, n: nat) -> int
    decreases s.len(),
{
    if s.len() == 0 {
        0
    } else if byte_len(s[0].0) < n {
        0
    } else {
        1 + first_shorter(s.drop_first(), n)
    }
}

/// `x` inserted into `s` after every location whose route is at least as
/// long.
pub open spec fn insert_by_length(s: Seq<(Seq<char>, Seq<char>)>, x: (Seq<char>, Seq<char>)) -> Seq<
    (Seq<char>, Seq<char>),
> {
    let p = first_shorter(s, byte_len(x.0));
    s.take(p) + seq![x] + s.skip(p)
}

/// The locations ordered by route length, longest first; locations with
/// routes of equal length keep their order.
pub open spec fn sort_by_length(s: Seq<(Seq<char>, Seq<char>)>) -> Seq<(Seq<char>, Seq<char>)>
    decreases s.len(),
{
    if s.len() == 0 {
        seq![]
    } else {
        insert_by_length(sort_by_length(s.drop_last()), s.last())
    }
}

/// The location blocks, one after the other.
pub open spec fn location_blocks(s: Seq<(Seq<char>, Seq<char>)>) -> Seq<char>
    decreases s.len(),
{
    if s.len() == 0 {
        seq![]
    } else {
        location_blocks(s.drop_last()) + s.last().1
    }
}

/// The upstream variable of each application.
pub open spec fn set_lines(apps: Seq<AppConfigView>) -> Seq<char>
    decreases apps.len(),
{
    if apps.len() == 0 {
        seq![]
    } else {
        set_lines(apps.drop_last()) + SET_START@ + apps.last().name + SET_VAR@ + apps.last().name
            + "_upstream_host "@ + apps.last().container_name + SET_END@
    }
}

/// Whether some application serves the root route `/`.
pub open spec fn has_root_route(apps: Seq<AppConfigView>) -> bool {
    exists|i: int, j: int|
        0 <= i < apps.len() && 0 <= j < apps[i].routes.len() && #[trigger] apps[i].routes[j] == seq!['/']
}

/// The certificate file extension: `.cer` when that file exists, else
/// `.crt`.
pub open spec fn cert_extension(cer_exists: bool) -> Seq<char> {
    if cer_exists {
        ".cer"@
    } else {
        ".crt"@
    }
}

/// The listen settings of a server: TLS on 443 with the domain's
/// certificate, or plain HTTP on `port`.
pub open spec fn listen_text(
    port: u16,
    is_https: bool,
    cert_dir: Seq<char>,
    domain: Seq<char>,
    cer_exists: bool,
) -> Seq<char> {
    if is_https {
        SSL_START@ + domain + SSL_CERT@ + cert_dir + "/"@ + domain + cert_extension(cer_exists) + SSL_KEY@
            + cert_dir + "/"@ + domain + SSL_END@
    } else {
        PLAIN_START@ + decimal(port as nat) + PLAIN_END@
    }
}

/// A server block: the listen settings, the ACME location (plain HTTP
/// only), an upstream variable per application, a 404 location when no
/// application serves `/`, and the applications' locations, longest
/// route first.
pub open spec fn server_block(
    apps: Seq<AppConfigView>,
    port: u16,
    web_root: Seq<char>,
    is_https: bool,
    cert_dir: Seq<char>,
    domain: Seq<char>,
    cer_exists: bool,
) -> Seq<char> {
    "    server {\n"@ + listen_text(port, is_https, cert_dir, domain, cer_exists) + (if is_https {
        seq![]
    } else {
        ACME_START@ + web_root + ACME_END@
    }) + set_lines(apps) + (if has_root_route(apps) {
        seq![]
    } else {
        NOT_FOUND@
    }) + location_blocks(sort_by_length(all_locations(apps))) + "    }\n"@
}

/// The whole configuration: the header, then for HTTPS (a domain with
/// its certificate and key) the redirecting port-80 server and the TLS
/// server, else the plain port-80 server, all for the applications other
/// than Internal ones.
pub open spec fn nginx_text(
    apps: Seq<AppConfigView>,
    web_root: Seq<char>,
    cert_dir: Seq<char>,
    domain: Option<Seq<char>>,
    certs: CertFiles,
    generated_at: Seq<char>,
) -> Seq<char> {
    let px = proxied(apps);
    header_text(generated_at) + (if domain is Some && certificates_present(certs) {
        "\n"@ + redirect_block(web_root, domain->0) + "\n"@ + server_block(
            px,
            443,
            web_root,
            true,
            cert_dir,
            domain->0,
            certs.cer,
        )
    } else {
        "\n"@ + server_block(px, 80, web_root, false, seq![], seq![], false)
    }) + "}\n"@
}

/// A step of `first_shorter` over a suffix.
proof fn lemma_first_shorter_step(s: Seq<(Seq<char>, Seq<char>)>, n: nat, p: int)
    requires
        0 <= p < s.len(),
        byte_len(s[p].0) >= n,
    ensures
        first_shorter(s.skip(p), n) == 1 + first_shorter(s.skip(p + 1), n),
{
    assert(s.skip(p).drop_first() =~= s.skip(p + 1));
}

/// The views of a vector of locations.
pub open spec fn location_views(v: Seq<(String, String)>) -> Seq<(Seq<char>, Seq<char>)> {
    v.map_values(|l: (String, String)| (l.0@, l.1@))
}

/// Inserts a location after every location whose route is at least as
/// long; `keys` holds the byte length of each route.
fn insert_location(sorted: &mut Vec<(String, String)>, keys: &mut Vec<u128>, item: (String, String))
    requires
        old(keys)@.len() == old(sorted)@.len(),
        forall|k: int| 0 <= k < old(keys)@.len() ==> old(keys)@[k] == byte_len(#[trigger] old(sorted)@[k].0@),
    ensures
        final(keys)@.len() == final(sorted)@.len(),
        forall|k: int| 0 <= k < final(keys)@.len() ==> final(keys)@[k] == byte_len(#[trigger] final(sorted)@[k].0@),
        location_views(final(sorted)@) == insert_by_length(location_views(old(sorted)@), (item.0@, item.1@)),
{
    let key = str_byte_len(item.0.as_str());
    let ghost s = location_views(sorted@);
    let mut p: usize = 0;
    assert(s.skip(0) =~= s);
    while p < sorted.len() && keys[p] >= key
        invariant
            p <= sorted.len(),
            keys@.len() == sorted@.len(),
            s == location_views(sorted@),
            forall|k: int| 0 <= k < keys@.len() ==> keys@[k] == byte_len(#[trigger] sorted@[k].0@),
            first_shorter(s, key as nat) == p + first_shorter(s.skip(p as int), key as nat),
        decreases sorted.len() - p,
    {
        assert(s[p as int].0 == sorted@[p as int].0@);
        proof {
            lemma_first_shorter_step(s, key as nat, p as int);
        }
        p = p + 1;
    }
    proof {
        if p < sorted.len() {
            assert(s.skip(p as int)[0] == s[p as int]);
            assert(s[p as int].0 == sorted@[p as int].0@);
        } else {
            assert(s.skip(p as int) =~= seq![]);
        }
    }
    let ghost old_sorted = sorted@;
    let ghost old_keys = keys@;
    let ghost x = (item.0@, item.1@);
    sorted.insert(p, item);
    keys.insert(p, key);
    proof {
        assert(location_views(sorted@) =~= s.take(p as int) + seq![x] + s.skip(p as int));
        assert forall|k: int| 0 <= k < keys@.len() implies keys@[k] == byte_len(#[trigger] sorted@[k].0@) by {
            if k < p {
                assert(keys@[k] == old_keys[k] && sorted@[k] == old_sorted[k]);
            } else if k > p {
                assert(keys@[k] == old_keys[k - 1] && sorted@[k] == old_sorted[k - 1]);
            }
        }
    }
}

/// The upstream variables, the locations and whether a root route is
/// served, for the applications.
fn collect_locations(apps: &[&AppConfig]) -> (r: (String, Vec<(String, String)>, bool))
    ensures
        r.0@ == set_lines(app_ref_views(apps@)),
        location_views(r.1@) == sort_by_length(all_locations(app_ref_views(apps@))),
        r.2 == has_root_route(app_ref_views(apps@)),
{
    let ghost av = app_ref_views(apps@);
    let mut sets = String::new();
    let mut sorted: Vec<(String, String)> = Vec::new();
    let mut keys: Vec<u128> = Vec::new();
    let mut has_root = false;
    let ghost mut seen: Seq<(Seq<char>, Seq<char>)> = seq![];
    let mut i: usize = 0;
    while i < apps.len()
        invariant
            i <= apps.len(),
            av == app_ref_views(apps@),
            sets@ == set_lines(av.take(i as int)),
            seen == all_locations(av.take(i as int)),
            location_views(sorted@) == sort_by_length(seen),
            keys@.len() == sorted@.len(),
            forall|k: int| 0 <= k < keys@.len() ==> keys@[k] == byte_len(#[trigger] sorted@[k].0@),
            has_root == has_root_route(av.take(i as int)),
        decreases apps.len() - i,
    {
        let app = apps[i];
        let t = i + 1;
        assert(av.take(t as int).drop_last() =~= av.take(i as int));
        assert(av.take(t as int).last() == app@);
        assert(av[i as int] == app@);
        sets.append(SET_START);
        sets.append(app.name.as_str());
        sets.append(SET_VAR);
        sets.append(app.name.as_str());
        sets.append("_upstream_host ");
        sets.append(app.container_name.as_str());
        sets.append(SET_END);
        let ghost rv = app@.routes;
        let ghost locs = app_locations(app@);
        let mut root_here = false;
        let mut j: usize = 0;
        while j < app.routes.len()
            invariant
                j <= app.routes.len(),
                rv == app@.routes,
                rv == views(app.routes@),
                locs == app_locations(app@),
                location_views(sorted@) == sort_by_length(seen + locs.take(j as int)),
                keys@.len() == sorted@.len(),
                forall|k: int| 0 <= k < keys@.len() ==> keys@[k] == byte_len(#[trigger] sorted@[k].0@),
                root_here == exists|m: int| 0 <= m < j && #[trigger] rv[m] == seq!['/'],
            decreases app.routes.len() - j,
        {
            let route = &app.routes[j];
            assert(rv[j as int] == route@);
            let text = generate_location_config(app, route.as_str());
            let ghost before = seen + locs.take(j as int);
            insert_location(&mut sorted, &mut keys, (route.clone(), text));
            proof {
                assert((seen + locs.take(j + 1)).drop_last() =~= before);
                assert((seen + locs.take(j + 1)).last() == locs[j as int]);
            }
            if str_eq(route.as_str(), "/") {
                proof {
                    assert(seq!['/'] =~= "/"@) by {
                        reveal_strlit("/");
                    }
                }
                root_here = true;
            } else {
                proof {
                    assert(seq!['/'] =~= "/"@) by {
                        reveal_strlit("/");
                    }
                }
            }
            j = j + 1;
        }
        proof {
            assert(locs.take(j as int) =~= locs);
            assert(all_locations(av.take(t as int)) == seen + locs);
            seen = seen + locs;
            let p = av.take(i as int);
            let q = av.take(t as int);
            assert(has_root_route(q) == (has_root_route(p) || root_here)) by {
                if has_root_route(q) {
                    let (a, b) = choose|a: int, b: int|
                        0 <= a < q.len() && 0 <= b < q[a].routes.len() && #[trigger] q[a].routes[b] == seq!['/'];
                    if a < i {
                        assert(p[a] == q[a]);
                        assert(p[a].routes[b] == seq!['/']);
                    } else {
                        assert(rv[b] == seq!['/']);
                    }
                }
                if has_root_route(p) {
                    let (a, b) = choose|a: int, b: int|
                        0 <= a < p.len() && 0 <= b < p[a].routes.len() && #[trigger] p[a].routes[b] == seq!['/'];
                    assert(q[a] == p[a]);
                    assert(q[a].routes[b] == seq!['/']);
                }
                if root_here {
                    let m = choose|m: int| 0 <= m < j && #[trigger] rv[m] == seq!['/'];
                    assert(q[i as int] == app@);
                    assert(q[i as int].routes[m] == seq!['/']);
                }
            }
        }
        has_root = has_root || root_here;
        i = i + 1;
    }
    assert(av.take(i as int) =~= av);
    (sets, sorted, has_root)
}

/// The listen settings of a server (see `listen_text`).
fn listen_part(port: u16, is_https: bool, cert_dir: Option<&str>, domain: Option<&str>, cer_exists: bool) -> (r: String)
    requires
        is_https ==> cert_dir is Some && domain is Some,
    ensures
        r@ == listen_text(
            port,
            is_https,
            match cert_dir {
                Some(c) => c@,
                None => seq![],
            },
            match domain {
                Some(d) => d@,
                None => seq![],
            },
            cer_exists,
        ),
{
    let mut r = String::new();
    match (is_https, cert_dir, domain) {
        (true, Some(dir), Some(name)) => {
            r.append(SSL_START);
            r.append(name);
            r.append(SSL_CERT);
            r.append(dir);
            r.append("/");
            r.append(name);
            if cer_exists {
                r.append(".cer");
            } else {
                r.append(".crt");
            }
            r.append(SSL_KEY);
            r.append(dir);
            r.append("/");
            r.append(name);
            r.append(SSL_END);
        },
        _ => {
            r.append(PLAIN_START);
            push_decimal(&mut r, port as u64);
            r.append(PLAIN_END);
        },
    }
    r
}

/// The location blocks of the sorted locations, one after the other.
fn blocks_of(sorted: &Vec<(String, String)>) -> (r: String)
    ensures
        r@ == location_blocks(location_views(sorted@)),
{
    let mut r = String::new();
    let ghost sv = location_views(sorted@);
    let mut k: usize = 0;
    while k < sorted.len()
        invariant
            k <= sorted.len(),
            sv == location_views(sorted@),
            r@ == location_blocks(sv.take(k as int)),
        decreases sorted.len() - k,
    {
        assert(sv.take(k + 1).drop_last() =~= sv.take(k as int));
        assert(sv.take(k + 1).last().1 == sorted@[k as int].1@);
        r.append(sorted[k].1.as_str());
        k = k + 1;
    }
    assert(sv.take(k as int) =~= sv);
    r
}

/// A server block for the applications (see `server_block`). The TLS
/// settings need the certificate folder and the domain.
pub fn generate_server_block_internal(
    apps: &[&AppConfig],
    port: u16,
    web_root: &str,
    is_https: bool,
    cert_dir: Option<&str>,
    domain: Option<&str>,
    cer_exists: bool,
) -> (r: String)
    requires
        is_https ==> cert_dir is Some && domain is Some,
    ensures
        r@ == server_block(
            app_ref_views(apps@),
            port,
            web_root@,
            is_https,
            match cert_dir {
                Some(c) => c@,
                None => seq![],
            },
            match domain {
                Some(d) => d@,
                None => seq![],
            },
            cer_exists,
        ),
{
    let listen = listen_part(port, is_https, cert_dir, domain, cer_exists);
    let mut acme = String::new();
    if !is_https {
        acme.append(ACME_START);
        acme.append(web_root);
        acme.append(ACME_END);
    }
    let (sets, sorted, has_root) = collect_locations(apps);
    let not_found = if has_root {
        String::new()
    } else {
        NOT_FOUND.to_owned()
    };
    let blocks = blocks_of(&sorted);
    let mut r = "    server {\n".to_owned();
    r.append(listen.as_str());
    r.append(acme.as_str());
    r.append(sets.as_str());
    r.append(not_found.as_str());
    r.append(blocks.as_str());
    r.append("    }\n");
    r
}

/// The plain HTTP server on port 80.
pub fn generate_http_server_block(apps: &[&AppConfig], web_root: &str) -> (r: String)
    ensures
        r@ == server_block(app_ref_views(apps@), 80, web_root@, false, seq![], seq![], false),
{
    generate_server_block_internal(apps, 80, web_root, false, None, None, false)
}

/// The TLS server on port 443 for `domain`, with its certificate from
/// `cert_dir` (`.cer` when `cer_exists`, else `.crt`).
pub fn generate_https_server_block(
    apps: &[&AppConfig],
    web_root: &str,
    cert_dir: &str,
    domain: &str,
    cer_exists: bool,
) -> (r: String)
    ensures
        r@ == server_block(app_ref_views(apps@), 443, web_root@, true, cert_dir@, domain@, cer_exists),
{
    generate_server_block_internal(apps, 443, web_root, true, Some(cert_dir), Some(domain), cer_exists)
}

/// The configuration stamped with `generated_at` (see `nginx_text`);
/// `certs` tells which certificate files of the domain exist. It is
/// always formed.
pub fn generate_nginx_config(
    apps: &[AppConfig],
    web_root: &str,
    cert_dir: &str,
    domain: &Option<String>,
    certs: &CertFiles,
    generated_at: &str,
) -> (r: Result<String, Error>)
    ensures
        r matches Ok(text) && text@ == nginx_text(
            app_views(apps@),
            web_root@,
            cert_dir@,
            opt_view(*domain),
            *certs,
            generated_at@,
        ),
{
    let header = generate_header(generated_at);
    Ok(nginx_config_after_header(apps, web_root, cert_dir, domain, certs, header))
}

/// The configuration after its header.
fn nginx_config_after_header(
    apps: &[AppConfig],
    web_root: &str,
    cert_dir: &str,
    domain: &Option<String>,
    certs: &CertFiles,
    header: String,
) -> (r: String)
    ensures
        forall|t: Seq<char>| header@ == header_text(t) ==> r@ == nginx_text(
            app_views(apps@),
            web_root@,
            cert_dir@,
            opt_view(*domain),
            *certs,
            t,
        ),
{
    let ghost av = app_views(apps@);
    let mut nginx_apps: Vec<&AppConfig> = Vec::new();
    let mut i: usize = 0;
    while i < apps.len()
        invariant
            i <= apps.len(),
            av == app_views(apps@),
            app_ref_views(nginx_apps@) == proxied(av.take(i as int)),
        decreases apps.len() - i,
    {
        let app = &apps[i];
        proof {
            reveal(Seq::filter);
            assert(av.take(i + 1).drop_last() =~= av.take(i as int));
            assert(av.take(i + 1).last() == app@);
        }
        if app_is_proxied(app) {
            let ghost old_n = nginx_apps@;
            nginx_apps.push(app);
            assert(app_ref_views(nginx_apps@) =~= app_ref_views(old_n).push(app@));
        }
        i = i + 1;
    }
    assert(av.take(i as int) =~= av);
    let mut config = header;
    let ssl_enabled = match domain {
        Some(_) => check_ssl_certificates(certs),
        None => false,
    };
    match domain {
        Some(name) => {
            if ssl_enabled {
                config.append("\n");
                let redirect = generate_http_redirect_server_block(web_root, name.as_str());
                config.append(redirect.as_str());
                config.append("\n");
                let block = generate_https_server_block(
                    nginx_apps.as_slice(),
                    web_root,
                    cert_dir,
                    name.as_str(),
                    certs.cer,
                );
                config.append(block.as_str());
            } else {
                config.append("\n");
                let block = generate_http_server_block(nginx_apps.as_slice(), web_root);
                config.append(block.as_str());
            }
        },
        None => {
            config.append("\n");
            let block = generate_http_server_block(nginx_apps.as_slice(), web_root);
            config.append(block.as_str());
        },
    }
    config.append("}\n");
    config
}

} // verus!

verus! {

/// Whether the locations are ordered by route length, longest first.
pub open spec fn longest_first(s: Seq<(Seq<char>, Seq<char>)>) -> bool {
    forall|i: int, j: int| 0 <= i < j < s.len() ==> byte_len(#[trigger] s[i].0) >= byte_len(#[trigger] s[j].0)
}

/// What `first_shorter` finds: every location before it is at least as
/// long as `n`, the one at it (if any) is shorter.
proof fn lemma_first_shorter(s: Seq<(Seq<char>, Seq<char>)>, n: nat)
    ensures
        0 <= first_shorter(s, n) <= s.len(),
        forall|k: int| 0 <= k < first_shorter(s, n) ==> byte_len(#[trigger] s[k].0) >= n,
        first_shorter(s, n) < s.len() ==> byte_len(s[first_shorter(s, n)].0) < n,
    decreases s.len(),
{
    if s.len() > 0 && byte_len(s[0].0) >= n {
        lemma_first_shorter(s.drop_first(), n);
        assert forall|k: int| 0 <= k < first_shorter(s, n) implies byte_len(#[trigger] s[k].0) >= n by {
            if k > 0 {
                assert(s[k] == s.drop_first()[k - 1]);
            }
        }
    }
}

/// Inserting by length keeps locations ordered and loses none.
proof fn lemma_insert_by_length(s: Seq<(Seq<char>, Seq<char>)>, x: (Seq<char>, Seq<char>))
    requires
        longest_first(s),
    ensures
        longest_first(insert_by_length(s, x)),
        insert_by_length(s, x).to_multiset() == s.to_multiset().insert(x),
{
    let n = byte_len(x.0);
    let p = first_shorter(s, n);
    lemma_first_shorter(s, n);
    let r = insert_by_length(s, x);
    assert(r.len() == s.len() + 1);
    assert forall|i: int| 0 <= i < r.len() implies #[trigger] r[i] == if i < p {
        s[i]
    } else if i == p {
        x
    } else {
        s[i - 1]
    } by {}
    assert forall|i: int, j: int| 0 <= i < j < r.len() implies byte_len(#[trigger] r[i].0) >= byte_len(
        #[trigger] r[j].0,
    ) by {
        if i < p && j == p {
        } else if i == p && j > p {
            assert(byte_len(s[j - 1].0) <= byte_len(s[p].0));
        } else if i < p && j > p {
            assert(byte_len(s[i].0) >= byte_len(s[j - 1].0));
        } else if i > p {
            assert(byte_len(s[i - 1].0) >= byte_len(s[j - 1].0));
        } else {
            assert(byte_len(s[i].0) >= byte_len(s[j].0));
        }
    }
    vstd::seq_lib::lemma_multiset_commutative(s.take(p) + seq![x], s.skip(p));
    vstd::seq_lib::lemma_multiset_commutative(s.take(p), seq![x]);
    vstd::seq_lib::lemma_multiset_commutative(s.take(p), s.skip(p));
    assert(s.take(p) + s.skip(p) =~= s);
    assert(seq![x].to_multiset() =~= vstd::multiset::Multiset::singleton(x)) by {
        broadcast use vstd::seq_lib::group_to_multiset_ensures;
        assert(seq![x] =~= Seq::<(Seq<char>, Seq<char>)>::empty().push(x));
    }
    assert(r.to_multiset() =~= s.to_multiset().insert(x));
}

/// The locations come out ordered by route length, longest first, so that
/// nginx tries the more specific routes before the general ones; and none
/// is lost or added.
pub proof fn law_locations_longest_first(s: Seq<(Seq<char>, Seq<char>)>)
    ensures
        longest_first(sort_by_length(s)),
        sort_by_length(s).to_multiset() == s.to_multiset(),
    decreases s.len(),
{
    if s.len() > 0 {
        law_locations_longest_first(s.drop_last());
        lemma_insert_by_length(sort_by_length(s.drop_last()), s.last());
        broadcast use vstd::seq_lib::group_to_multiset_ensures;
        assert(s.drop_last().push(s.last()) =~= s);
    } else {
        broadcast use vstd::seq_lib::group_to_multiset_ensures;
        assert(s =~= Seq::<(Seq<char>, Seq<char>)>::empty());
        assert(sort_by_length(s).to_multiset() =~= s.to_multiset());
    }
}

/// Leaving out the unproxied applications twice leaves out no more.
proof fn lemma_proxied_idempotent(apps: Seq<AppConfigView>)
    ensures
        proxied(proxied(apps)) == proxied(apps),
    decreases apps.len(),
{
    reveal(Seq::filter);
    if apps.len() > 0 {
        lemma_proxied_idempotent(apps.drop_last());
        let d = proxied(apps.drop_last());
        if is_proxied(apps.last()) {
            assert(d.push(apps.last()).drop_last() =~= d);
        }
    }
}

/// Internal applications without routes, which only other containers
/// reach, do not change the nginx configuration: it is the same as for the
/// proxied applications alone.
pub proof fn law_unrouted_internal_apps_ignored(
    apps: Seq<AppConfigView>,
    web_root: Seq<char>,
    cert_dir: Seq<char>,
    domain: Option<Seq<char>>,
    certs: CertFiles,
    generated_at: Seq<char>,
)
    ensures
        nginx_text(apps, web_root, cert_dir, domain, certs, generated_at) == nginx_text(
            proxied(apps),
            web_root,
            cert_dir,
            domain,
            certs,
            generated_at,
        ),
{
    lemma_proxied_idempotent(apps);
}


/// Whether `m` occurs in `text`.
pub open spec fn contains_text(text: Seq<char>, m: Seq<char>) -> bool {
    exists|i: int, j: int| 0 <= i <= j <= text.len() && #[trigger] text.subrange(i, j) == m
}

/// The ACME challenge location of a server, with its web root.
pub open spec fn acme_location(web_root: Seq<char>) -> Seq<char> {
    "location /.well-known/acme-challenge/ {\n            root "@ + web_root + ";"@
}

/// `m` occurs in `a + m + b`.
proof fn lemma_contains_middle(a: Seq<char>, m: Seq<char>, b: Seq<char>)
    ensures
        contains_text(a + m + b, m),
{
    let t = a + m + b;
    assert(t.subrange(a.len() as int, (a.len() + m.len()) as int) =~= m);
}

/// The text before the challenge location of a port-80 server.
pub open spec fn acme_preamble() -> Seq<char> {
    ";\n\n        # ACME 验证（Let's Encrypt 证书申请）\n        # acme.sh 会在此目录下创建验证文件\n        "@
}

/// The redirecting port-80 server of an HTTPS setup holds the challenge
/// location rooted at `web_root`.
proof fn lemma_https_acme(
    apps: Seq<AppConfigView>,
    web_root: Seq<char>,
    cert_dir: Seq<char>,
    d: Seq<char>,
    certs: CertFiles,
    generated_at: Seq<char>,
)
    requires
        certificates_present(certs),
    ensures
        contains_text(
            nginx_text(apps, web_root, cert_dir, Some(d), certs, generated_at),
            "listen 80;\n        server_name "@ + d + acme_preamble() + acme_location(web_root),
        ),
{
    let text = nginx_text(apps, web_root, cert_dir, Some(d), certs, generated_at);
    reveal_strlit("    server {\n        listen 80;\n        server_name ");
    reveal_strlit("    server {\n        ");
    reveal_strlit("listen 80;\n        server_name ");
    reveal_strlit(";\n\n        # ACME 验证（Let's Encrypt 证书申请）\n        # acme.sh 会在此目录下创建验证文件\n        location /.well-known/acme-challenge/ {\n            root ");
    reveal_strlit(";\n\n        # ACME 验证（Let's Encrypt 证书申请）\n        # acme.sh 会在此目录下创建验证文件\n        ");
    reveal_strlit("location /.well-known/acme-challenge/ {\n            root ");
    reveal_strlit(";");
    reveal_strlit(";\n            default_type \"text/plain\";\n        }\n\n        # 其他所有请求重定向到HTTPS\n        location / {\n            return 301 https://$host$request_uri;\n        }\n    }\n");
    let m = "listen 80;\n        server_name "@ + d + acme_preamble() + acme_location(web_root);
    assert(REDIRECT_START@ =~= "    server {\n        "@ + "listen 80;\n        server_name "@);
    assert(REDIRECT_MIDDLE@ =~= acme_preamble() + "location /.well-known/acme-challenge/ {\n            root "@);
    let tail_end = REDIRECT_END@.skip(1);
    assert(REDIRECT_END@ =~= ";"@ + tail_end);
    let a = header_text(generated_at) + "\n"@ + "    server {\n        "@;
    let b = tail_end + "\n"@ + server_block(proxied(apps), 443, web_root, true, cert_dir, d, certs.cer) + "}\n"@;
    assert(text =~= a + m + b);
    lemma_contains_middle(a, m, b);
}

/// The plain port-80 server holds the challenge location rooted at
/// `web_root`.
proof fn lemma_plain_acme(
    apps: Seq<AppConfigView>,
    web_root: Seq<char>,
    cert_dir: Seq<char>,
    domain: Option<Seq<char>>,
    certs: CertFiles,
    generated_at: Seq<char>,
)
    requires
        !(domain is Some && certificates_present(certs)),
    ensures
        contains_text(
            nginx_text(apps, web_root, cert_dir, domain, certs, generated_at),
            "listen 80;\n        server_name localhost"@ + acme_preamble() + acme_location(web_root),
        ),
{
    let text = nginx_text(apps, web_root, cert_dir, domain, certs, generated_at);
    let px = proxied(apps);
    reveal_strlit("        listen ");
    reveal_strlit(";\n        server_name localhost;\n\n");
    reveal_strlit("        # ACME 验证（Let's Encrypt 证书申请）\n        # acme.sh 会在此目录下创建验证文件\n        location /.well-known/acme-challenge/ {\n            root ");
    reveal_strlit(";\n            default_type \"text/plain\";\n        }\n\n");
    reveal_strlit(";\n\n        # ACME 验证（Let's Encrypt 证书申请）\n        # acme.sh 会在此目录下创建验证文件\n        ");
    reveal_strlit("location /.well-known/acme-challenge/ {\n            root ");
    reveal_strlit(";");
    reveal_strlit("        ");
    reveal_strlit("listen 80;\n        server_name localhost");
    let m = "listen 80;\n        server_name localhost"@ + acme_preamble() + acme_location(web_root);
    assert(decimal(80) =~= seq!['8', '0']) by {
        assert(decimal(8) =~= seq!['8']);
    }
    assert(PLAIN_START@ =~= "        "@ + "listen "@) by {
        reveal_strlit("listen ");
    }
    assert(m =~= "listen "@ + decimal(80) + PLAIN_END@ + ACME_START@ + web_root + ";"@) by {
        reveal_strlit("listen ");
    }
    let tail_end = ACME_END@.skip(1);
    assert(ACME_END@ =~= ";"@ + tail_end);
    let a = header_text(generated_at) + "\n"@ + "    server {\n"@ + "        "@;
    let b = tail_end + set_lines(px) + (if has_root_route(px) {
        seq![]
    } else {
        NOT_FOUND@
    }) + location_blocks(sort_by_length(all_locations(px))) + "    }\n"@ + "}\n"@;
    assert(text =~= a + m + b);
    lemma_contains_middle(a, m, b);
}

/// ACME challenges are always answered from the web root, where acme.sh
/// writes them: with a domain whose certificate and key exist, the
/// port-80 server that names the domain holds the challenge location
/// rooted at `web_root`; otherwise the plain port-80 server holds it.
pub proof fn law_acme_served_from_web_root(
    apps: Seq<AppConfigView>,
    web_root: Seq<char>,
    cert_dir: Seq<char>,
    domain: Option<Seq<char>>,
    certs: CertFiles,
    generated_at: Seq<char>,
)
    ensures
        domain matches Some(d) ==> certificates_present(certs) ==> contains_text(
            nginx_text(apps, web_root, cert_dir, domain, certs, generated_at),
            "listen 80;\n        server_name "@ + d + acme_preamble() + acme_location(web_root),
        ),
        !(domain is Some && certificates_present(certs)) ==> contains_text(
            nginx_text(apps, web_root, cert_dir, domain, certs, generated_at),
            "listen 80;\n        server_name localhost"@ + acme_preamble() + acme_location(web_root),
        ),
{
    if domain is Some && certificates_present(certs) {
        lemma_https_acme(apps, web_root, cert_dir, domain->0, certs, generated_at);
    } else {
        lemma_plain_acme(apps, web_root, cert_dir, domain, certs, generated_at);
    }
}

} // verus!
