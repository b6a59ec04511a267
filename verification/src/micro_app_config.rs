//! The configuration file of one application (`micro-app.yml`) and its
//! checks.

use vstd::prelude::*;
use crate::error::{Error, ErrorKind};
use crate::text::{chars_of, clone_opt, clone_strings, concat3, opt_view, str_eq, views};

verus! {

/// The health check path used when none is configured.
pub fn default_healthcheck_path() -> (r: String)
    ensures
        r@ == "/"@,
{
    "/".to_owned()
}

/// The package kind used when none is configured: built from sources.
pub fn default_package_type() -> (r: String)
    ensures
        r@ == "source"@,
{
    "source".to_owned()
}

/// The contents of `micro-app.yml`.
#[derive(Debug)]
pub struct MicroAppConfig {
    /// `source` (built from a Dockerfile), `image` (an image archive) or
    /// `registry` (an image from a registry).
    pub package_type: String,
    /// The image archive, for `image` packages.
    pub image_archive: Option<String>,
    /// The registry image, for `registry` packages.
    pub registry_image: Option<String>,
    /// The target platform of a source build, such as `linux/amd64`.
    pub build_platform: Option<String>,
    /// The URL paths of the application.
    pub routes: Vec<String>,
    /// The container name.
    pub container_name: String,
    /// The port inside the container.
    pub container_port: u16,
    /// The HTTP path probed by the health check.
    pub healthcheck_path: String,
    /// `static`, `api` or `internal`.
    pub app_type: String,
    /// A description.
    pub description: Option<String>,
    /// Extra nginx directives.
    pub nginx_extra_config: Option<String>,
    /// Proxy connect timeout, in seconds.
    pub proxy_connect_timeout: Option<u64>,
    /// Proxy read timeout, in seconds.
    pub proxy_read_timeout: Option<u64>,
    /// Proxy send timeout, in seconds.
    pub proxy_send_timeout: Option<u64>,
}

/// The mathematical value of a `MicroAppConfig`.
pub struct MicroAppConfigView {
    pub package_type: Seq<char>,
    pub image_archive: Option<Seq<char>>,
    pub registry_image: Option<Seq<char>>,
    pub build_platform: Option<Seq<char>>,
    pub routes: Seq<Seq<char>>,
    pub container_name: Seq<char>,
    pub container_port: u16,
    pub healthcheck_path: Seq<char>,
    pub app_type: Seq<char>,
    pub description: Option<Seq<char>>,
    pub nginx_extra_config: Option<Seq<char>>,
    pub proxy_connect_timeout: Option<u64>,
    pub proxy_read_timeout: Option<u64>,
    pub proxy_send_timeout: Option<u64>,
}

impl View for MicroAppConfig {
    type V = MicroAppConfigView;

    open spec fn view(&self) -> MicroAppConfigView {
        MicroAppConfigView {
            package_type: self.package_type@,
            image_archive: opt_view(self.image_archive),
            registry_image: opt_view(self.registry_image),
            build_platform: opt_view(self.build_platform),
            routes: views(self.routes@),
            container_name: self.container_name@,
            container_port: self.container_port,
            healthcheck_path: self.healthcheck_path@,
            app_type: self.app_type@,
            description: opt_view(self.description),
            nginx_extra_config: opt_view(self.nginx_extra_config),
            proxy_connect_timeout: self.proxy_connect_timeout,
            proxy_read_timeout: self.proxy_read_timeout,
            proxy_send_timeout: self.proxy_send_timeout,
        }
    }
}

/// What is wrong with a route, if anything: it must start with `/` and
/// must not end with `/`, unless it is `/` itself.
pub open spec fn route_problem(route: Seq<char>) -> Option<Seq<char>> {
    if route.len() == 0 {
        Some("路由不能为空"@)
    } else if route[0] != '/' {
        Some("路由 '"@ + route + "' 必须以 '/' 开头"@)
    } else if route != seq!['/'] && route.last() == '/' {
        Some("路由 '"@ + route + "' 不能以 '/' 结尾（根路由 '/' 除外）"@)
    } else {
        None
    }
}

/// Checks the form of a route.
pub fn validate_route_format(route: &str) -> (r: Result<(), Error>)
    ensures
        r is Err <==> route_problem(route@) is Some,
        r matches Err(e) ==> e@ == (ErrorKind::Config, route_problem(route@)->0),
{
    let cs = chars_of(route);
    if cs.len() == 0 {
        return Err(Error::Config("路由不能为空".to_owned()));
    }
    if cs[0] != '/' {
        return Err(Error::Config(concat3("路由 '", route, "' 必须以 '/' 开头")));
    }
    let is_root = cs.len() == 1;
    proof {
        if is_root {
            assert(route@ =~= seq!['/']);
        }
    }
    if !is_root && cs[cs.len() - 1] == '/' {
        return Err(Error::Config(concat3("路由 '", route, "' 不能以 '/' 结尾（根路由 '/' 除外）")));
    }
    Ok(())
}

/// What is wrong with a health check path, if anything: it must start
/// with `/`.
pub open spec fn healthcheck_problem(path: Seq<char>) -> Option<Seq<char>> {
    if path.len() == 0 {
        Some("healthcheck_path 不能为空"@)
    } else if path[0] != '/' {
        Some("healthcheck_path '"@ + path + "' 必须以 '/' 开头"@)
    } else {
        None
    }
}

/// Checks the form of a health check path.
pub fn validate_healthcheck_path(path: &str) -> (r: Result<(), Error>)
    ensures
        r is Err <==> healthcheck_problem(path@) is Some,
        r matches Err(e) ==> e@ == (ErrorKind::Config, healthcheck_problem(path@)->0),
{
    let cs = chars_of(path);
    if cs.len() == 0 {
        return Err(Error::Config("healthcheck_path 不能为空".to_owned()));
    }
    if cs[0] != '/' {
        return Err(Error::Config(concat3("healthcheck_path '", path, "' 必须以 '/' 开头")));
    }
    Ok(())
}

/// The pieces of `s` between occurrences of `sep` (`str::split` on a
/// character): one more piece than there are separators.
pub open spec fn split_on(s: Seq<char>, sep: char) -> Seq<Seq<char>>
    decreases s.len(),
{
    if s.len() == 0 {
        seq![seq![]]
    } else {
        let parts = split_on(s.drop_last(), sep);
        if s.last() == sep {
            parts.push(seq![])
        } else {
            parts.update(parts.len() - 1, parts.last().push(s.last()))
        }
    }
}

/// `split_on` always gives at least one piece.
proof fn lemma_split_on_len(s: Seq<char>, sep: char)
    ensures
        split_on(s, sep).len() >= 1,
    decreases s.len(),
{
    if s.len() > 0 {
        lemma_split_on_len(s.drop_last(), sep);
    }
}

/// A character allowed in a platform component: an ASCII letter or
/// digit, `_`, `-` or `.`.
pub open spec fn platform_char(c: char) -> bool {
    ('a' <= c && c <= 'z') || ('A' <= c && c <= 'Z') || ('0' <= c && c <= '9') || c == '_' || c
        == '-' || c == '.'
}

/// A valid platform component: not empty, of allowed characters only.
pub open spec fn platform_part_ok(part: Seq<char>) -> bool {
    part.len() > 0 && forall|i: int| 0 <= i < part.len() ==> platform_char(#[trigger] part[i])
}

/// What is wrong with a build platform, if anything: it must read
/// `linux/<arch>` or `linux/<arch>/<variant>`.
pub open spec fn platform_problem(platform: Seq<char>) -> Option<Seq<char>> {
    let parts = split_on(platform, '/');
    if !(2 <= parts.len() <= 3) || parts[0] != "linux"@ {
        Some("build_platform '"@ + platform + "' 必须采用 linux/<arch> 或 linux/<arch>/<variant> 格式"@)
    } else if exists|i: int| 0 <= i < parts.len() && !platform_part_ok(#[trigger] parts[i]) {
        Some("build_platform '"@ + platform + "' 包含无效的平台组件"@)
    } else {
        None
    }
}

/// Executable `platform_char`.
fn is_platform_char(c: char) -> (r: bool)
    ensures
        r == platform_char(c),
{
    ('a' <= c && c <= 'z') || ('A' <= c && c <= 'Z') || ('0' <= c && c <= '9') || c == '_' || c
        == '-' || c == '.'
}

/// The pieces of a character vector between occurrences of `sep`.
fn split_chars(cs: &Vec<char>, sep: char) -> (r: Vec<Vec<char>>)
    ensures
        r@.map_values(|p: Vec<char>| p@) == split_on(cs@, sep),
{
    let mut parts: Vec<Vec<char>> = Vec::new();
    let mut current: Vec<char> = Vec::new();
    let mut i: usize = 0;
    while i < cs.len()
        invariant
            i <= cs.len(),
            parts@.map_values(|p: Vec<char>| p@).push(current@) == split_on(cs@.take(i as int), sep),
        decreases cs.len() - i,
    {
        let ghost before = parts@.map_values(|p: Vec<char>| p@).push(current@);
        assert(cs@.take(i + 1).drop_last() =~= cs@.take(i as int));
        assert(cs@.take(i + 1).last() == cs@[i as int]);
        if cs[i] == sep {
            let mut done: Vec<char> = Vec::new();
            std::mem::swap(&mut done, &mut current);
            parts.push(done);
            assert(parts@.map_values(|p: Vec<char>| p@).push(current@) =~= before.push(seq![]));
        } else {
            current.push(cs[i]);
            assert(parts@.map_values(|p: Vec<char>| p@).push(current@) =~= before.update(
                before.len() - 1,
                before.last().push(cs@[i as int]),
            ));
        }
        i = i + 1;
    }
    assert(cs@.take(i as int) =~= cs@);
    let ghost before = parts@.map_values(|p: Vec<char>| p@);
    parts.push(current);
    assert(parts@.map_values(|p: Vec<char>| p@) =~= before.push(current@));
    parts
}

/// Checks a build platform: `linux/<arch>` or `linux/<arch>/<variant>`,
/// each component of ASCII letters, digits, `_`, `-` or `.`.
pub fn validate_build_platform(platform: &str) -> (r: Result<(), Error>)
    ensures
        r is Err <==> platform_problem(platform@) is Some,
        r matches Err(e) ==> e@ == (ErrorKind::Config, platform_problem(platform@)->0),
{
    let cs = chars_of(platform);
    let parts = split_chars(&cs, '/');
    let ghost ps = parts@.map_values(|p: Vec<char>| p@);
    assert(ps == split_on(platform@, '/'));
    let n = parts.len();
    let linux = chars_of("linux");
    if n < 2 || n > 3 || !crate::text::vec_chars_eq(&parts[0], &linux) {
        return Err(Error::Config(concat3(
            "build_platform '",
            platform,
            "' 必须采用 linux/<arch> 或 linux/<arch>/<variant> 格式",
        )));
    }
    assert(ps[0] == "linux"@);
    let mut k: usize = 0;
    while k < n
        invariant
            n == parts.len(),
            2 <= n <= 3,
            ps == parts@.map_values(|p: Vec<char>| p@),
            ps == split_on(platform@, '/'),
            ps[0] == "linux"@,
            forall|j: int| 0 <= j < k ==> platform_part_ok(#[trigger] ps[j]),
        decreases n - k,
    {
        let part = &parts[k];
        assert(ps[k as int] == part@);
        let mut ok = part.len() > 0;
        let mut j: usize = 0;
        while j < part.len()
            invariant
                j <= part.len(),
                ok == (part@.len() > 0 && forall|m: int| 0 <= m < j ==> platform_char(#[trigger] part@[m])),
            decreases part.len() - j,
        {
            if !is_platform_char(part[j]) {
                ok = false;
            }
            j = j + 1;
        }
        if !ok {
            return Err(Error::Config(concat3("build_platform '", platform, "' 包含无效的平台组件")));
        }
        k = k + 1;
    }
    Ok(())
}

/// Whether `s` is one of the three package kinds.
pub open spec fn valid_package_type(s: Seq<char>) -> bool {
    s == "source"@ || s == "image"@ || s == "registry"@
}

/// Whether `s` is one of the three application kinds.
pub open spec fn valid_app_type(s: Seq<char>) -> bool {
    s == "static"@ || s == "api"@ || s == "internal"@
}

/// Whether an optional string is missing or empty.
pub open spec fn none_or_empty(o: Option<Seq<char>>) -> bool {
    match o {
        None => true,
        Some(s) => s.len() == 0,
    }
}

/// The problem of the first route that has one.
pub open spec fn first_route_problem(routes: Seq<Seq<char>>) -> Option<Seq<char>>
    decreases routes.len(),
{
    if routes.len() == 0 {
        None
    } else {
        match first_route_problem(routes.drop_last()) {
            Some(m) => Some(m),
            None => route_problem(routes.last()),
        }
    }
}

/// A problem found in a prefix of the routes is the first of all.
proof fn lemma_first_route_problem_extends(routes: Seq<Seq<char>>, j: int)
    requires
        0 <= j <= routes.len(),
        first_route_problem(routes.take(j)) is Some,
    ensures
        first_route_problem(routes) == first_route_problem(routes.take(j)),
    decreases routes.len(),
{
    if j < routes.len() {
        assert(routes.drop_last().take(j) =~= routes.take(j));
        lemma_first_route_problem_extends(routes.drop_last(), j);
    } else {
        assert(routes.take(j) =~= routes);
    }
}

/// What `MicroAppConfig::validate` finds wrong with the configuration of
/// the application `name`, checked in this order.
pub open spec fn micro_app_problem(c: MicroAppConfigView, name: Seq<char>) -> Option<Seq<char>> {
    let prefix = "微应用 '"@ + name;
    if c.container_name.len() == 0 {
        Some(prefix + "' 的 container_name 不能为空"@)
    } else if c.container_port == 0 {
        Some(prefix + "' 的 container_port 不能为 0"@)
    } else if healthcheck_problem(c.healthcheck_path) is Some {
        healthcheck_problem(c.healthcheck_path)
    } else if !valid_package_type(c.package_type) {
        Some(prefix + "' 的 package_type '"@ + c.package_type + "' 无效，必须是 source、image 或 registry"@)
    } else if c.package_type == "image"@ && none_or_empty(c.image_archive) {
        Some(prefix + "' 使用 image 包时必须配置 image_archive"@)
    } else if c.package_type == "image"@ && c.build_platform is Some {
        Some(prefix + "' 使用 image 包时不能配置 build_platform"@)
    } else if c.package_type == "registry"@ && none_or_empty(c.registry_image) {
        Some(prefix + "' 使用 registry 包时必须配置 image"@)
    } else if c.package_type != "registry"@ && c.registry_image is Some {
        Some(prefix + "' 仅 registry 包可以配置 image"@)
    } else if c.package_type == "registry"@ && c.build_platform is Some {
        Some(prefix + "' 使用 registry 包时不能配置 build_platform"@)
    } else if c.build_platform is Some && platform_problem(c.build_platform->0) is Some {
        platform_problem(c.build_platform->0)
    } else if !valid_app_type(c.app_type) {
        Some(prefix + "' 的 app_type '"@ + c.app_type + "' 无效，必须是 static、api 或 internal"@)
    } else if (c.app_type == "static"@ || c.app_type == "api"@) && c.routes.len() == 0 {
        Some(prefix + "' 是 "@ + c.app_type + " 类型，routes 不能为空"@)
    } else {
        first_route_problem(c.routes)
    }
}

/// Whether an optional string is missing or empty.
fn is_none_or_empty(o: &Option<String>) -> (r: bool)
    ensures
        r == none_or_empty(opt_view(*o)),
{
    match o {
        None => true,
        Some(s) => s.as_str().is_empty(),
    }
}

/// `a`, `b`, `c`, `d` and `e`, in this order.
fn join5(a: &str, b: &str, c: &str, d: &str, e: &str) -> (r: String)
    ensures
        r@ == a@ + b@ + c@ + d@ + e@,
{
    crate::text::concat5(a, b, c, d, e)
}

impl MicroAppConfig {
    /// A copy of the configuration.
    pub fn duplicate(&self) -> (r: MicroAppConfig)
        ensures
            r@ == self@,
    {
        MicroAppConfig {
            package_type: self.package_type.clone(),
            image_archive: clone_opt(&self.image_archive),
            registry_image: clone_opt(&self.registry_image),
            build_platform: clone_opt(&self.build_platform),
            routes: clone_strings(&self.routes),
            container_name: self.container_name.clone(),
            container_port: self.container_port,
            healthcheck_path: self.healthcheck_path.clone(),
            app_type: self.app_type.clone(),
            description: clone_opt(&self.description),
            nginx_extra_config: clone_opt(&self.nginx_extra_config),
            proxy_connect_timeout: self.proxy_connect_timeout,
            proxy_read_timeout: self.proxy_read_timeout,
            proxy_send_timeout: self.proxy_send_timeout,
        }
    }

    /// Checks the configuration of the application `app_name`.
    pub fn validate(&self, app_name: &str) -> (r: Result<(), Error>)
        ensures
            r is Err <==> micro_app_problem(self@, app_name@) is Some,
            r matches Err(e) ==> e@ == (ErrorKind::Config, micro_app_problem(self@, app_name@)->0),
    {
        if self.container_name.as_str().is_empty() {
            return Err(Error::Config(concat3("微应用 '", app_name, "' 的 container_name 不能为空")));
        }
        if self.container_port == 0 {
            return Err(Error::Config(concat3("微应用 '", app_name, "' 的 container_port 不能为 0")));
        }
        validate_healthcheck_path(self.healthcheck_path.as_str())?;
        let package = self.package_type.as_str();
        let is_source = str_eq(package, "source");
        let is_image = str_eq(package, "image");
        let is_registry = str_eq(package, "registry");
        if !(is_source || is_image || is_registry) {
            return Err(Error::Config(join5(
                "微应用 '",
                app_name,
                "' 的 package_type '",
                package,
                "' 无效，必须是 source、image 或 registry",
            )));
        }
        if is_image && is_none_or_empty(&self.image_archive) {
            return Err(Error::Config(concat3("微应用 '", app_name, "' 使用 image 包时必须配置 image_archive")));
        }
        if is_image && self.build_platform.is_some() {
            return Err(Error::Config(concat3("微应用 '", app_name, "' 使用 image 包时不能配置 build_platform")));
        }
        if is_registry && is_none_or_empty(&self.registry_image) {
            return Err(Error::Config(concat3("微应用 '", app_name, "' 使用 registry 包时必须配置 image")));
        }
        if !is_registry && self.registry_image.is_some() {
            return Err(Error::Config(concat3("微应用 '", app_name, "' 仅 registry 包可以配置 image")));
        }
        if is_registry && self.build_platform.is_some() {
            return Err(Error::Config(concat3("微应用 '", app_name, "' 使用 registry 包时不能配置 build_platform")));
        }
        if let Some(platform) = &self.build_platform {
            validate_build_platform(platform.as_str())?;
        }
        let kind = self.app_type.as_str();
        let is_static = str_eq(kind, "static");
        let is_api = str_eq(kind, "api");
        let is_internal = str_eq(kind, "internal");
        if !(is_static || is_api || is_internal) {
            return Err(Error::Config(join5(
                "微应用 '",
                app_name,
                "' 的 app_type '",
                kind,
                "' 无效，必须是 static、api 或 internal",
            )));
        }
        if (is_static || is_api) && self.routes.len() == 0 {
            return Err(Error::Config(join5("微应用 '", app_name, "' 是 ", kind, " 类型，routes 不能为空")));
        }
        let ghost rs = views(self.routes@);
        let mut i: usize = 0;
        while i < self.routes.len()
            invariant
                i <= self.routes.len(),
                rs == views(self.routes@),
                first_route_problem(rs.take(i as int)) is None,
                micro_app_problem(self@, app_name@) == first_route_problem(rs),
            decreases self.routes.len() - i,
        {
            assert(rs.take(i + 1).drop_last() =~= rs.take(i as int));
            assert(rs.take(i + 1).last() == self.routes@[i as int]@);
            let checked = validate_route_format(self.routes[i].as_str());
            if checked.is_err() {
                proof {
                    lemma_first_route_problem_extends(rs, i + 1);
                }
                return checked;
            }
            i = i + 1;
        }
        assert(rs.take(i as int) =~= rs);
        Ok(())
    }
}

} // verus!
