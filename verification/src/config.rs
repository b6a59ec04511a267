//! The main configuration: the proxy settings and the applications it runs.

use vstd::prelude::*;
use crate::error::{Error, ErrorKind};
use crate::text::{clone_opt, clone_strings, contains_string, opt_view, str_eq, views};

verus! {

/// The kind of an application.
#[derive(Clone, Copy, Debug, PartialEq, Eq, Structural)]
pub enum AppType {
    /// A static web site, served through nginx.
    Static,
    /// An API service, served through nginx.
    Api,
    /// An internal service (a database, a cache) that nginx does not proxy.
    Internal,
}

/// The configuration of one application.
#[derive(Debug)]
pub struct AppConfig {
    /// The application's unique name.
    pub name: String,
    /// The URL paths under which nginx serves the application.
    pub routes: Vec<String>,
    /// The Docker container name.
    pub container_name: String,
    /// The port the application listens on inside its container.
    pub container_port: u16,
    /// The HTTP path probed by the health check.
    pub healthcheck_path: String,
    /// The kind of application.
    pub app_type: AppType,
    /// A description.
    pub description: Option<String>,
    /// Extra nginx directives for the application's locations.
    pub nginx_extra_config: Option<String>,
    /// The folder that holds the application's Dockerfile.
    pub path: Option<String>,
    /// Volume mappings, each `host:container` or `host:container:mode`.
    pub docker_volumes: Vec<String>,
    /// The user the container runs as.
    pub run_as_user: Option<String>,
    /// Proxy connect timeout, in seconds.
    pub proxy_connect_timeout: Option<u64>,
    /// Proxy read timeout, in seconds.
    pub proxy_read_timeout: Option<u64>,
    /// Proxy send timeout, in seconds.
    pub proxy_send_timeout: Option<u64>,
}

/// The mathematical value of an `AppConfig`.
pub struct AppConfigView {
    pub name: Seq<char>,
    pub routes: Seq<Seq<char>>,
    pub container_name: Seq<char>,
    pub container_port: u16,
    pub healthcheck_path: Seq<char>,
    pub app_type: AppType,
    pub description: Option<Seq<char>>,
    pub nginx_extra_config: Option<Seq<char>>,
    pub path: Option<Seq<char>>,
    pub docker_volumes: Seq<Seq<char>>,
    pub run_as_user: Option<Seq<char>>,
    pub proxy_connect_timeout: Option<u64>,
    pub proxy_read_timeout: Option<u64>,
    pub proxy_send_timeout: Option<u64>,
}

impl View for AppConfig {
    type V = AppConfigView;

    open spec fn view(&self) -> AppConfigView {
        AppConfigView {
            name: self.name@,
            routes: views(self.routes@),
            container_name: self.container_name@,
            container_port: self.container_port,
            healthcheck_path: self.healthcheck_path@,
            app_type: self.app_type,
            description: opt_view(self.description),
            nginx_extra_config: opt_view(self.nginx_extra_config),
            path: opt_view(self.path),
            docker_volumes: views(self.docker_volumes@),
            run_as_user: opt_view(self.run_as_user),
            proxy_connect_timeout: self.proxy_connect_timeout,
            proxy_read_timeout: self.proxy_read_timeout,
            proxy_send_timeout: self.proxy_send_timeout,
        }
    }
}

/// The views of a sequence of application configurations.
pub open spec fn app_views(apps: Seq<AppConfig>) -> Seq<AppConfigView> {
    apps.map_values(|a: AppConfig| a@)
}

/// The views of a sequence of references to application configurations.
pub open spec fn app_ref_views(apps: Seq<&AppConfig>) -> Seq<AppConfigView> {
    apps.map_values(|a: &AppConfig| a@)
}

/// Whether some application in `apps` is named `name`.
pub open spec fn names_app(apps: Seq<AppConfigView>, name: Seq<char>) -> bool {
    exists|i: int| 0 <= i < apps.len() && (#[trigger] apps[i]).name == name
}

/// The position of the first application of `apps` named `name`.
pub open spec fn first_named(apps: Seq<AppConfigView>, name: Seq<char>) -> Option<int>
    decreases apps.len(),
{
    if apps.len() == 0 {
        None
    } else {
        match first_named(apps.drop_last(), name) {
            Some(i) => Some(i),
            None => if apps.last().name == name {
                Some(apps.len() - 1)
            } else {
                None
            },
        }
    }
}

/// A position found in a prefix is the first position in the whole.
proof fn lemma_first_named_extends(apps: Seq<AppConfigView>, name: Seq<char>, j: int)
    requires
        0 <= j <= apps.len(),
        first_named(apps.take(j), name) is Some,
    ensures
        first_named(apps, name) == first_named(apps.take(j), name),
    decreases apps.len(),
{
    if j < apps.len() {
        assert(apps.drop_last().take(j) =~= apps.take(j));
        lemma_first_named_extends(apps.drop_last(), name, j);
    } else {
        assert(apps.take(j) =~= apps);
    }
}


/// The position of the first application of `apps` named `name`.
pub fn find_app(apps: &[AppConfig], name: &str) -> (r: Option<usize>)
    ensures
        match r {
            Some(i) => first_named(app_views(apps@), name@) == Some(i as int) && i < apps@.len(),
            None => first_named(app_views(apps@), name@) is None,
        },
{
    let ghost av = app_views(apps@);
    let mut i: usize = 0;
    while i < apps.len()
        invariant
            i <= apps.len(),
            av == app_views(apps@),
            first_named(av.take(i as int), name@) is None,
        decreases apps.len() - i,
    {
        assert(av.take(i + 1).drop_last() =~= av.take(i as int));
        assert(av.take(i + 1).last() == apps@[i as int]@);
        if str_eq(apps[i].name.as_str(), name) {
            proof {
                lemma_first_named_extends(av, name@, i + 1);
            }
            return Some(i);
        }
        i = i + 1;
    }
    assert(av.take(i as int) =~= av);
    None
}

/// Whether the path of an Internal application exists, and whether it
/// holds a `Dockerfile`.
#[derive(Clone, Copy, Debug)]
pub struct PathStatus {
    /// The path exists.
    pub exists: bool,
    /// `<path>/Dockerfile` exists.
    pub dockerfile_exists: bool,
}

/// The main configuration.
#[derive(Debug)]
pub struct ProxyConfig {
    /// The folders scanned for Static and Api applications.
    pub scan_dirs: Vec<String>,
    /// Where the nginx configuration is written.
    pub nginx_config_path: String,
    /// Where the Docker Compose configuration is written.
    pub compose_config_path: String,
    /// The state file.
    pub state_file_path: String,
    /// Where the list of network addresses is written.
    pub network_list_path: String,
    /// The Docker network's name.
    pub network_name: String,
    /// The host port nginx listens on.
    pub nginx_host_port: u16,
    /// The web root that holds ACME challenge files.
    pub web_root: String,
    /// The host folder that holds the SSL certificates.
    pub cert_dir: String,
    /// The domain served over HTTPS, when its certificate exists.
    pub domain: Option<String>,
    /// The configured applications.
    pub apps: Vec<AppConfig>,
}

/// The default web root.
pub fn default_web_root() -> (r: String)
    ensures
        r@ == "/var/www/html"@,
{
    "/var/www/html".to_owned()
}

/// The default certificate folder.
pub fn default_cert_dir() -> (r: String)
    ensures
        r@ == "/etc/nginx/certs"@,
{
    "/etc/nginx/certs".to_owned()
}

/// The name of the first application of `apps` whose name an earlier one
/// already has.
pub open spec fn first_duplicate_name(apps: Seq<AppConfigView>) -> Option<Seq<char>>
    decreases apps.len(),
{
    if apps.len() == 0 {
        None
    } else {
        match first_duplicate_name(apps.drop_last()) {
            Some(n) => Some(n),
            None => if names_app(apps.drop_last(), apps.last().name) {
                Some(apps.last().name)
            } else {
                None
            },
        }
    }
}

/// The path `path` joined with the relative name `name`, as
/// `Path::join` forms it: a `/` between them unless `path` is empty or
/// already ends with one.
pub open spec fn path_join(path: Seq<char>, name: Seq<char>) -> Seq<char> {
    if path.len() == 0 || path.last() == '/' {
        path + name
    } else {
        path + seq!['/'] + name
    }
}

/// The text that `{:?}` prints for a string: quoted, with escapes.
pub uninterp spec fn debug_text(s: Seq<char>) -> Seq<char>;

/// `format!("{:?}", s)`: the string quoted, with std's escapes.
#[verifier::external_body]
pub(crate) fn debug_quoted(s: &str) -> (r: String)
    ensures
        r@ == debug_text(s@),
{
    format!("{:?}", s)
}

/// The text that `{:?}` prints for a path.
pub uninterp spec fn path_debug_text(p: Seq<char>) -> Seq<char>;

/// `format!("{:?}", Path::new(p))`: the path quoted, with std's escapes.
#[verifier::external_body]
pub(crate) fn debug_path(p: &str) -> (r: String)
    ensures
        r@ == path_debug_text(p@),
{
    format!("{:?}", std::path::Path::new(p))
}

/// `path_join` of two strings.
pub fn join_path(path: &str, name: &str) -> (r: String)
    ensures
        r@ == path_join(path@, name@),
{
    let mut r = path.to_owned();
    let cs = crate::text::chars_of(path);
    if cs.len() > 0 && cs[cs.len() - 1] != '/' {
        crate::text::push_char(&mut r, '/');
    }
    r.append(name);
    r
}

/// What is wrong with the configuration of `app`, if anything.
pub open spec fn app_problem(app: AppConfigView, discovered: Seq<Seq<char>>, status: PathStatus) -> Option<
    Seq<char>,
> {
    match app.app_type {
        AppType::Static | AppType::Api => if !discovered.contains(app.name) {
            Some("应用 '"@ + app.name + "' 未在扫描目录中找到"@)
        } else if app.routes.len() == 0 {
            Some("应用 '"@ + app.name + "' 的 routes 不能为空"@)
        } else {
            None
        },
        AppType::Internal => match app.path {
            None => Some("Internal 应用 '"@ + app.name + "' 必须配置 path 字段"@),
            Some(path) => if !status.exists {
                Some("Internal 应用 '"@ + app.name + "' 的路径不存在: "@ + debug_text(path))
            } else if !status.dockerfile_exists {
                Some("Internal 应用 '"@ + app.name + "' 的路径中未找到 Dockerfile: "@ + path_debug_text(
                    path_join(path, "Dockerfile"@),
                ))
            } else {
                None
            },
        },
    }
}

/// The problem of the first application that has one.
pub open spec fn first_app_problem(
    apps: Seq<AppConfigView>,
    discovered: Seq<Seq<char>>,
    statuses: Seq<PathStatus>,
) -> Option<Seq<char>>
    decreases apps.len(),
{
    if apps.len() == 0 {
        None
    } else {
        let n = apps.len() - 1;
        match first_app_problem(apps.drop_last(), discovered, statuses.take(n)) {
            Some(m) => Some(m),
            None => app_problem(apps.last(), discovered, statuses[n]),
        }
    }
}

/// The message for a repeated application name.
pub open spec fn duplicate_name_message(name: Seq<char>) -> Seq<char> {
    "发现重复的应用名称 '"@ + name + "', 请确保所有应用（Static、Api、Internal）的名称唯一"@
}

/// What `ProxyConfig::validate` finds wrong with a configuration.
pub open spec fn config_problem(
    scan_dirs: Seq<Seq<char>>,
    apps: Seq<AppConfigView>,
    discovered: Seq<Seq<char>>,
    statuses: Seq<PathStatus>,
) -> Option<Seq<char>> {
    if scan_dirs.len() == 0 {
        Some("scan_dirs 不能为空"@)
    } else {
        match first_duplicate_name(apps) {
            Some(n) => Some(duplicate_name_message(n)),
            None => first_app_problem(apps, discovered, statuses),
        }
    }
}

/// Selects the Internal applications when `internal` holds, the others
/// when not.
pub open spec fn kind_is_internal(internal: bool) -> spec_fn(AppConfigView) -> bool {
    |a: AppConfigView| (a.app_type == AppType::Internal) == internal
}

/// Whether nginx proxies the application: Static and Api applications
/// always, Internal ones when they have routes.
pub open spec fn is_proxied(a: AppConfigView) -> bool {
    a.app_type != AppType::Internal || a.routes.len() > 0
}

/// Applications of `apps` that nginx proxies, in order.
pub open spec fn proxied(apps: Seq<AppConfigView>) -> Seq<AppConfigView> {
    apps.filter(|a: AppConfigView| is_proxied(a))
}

/// The Internal applications of `apps`.
pub open spec fn internal(apps: Seq<AppConfigView>) -> Seq<AppConfigView> {
    apps.filter(kind_is_internal(true))
}

/// Whether nginx proxies the application (see `is_proxied`).
pub fn app_is_proxied(app: &AppConfig) -> (r: bool)
    ensures
        r == is_proxied(app@),
{
    match app.app_type {
        AppType::Internal => app.routes.len() > 0,
        _ => true,
    }
}

impl ProxyConfig {
    /// Checks the configuration: at least one scan folder, unique
    /// application names, every Static and Api application discovered and
    /// routed, every Internal application with an existing path that holds
    /// a Dockerfile. `discovered_apps` are the names the scan found;
    /// `path_statuses[i]` tells of the path of `apps[i]`.
    pub fn validate(&self, discovered_apps: &[String], path_statuses: &[PathStatus]) -> (r: Result<
        (),
        Error,
    >)
        requires
            path_statuses@.len() == self.apps@.len(),
        ensures
            r is Err <==> config_problem(
                views(self.scan_dirs@),
                app_views(self.apps@),
                views(discovered_apps@),
                path_statuses@,
            ) is Some,
            r matches Err(e) ==> e@ == (
                ErrorKind::Config,
                config_problem(
                    views(self.scan_dirs@),
                    app_views(self.apps@),
                    views(discovered_apps@),
                    path_statuses@,
                )->0,
            ),
    {
        if self.scan_dirs.len() == 0 {
            return Err(Error::Config("scan_dirs 不能为空".to_owned()));
        }
        assert(views(self.scan_dirs@).len() != 0);
        let ghost av = app_views(self.apps@);
        let mut i: usize = 0;
        while i < self.apps.len()
            invariant
                i <= self.apps.len(),
                av == app_views(self.apps@),
                views(self.scan_dirs@).len() != 0,
                first_duplicate_name(av.take(i as int)) is None,
            decreases self.apps.len() - i,
        {
            let t = i + 1;
            assert(av.take(t as int).drop_last() =~= av.take(i as int));
            assert(av.take(t as int).last() == self.apps@[i as int]@);
            if named_before(self.apps.as_slice(), i, self.apps[i].name.as_str()) {
                proof {
                    assert(first_duplicate_name(av.take(t as int)) == Some(self.apps@[i as int]@.name));
                    lemma_first_duplicate_extends(av, t as int);
                }
                let mut msg = "发现重复的应用名称 '".to_owned();
                msg.append(self.apps[i].name.as_str());
                msg.append("', 请确保所有应用（Static、Api、Internal）的名称唯一");
                assert(msg@ == duplicate_name_message(self.apps@[i as int]@.name));
                return Err(Error::Config(msg));
            }
            i = i + 1;
        }
        assert(av.take(i as int) =~= av);
        let mut i: usize = 0;
        while i < self.apps.len()
            invariant
                i <= self.apps.len(),
                path_statuses@.len() == self.apps@.len(),
                av == app_views(self.apps@),
                views(self.scan_dirs@).len() != 0,
                first_duplicate_name(av) is None,
                first_app_problem(av.take(i as int), views(discovered_apps@), path_statuses@.take(i as int)) is None,
            decreases self.apps.len() - i,
        {
            let app = &self.apps[i];
            let t = i + 1;
            assert(av.take(t as int).drop_last() =~= av.take(i as int));
            assert(path_statuses@.take(t as int).take(i as int) =~= path_statuses@.take(i as int));
            assert(av.take(t as int).last() == app@);
            let problem = self.app_problem(app, discovered_apps, path_statuses[i]);
            if let Some(m) = problem {
                proof {
                    assert(first_app_problem(av.take(t as int), views(discovered_apps@), path_statuses@.take(t as int)) == Some(m@));
                    lemma_first_problem_extends(av, views(discovered_apps@), path_statuses@, t as int);
                }
                return Err(Error::Config(m));
            }
            i = i + 1;
        }
        assert(av.take(i as int) =~= av);
        assert(path_statuses@.take(i as int) =~= path_statuses@);
        Ok(())
    }

    /// The problem of one application, as `app_problem` states it.
    fn app_problem(&self, app: &AppConfig, discovered_apps: &[String], status: PathStatus) -> (r: Option<String>)
        ensures
            opt_view(r) == app_problem(app@, views(discovered_apps@), status),
    {
        match app.app_type {
            AppType::Static | AppType::Api => {
                if !contains_slice(discovered_apps, app.name.as_str()) {
                    return Some(crate::text::concat3("应用 '", app.name.as_str(), "' 未在扫描目录中找到"));
                }
                if app.routes.len() == 0 {
                    return Some(crate::text::concat3("应用 '", app.name.as_str(), "' 的 routes 不能为空"));
                }
                None
            },
            AppType::Internal => {
                match &app.path {
                    None => Some(crate::text::concat3("Internal 应用 '", app.name.as_str(), "' 必须配置 path 字段")),
                    Some(path) => {
                        if !status.exists {
                            let d = debug_quoted(path.as_str());
                            let mut m = crate::text::concat3("Internal 应用 '", app.name.as_str(), "' 的路径不存在: ");
                            m.append(d.as_str());
                            return Some(m);
                        }
                        if !status.dockerfile_exists {
                            let joined = join_path(path.as_str(), "Dockerfile");
                            let d = debug_path(joined.as_str());
                            let mut m = crate::text::concat3("Internal 应用 '", app.name.as_str(), "' 的路径中未找到 Dockerfile: ");
                            m.append(d.as_str());
                            return Some(m);
                        }
                        None
                    },
                }
            },
        }
    }

    /// The first application named `name`.
    pub fn get_app_config(&self, name: &str) -> (r: Option<&AppConfig>)
        ensures
            match first_named(app_views(self.apps@), name@) {
                Some(i) => r matches Some(a) && a@ == app_views(self.apps@)[i],
                None => r is None,
            },
    {
        match find_app(self.apps.as_slice(), name) {
            Some(i) => Some(&self.apps[i]),
            None => None,
        }
    }

    /// The applications nginx proxies (see `is_proxied`), in order.
    pub fn get_nginx_apps(&self) -> (r: Vec<&AppConfig>)
        ensures
            app_ref_views(r@) == proxied(app_views(self.apps@)),
    {
        let ghost av = app_views(self.apps@);
        let mut r: Vec<&AppConfig> = Vec::new();
        let mut i: usize = 0;
        while i < self.apps.len()
            invariant
                i <= self.apps.len(),
                av == app_views(self.apps@),
                app_ref_views(r@) == proxied(av.take(i as int)),
            decreases self.apps.len() - i,
        {
            let app = &self.apps[i];
            proof {
                reveal(Seq::filter);
                assert(av.take(i + 1).drop_last() =~= av.take(i as int));
                assert(av.take(i + 1).last() == app@);
            }
            if app_is_proxied(app) {
                let ghost old_r = r@;
                r.push(app);
                assert(app_ref_views(r@) =~= app_ref_views(old_r).push(app@));
            }
            i = i + 1;
        }
        assert(av.take(i as int) =~= av);
        r
    }

    /// The Internal applications, in order.
    pub fn get_internal_apps(&self) -> (r: Vec<&AppConfig>)
        ensures
            app_ref_views(r@) == internal(app_views(self.apps@)),
    {
        let want_internal = true;
        let ghost av = app_views(self.apps@);
        let ghost pred = kind_is_internal(want_internal);
        let mut r: Vec<&AppConfig> = Vec::new();
        let mut i: usize = 0;
        while i < self.apps.len()
            invariant
                i <= self.apps.len(),
                av == app_views(self.apps@),
                pred == kind_is_internal(want_internal),
                app_ref_views(r@) == av.take(i as int).filter(pred),
            decreases self.apps.len() - i,
        {
            let app = &self.apps[i];
            let is_internal = match app.app_type {
                AppType::Internal => true,
                _ => false,
            };
            proof {
                reveal(Seq::filter);
                assert(av.take(i + 1).drop_last() =~= av.take(i as int));
                assert(av.take(i + 1).last() == app@);
            }
            if is_internal == want_internal {
                let ghost old_r = r@;
                r.push(app);
                assert(app_ref_views(r@) =~= app_ref_views(old_r).push(app@));
            }
            i = i + 1;
        }
        assert(av.take(i as int) =~= av);
        r
    }
}

/// Whether one of the first `end` applications is named `name`.
fn named_before(apps: &[AppConfig], end: usize, name: &str) -> (r: bool)
    requires
        end <= apps@.len(),
    ensures
        r == names_app(app_views(apps@).take(end as int), name@),
{
    let ghost p = app_views(apps@).take(end as int);
    let mut j: usize = 0;
    while j < end
        invariant
            j <= end <= apps@.len(),
            p == app_views(apps@).take(end as int),
            forall|k: int| 0 <= k < j ==> (#[trigger] p[k]).name != name@,
        decreases end - j,
    {
        assert(p[j as int] == apps@[j as int]@);
        if str_eq(apps[j].name.as_str(), name) {
            return true;
        }
        j = j + 1;
    }
    false
}

/// Whether `v` holds a string equal to `s`.
pub(crate) fn contains_slice(v: &[String], s: &str) -> (r: bool)
    ensures
        r == views(v@).contains(s@),
{
    let mut i: usize = 0;
    while i < v.len()
        invariant
            i <= v.len(),
            forall|k: int| 0 <= k < i ==> v@[k]@ != s@,
        decreases v.len() - i,
    {
        if str_eq(v[i].as_str(), s) {
            assert(views(v@)[i as int] == s@);
            return true;
        }
        i = i + 1;
    }
    proof {
        if views(v@).contains(s@) {
            let k = choose|k: int| 0 <= k < views(v@).len() && views(v@)[k] == s@;
            assert(v@[k]@ == s@);
        }
    }
    false
}

/// A position found by `first_named` names the application.
pub(crate) proof fn lemma_first_named_is_named(apps: Seq<AppConfigView>, name: Seq<char>)
    ensures
        first_named(apps, name) is Some <==> names_app(apps, name),
        first_named(apps, name) matches Some(i) ==> 0 <= i < apps.len() && apps[i].name == name,
    decreases apps.len(),
{
    if apps.len() > 0 {
        let d = apps.drop_last();
        lemma_first_named_is_named(d, name);
        if names_app(apps, name) {
            let j = choose|j: int| 0 <= j < apps.len() && (#[trigger] apps[j]).name == name;
            if j < apps.len() - 1 {
                assert(d[j] == apps[j]);
            }
        }
        if names_app(d, name) {
            let j = choose|j: int| 0 <= j < d.len() && (#[trigger] d[j]).name == name;
            assert(apps[j] == d[j]);
        }
    }
}

/// A repeat found in a prefix is the first repeat of the whole.
proof fn lemma_first_duplicate_extends(apps: Seq<AppConfigView>, j: int)
    requires
        0 <= j <= apps.len(),
        first_duplicate_name(apps.take(j)) is Some,
    ensures
        first_duplicate_name(apps) == first_duplicate_name(apps.take(j)),
    decreases apps.len(),
{
    if j < apps.len() {
        assert(apps.drop_last().take(j) =~= apps.take(j));
        lemma_first_duplicate_extends(apps.drop_last(), j);
    } else {
        assert(apps.take(j) =~= apps);
    }
}

/// A problem found in a prefix is the first problem of the whole.
proof fn lemma_first_problem_extends(
    apps: Seq<AppConfigView>,
    discovered: Seq<Seq<char>>,
    statuses: Seq<PathStatus>,
    j: int,
)
    requires
        0 <= j <= apps.len(),
        statuses.len() == apps.len(),
        first_app_problem(apps.take(j), discovered, statuses.take(j)) is Some,
    ensures
        first_app_problem(apps, discovered, statuses) == first_app_problem(apps.take(j), discovered, statuses.take(j)),
    decreases apps.len(),
{
    let n = apps.len() - 1;
    if j < apps.len() {
        assert(apps.drop_last().take(j) =~= apps.take(j));
        assert(statuses.take(n).take(j) =~= statuses.take(j));
        lemma_first_problem_extends(apps.drop_last(), discovered, statuses.take(n), j);
    } else {
        assert(apps.take(j) =~= apps);
        assert(statuses.take(j) =~= statuses);
    }
}

impl AppConfig {
    /// A copy of the configuration.
    pub fn duplicate(&self) -> (r: AppConfig)
        ensures
            r@ == self@,
    {
        AppConfig {
            name: self.name.clone(),
            routes: clone_strings(&self.routes),
            container_name: self.container_name.clone(),
            container_port: self.container_port,
            healthcheck_path: self.healthcheck_path.clone(),
            app_type: self.app_type,
            description: clone_opt(&self.description),
            nginx_extra_config: clone_opt(&self.nginx_extra_config),
            path: clone_opt(&self.path),
            docker_volumes: clone_strings(&self.docker_volumes),
            run_as_user: clone_opt(&self.run_as_user),
            proxy_connect_timeout: self.proxy_connect_timeout,
            proxy_read_timeout: self.proxy_read_timeout,
            proxy_send_timeout: self.proxy_send_timeout,
        }
    }
}

impl Clone for AppConfig {
    fn clone(&self) -> (r: Self)
        ensures
            r@ == self@,
    {
        self.duplicate()
    }
}

/// With no repeated name found, the names of `apps` are pairwise distinct.
proof fn lemma_no_duplicate_distinct(apps: Seq<AppConfigView>)
    requires
        first_duplicate_name(apps) is None,
    ensures
        forall|i: int, j: int| 0 <= i < j < apps.len() ==> (#[trigger] apps[i]).name != (#[trigger] apps[j]).name,
    decreases apps.len(),
{
    if apps.len() > 0 {
        let init = apps.drop_last();
        lemma_no_duplicate_distinct(init);
        assert forall|i: int, j: int| 0 <= i < j < apps.len() implies (#[trigger] apps[i]).name != (#[trigger] apps[j]).name by {
            if j == apps.len() - 1 {
                assert(init[i] == apps[i]);
                if apps[i].name == apps[j].name {
                    assert(names_app(init, apps.last().name));
                }
            } else {
                assert(init[i] == apps[i] && init[j] == apps[j]);
            }
        }
    }
}

/// With no problem found, no application has one.
proof fn lemma_no_problem_each(apps: Seq<AppConfigView>, discovered: Seq<Seq<char>>, statuses: Seq<PathStatus>)
    requires
        statuses.len() == apps.len(),
        first_app_problem(apps, discovered, statuses) is None,
    ensures
        forall|i: int| 0 <= i < apps.len() ==> app_problem(#[trigger] apps[i], discovered, statuses[i]) is None,
    decreases apps.len(),
{
    if apps.len() > 0 {
        let n = apps.len() - 1;
        let init = apps.drop_last();
        let st = statuses.take(n);
        lemma_no_problem_each(init, discovered, st);
        assert forall|i: int| 0 <= i < apps.len() implies app_problem(#[trigger] apps[i], discovered, statuses[i]) is None by {
            if i < n {
                assert(init[i] == apps[i] && st[i] == statuses[i]);
            }
        }
    }
}

/// A configuration that validates has a scan folder, pairwise distinct
/// application names, and no application with a problem: every Static
/// and Api application was discovered and has a route, every Internal one
/// has an existing path that holds a Dockerfile.
pub proof fn law_valid_config(
    scan_dirs: Seq<Seq<char>>,
    apps: Seq<AppConfigView>,
    discovered: Seq<Seq<char>>,
    statuses: Seq<PathStatus>,
)
    requires
        statuses.len() == apps.len(),
        config_problem(scan_dirs, apps, discovered, statuses) is None,
    ensures
        scan_dirs.len() > 0,
        forall|i: int, j: int| 0 <= i < j < apps.len() ==> (#[trigger] apps[i]).name != (#[trigger] apps[j]).name,
        forall|i: int| 0 <= i < apps.len() ==> {
            let a = #[trigger] apps[i];
            &&& (a.app_type == AppType::Static || a.app_type == AppType::Api) ==> discovered.contains(a.name) && a.routes.len() > 0
            &&& a.app_type == AppType::Internal ==> a.path is Some && statuses[i].exists && statuses[i].dockerfile_exists
        },
{
    lemma_no_duplicate_distinct(apps);
    lemma_no_problem_each(apps, discovered, statuses);
    assert forall|i: int| 0 <= i < apps.len() implies {
        let a = #[trigger] apps[i];
        &&& (a.app_type == AppType::Static || a.app_type == AppType::Api) ==> discovered.contains(a.name) && a.routes.len() > 0
        &&& a.app_type == AppType::Internal ==> a.path is Some && statuses[i].exists && statuses[i].dockerfile_exists
    } by {
        assert(app_problem(apps[i], discovered, statuses[i]) is None);
    }
}

} // verus!
