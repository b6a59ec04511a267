//! Discovery of applications: the folders that hold a `micro-app.yml`,
//! their unique names, and which of them are accepted.

use vstd::prelude::*;
use crate::config::{app_views, debug_path, join_path, path_debug_text, path_join, AppConfig, AppConfigView, AppType};
use crate::error::{Error, ErrorKind};
use crate::micro_app_config::{micro_app_problem, MicroAppConfig, MicroAppConfigView};
use crate::text::{clone_opt, clone_strings, concat3, opt_view, str_eq, views};
use crate::volumes_config::{compose_volume, volumes_problem, VolumesConfig, VolumesConfigView};

verus! {

/// An application found in a scanned folder.
#[derive(Debug)]
pub struct MicroApp {
    /// The unique name, derived from the folder's path below the scanned
    /// folder.
    pub name: String,
    /// The application's folder.
    pub path: String,
    /// The contents of `micro-app.yml`.
    pub config: MicroAppConfig,
    /// The contents of `micro-app.volumes.yml` (empty when absent).
    pub volumes_config: VolumesConfig,
    /// The Dockerfile's path.
    pub dockerfile: String,
    /// The `.env` file's path.
    pub env_file: String,
    /// `setup.sh`, when it exists.
    pub setup_script: Option<String>,
    /// `clean.sh`, when it exists.
    pub clean_script: Option<String>,
}

/// The mathematical value of a `MicroApp`.
pub struct MicroAppView {
    pub name: Seq<char>,
    pub path: Seq<char>,
    pub config: MicroAppConfigView,
    pub volumes_config: VolumesConfigView,
    pub dockerfile: Seq<char>,
    pub env_file: Seq<char>,
    pub setup_script: Option<Seq<char>>,
    pub clean_script: Option<Seq<char>>,
}

impl View for MicroApp {
    type V = MicroAppView;

    open spec fn view(&self) -> MicroAppView {
        MicroAppView {
            name: self.name@,
            path: self.path@,
            config: self.config@,
            volumes_config: self.volumes_config@,
            dockerfile: self.dockerfile@,
            env_file: self.env_file@,
            setup_script: opt_view(self.setup_script),
            clean_script: opt_view(self.clean_script),
        }
    }
}

/// The views of a sequence of applications.
pub open spec fn micro_app_views(apps: Seq<MicroApp>) -> Seq<MicroAppView> {
    apps.map_values(|a: MicroApp| a@)
}

/// The application found in folder `path` under the name `name`, with
/// its configurations; the scripts are kept when they exist.
pub open spec fn micro_app_at(
    name: Seq<char>,
    path: Seq<char>,
    config: MicroAppConfigView,
    volumes_config: VolumesConfigView,
    setup_exists: bool,
    clean_exists: bool,
) -> MicroAppView {
    MicroAppView {
        name,
        path,
        config,
        volumes_config,
        dockerfile: path_join(path, "Dockerfile"@),
        env_file: path_join(path, ".env"@),
        setup_script: if setup_exists {
            Some(path_join(path, "setup.sh"@))
        } else {
            None
        },
        clean_script: if clean_exists {
            Some(path_join(path, "clean.sh"@))
        } else {
            None
        },
    }
}

/// The error of a failed check of a volume configuration.
pub open spec fn volumes_error(name: Seq<char>, v: VolumesConfigView) -> Option<(ErrorKind, Seq<char>)> {
    match volumes_problem(name, v.volumes, v.run_as_user) {
        Some(m) => Some((ErrorKind::Config, m)),
        None => None,
    }
}

/// The kind of an application named in `micro-app.yml` (anything else
/// counts as static).
pub open spec fn app_type_of(s: Seq<char>) -> AppType {
    if s == "api"@ {
        AppType::Api
    } else if s == "internal"@ {
        AppType::Internal
    } else {
        AppType::Static
    }
}

/// The application configuration an application stands for.
pub open spec fn app_config_of(a: MicroAppView) -> AppConfigView {
    AppConfigView {
        name: a.name,
        routes: a.config.routes,
        container_name: a.config.container_name,
        container_port: a.config.container_port,
        healthcheck_path: a.config.healthcheck_path,
        app_type: app_type_of(a.config.app_type),
        description: a.config.description,
        nginx_extra_config: a.config.nginx_extra_config,
        path: Some(a.path),
        docker_volumes: a.volumes_config.volumes.map_values(|v| compose_volume(v)),
        run_as_user: a.volumes_config.run_as_user,
        proxy_connect_timeout: a.config.proxy_connect_timeout,
        proxy_read_timeout: a.config.proxy_read_timeout,
        proxy_send_timeout: a.config.proxy_send_timeout,
    }
}

impl MicroApp {
    /// A copy of the application.
    pub fn duplicate(&self) -> (r: MicroApp)
        ensures
            r@ == self@,
    {
        MicroApp {
            name: self.name.clone(),
            path: self.path.clone(),
            config: self.config.duplicate(),
            volumes_config: self.volumes_config.duplicate(),
            dockerfile: self.dockerfile.clone(),
            env_file: self.env_file.clone(),
            setup_script: clone_opt(&self.setup_script),
            clean_script: clone_opt(&self.clean_script),
        }
    }

    /// The application in folder `path` named `name`, from the contents of
    /// its `micro-app.yml` (`config`) and the outcome of reading its
    /// `micro-app.volumes.yml` (`volumes`). The configuration is checked
    /// first, then the volumes are read and checked.
    pub fn from_directory(
        name: String,
        path: String,
        config: MicroAppConfig,
        volumes: Result<VolumesConfig, Error>,
        setup_exists: bool,
        clean_exists: bool,
    ) -> (r: Result<MicroApp, Error>)
        ensures
            match micro_app_problem(config@, name@) {
                Some(m) => r matches Err(e) && e@ == (ErrorKind::Config, m),
                None => match volumes {
                    Err(ve) => r matches Err(e) && e@ == ve@,
                    Ok(v) => match volumes_error(name@, v@) {
                        Some(ee) => r matches Err(e) && e@ == ee,
                        None => r matches Ok(a) && a@ == micro_app_at(
                            name@,
                            path@,
                            config@,
                            v@,
                            setup_exists,
                            clean_exists,
                        ),
                    },
                },
            },
    {
        if let Err(e) = config.validate(name.as_str()) {
            return Err(e);
        }
        let volumes_config = match volumes {
            Ok(v) => v,
            Err(e) => {
                return Err(e);
            },
        };
        if let Err(e) = volumes_config.validate(name.as_str()) {
            return Err(e);
        }
        Ok(Self::assemble(name, path, config, volumes_config, setup_exists, clean_exists))
    }

    /// The application in folder `path`, with its paths formed.
    fn assemble(
        name: String,
        path: String,
        config: MicroAppConfig,
        volumes_config: VolumesConfig,
        setup_exists: bool,
        clean_exists: bool,
    ) -> (r: MicroApp)
        ensures
            r@ == micro_app_at(name@, path@, config@, volumes_config@, setup_exists, clean_exists),
    {
        let dockerfile = join_path(path.as_str(), "Dockerfile");
        let env_file = join_path(path.as_str(), ".env");
        let setup_script = if setup_exists {
            Some(join_path(path.as_str(), "setup.sh"))
        } else {
            None
        };
        let clean_script = if clean_exists {
            Some(join_path(path.as_str(), "clean.sh"))
        } else {
            None
        };
        MicroApp { name, path, config, volumes_config, dockerfile, env_file, setup_script, clean_script }
    }

    /// Checks the application: its Dockerfile must exist
    /// (`dockerfile_exists`) and its volume configuration must be valid.
    pub fn validate(&self, dockerfile_exists: bool) -> (r: Result<(), Error>)
        ensures
            !dockerfile_exists ==> (r matches Err(e) && e@ == (
                ErrorKind::Discovery,
                "微应用 '"@ + self@.name + "' 缺少 Dockerfile"@,
            )),
            dockerfile_exists ==> match volumes_error(self@.name, self@.volumes_config) {
                Some(ee) => r matches Err(e) && e@ == ee,
                None => r is Ok,
            },
    {
        if !dockerfile_exists {
            return Err(Error::Discovery(concat3("微应用 '", self.name.as_str(), "' 缺少 Dockerfile")));
        }
        self.volumes_config.validate(self.name.as_str())
    }

    /// The application configuration the application stands for.
    pub fn to_app_config(&self) -> (r: AppConfig)
        ensures
            r@ == app_config_of(self@),
    {
        let kind = self.config.app_type.as_str();
        let app_type = if str_eq(kind, "static") {
            AppType::Static
        } else if str_eq(kind, "api") {
            AppType::Api
        } else if str_eq(kind, "internal") {
            AppType::Internal
        } else {
            AppType::Static
        };
        proof {
            reveal_strlit("static");
            reveal_strlit("api");
            reveal_strlit("internal");
            assert("static"@.len() != "api"@.len());
            assert("static"@.len() != "internal"@.len());
        }
        AppConfig {
            name: self.name.clone(),
            routes: clone_strings(&self.config.routes),
            container_name: self.config.container_name.clone(),
            container_port: self.config.container_port,
            healthcheck_path: self.config.healthcheck_path.clone(),
            app_type,
            description: clone_opt(&self.config.description),
            nginx_extra_config: clone_opt(&self.config.nginx_extra_config),
            path: Some(self.path.clone()),
            docker_volumes: self.volumes_config.to_docker_compose_volumes(),
            run_as_user: clone_opt(&self.volumes_config.run_as_user),
            proxy_connect_timeout: self.config.proxy_connect_timeout,
            proxy_read_timeout: self.config.proxy_read_timeout,
            proxy_send_timeout: self.config.proxy_send_timeout,
        }
    }
}

/// The components of a path, as `Path::iter` yields them: `/` for the
/// root, `.` for a leading current folder, `..` for a parent, and the
/// names in between.
pub uninterp spec fn path_parts(p: Seq<char>) -> Seq<Seq<char>>;

/// The components of a path (`Path::iter`).
#[verifier::external_body]
fn path_components(p: &str) -> (r: Vec<String>)
    ensures
        views(r@) == path_parts(p@),
{
    let mut r = Vec::new();
    for c in std::path::Path::new(p).iter() {
        r.push(c.to_string_lossy().into_owned());
    }
    r
}

/// The last component of a path when it is a name (`Path::file_name`):
/// none for a root, a current or a parent folder.
pub open spec fn last_name(parts: Seq<Seq<char>>) -> Option<Seq<char>> {
    if parts.len() == 0 || parts.last() == "/"@ || parts.last() == "."@ || parts.last() == ".."@ {
        None
    } else {
        Some(parts.last())
    }
}

/// The parts joined by `_`.
pub open spec fn join_underscore(parts: Seq<Seq<char>>) -> Seq<char>
    decreases parts.len(),
{
    if parts.len() == 0 {
        seq![]
    } else if parts.len() == 1 {
        parts[0]
    } else {
        join_underscore(parts.drop_last()) + "_"@ + parts.last()
    }
}

/// The unique name of the application folder `app_dir` found under
/// `scan_dir`: the folder's name, preceded by the folders between
/// `scan_dir` and it, joined by `_`. Fails when the folder has no name or
/// does not lie under `scan_dir`.
pub open spec fn unique_app_name(scan_dir: Seq<char>, app_dir: Seq<char>) -> Result<Seq<char>, Seq<char>> {
    let ap = path_parts(app_dir);
    let sp = path_parts(scan_dir);
    match last_name(ap) {
        None => Err("无法获取应用目录名称："@ + path_debug_text(app_dir)),
        Some(name) => if sp.len() > ap.len() || ap.take(sp.len() as int) != sp {
            Err("无法计算相对路径：scan_dir="@ + path_debug_text(scan_dir) + ", app_dir="@ + path_debug_text(
                app_dir,
            ) + ", 错误：prefix not found"@)
        } else {
            let rel = ap.skip(sp.len() as int);
            let dirs = if rel.len() > 0 && rel.last() == name {
                rel.drop_last()
            } else {
                rel
            };
            if dirs.len() == 0 {
                Ok(name)
            } else {
                Ok(join_underscore(dirs) + "_"@ + name)
            }
        },
    }
}

/// Whether two lists of strings are equal.
fn strings_eq(a: &Vec<String>, b: &Vec<String>, n: usize) -> (r: bool)
    requires
        n <= a@.len(),
        n <= b@.len(),
    ensures
        r == (views(a@).take(n as int) == views(b@).take(n as int)),
{
    let mut i: usize = 0;
    while i < n
        invariant
            i <= n <= a@.len(),
            n <= b@.len(),
            forall|k: int| 0 <= k < i ==> a@[k]@ == b@[k]@,
        decreases n - i,
    {
        if !str_eq(a[i].as_str(), b[i].as_str()) {
            assert(views(a@).take(n as int)[i as int] != views(b@).take(n as int)[i as int]);
            return false;
        }
        i = i + 1;
    }
    assert(views(a@).take(n as int) =~= views(b@).take(n as int));
    true
}

/// The unique name of the application folder `app_dir` found under
/// `scan_dir` (see `unique_app_name`).
pub fn generate_unique_app_name(scan_dir: &str, app_dir: &str) -> (r: Result<String, Error>)
    ensures
        match unique_app_name(scan_dir@, app_dir@) {
            Ok(n) => r matches Ok(s) && s@ == n,
            Err(m) => r matches Err(e) && e@ == (ErrorKind::Discovery, m),
        },
{
    let ap = path_components(app_dir);
    let sp = path_components(scan_dir);
    let ghost apv = views(ap@);
    let ghost spv = views(sp@);
    let n = ap.len();
    let is_name = n > 0 && !str_eq(ap[n - 1].as_str(), "/") && !str_eq(ap[n - 1].as_str(), ".") && !str_eq(
        ap[n - 1].as_str(),
        "..",
    );
    if !is_name {
        let mut m = "无法获取应用目录名称：".to_owned();
        m.append(debug_path(app_dir).as_str());
        return Err(Error::Discovery(m));
    }
    assert(apv.last() == ap@[n - 1]@);
    let name = ap[n - 1].clone();
    if sp.len() > n || !strings_eq(&ap, &sp, sp.len()) {
        proof {
            assert(spv.take(sp@.len() as int) =~= spv);
        }
        let mut m = "无法计算相对路径：scan_dir=".to_owned();
        m.append(debug_path(scan_dir).as_str());
        m.append(", app_dir=");
        m.append(debug_path(app_dir).as_str());
        m.append(", 错误：prefix not found");
        return Err(Error::Discovery(m));
    }
    proof {
        assert(spv.take(sp@.len() as int) =~= spv);
    }
    let start = sp.len();
    let mut end = n;
    if end > start && str_eq(ap[end - 1].as_str(), name.as_str()) {
        end = end - 1;
    }
    let ghost rel = apv.skip(start as int);
    let ghost dirs = apv.subrange(start as int, end as int);
    proof {
        if end < n {
            assert(dirs =~= rel.drop_last());
        } else {
            assert(dirs =~= rel);
            assert(rel.len() > 0 ==> rel.last() == apv[n - 1]);
        }
    }
    if end == start {
        return Ok(name);
    }
    let mut joined = ap[start].clone();
    let mut k = start + 1;
    assert(apv.subrange(start as int, k as int) =~= seq![apv[start as int]]);
    while k < end
        invariant
            start < k <= end <= n,
            n == ap@.len(),
            apv == views(ap@),
            joined@ == join_underscore(apv.subrange(start as int, k as int)),
        decreases end - k,
    {
        assert(apv.subrange(start as int, k + 1).drop_last() =~= apv.subrange(start as int, k as int));
        joined.append("_");
        joined.append(ap[k].as_str());
        k = k + 1;
    }
    joined.append("_");
    joined.append(name.as_str());
    Ok(joined)
}

/// What the scan found in one folder: the unique name (none when it could
/// not be formed), the outcome of loading the application
/// (`MicroApp::from_directory`; none when it failed) and whether its
/// Dockerfile exists.
#[derive(Debug)]
pub struct DiscoveredDir {
    /// The unique name, when it could be formed.
    pub name: Option<String>,
    /// The loaded application, when loading succeeded.
    pub app: Option<MicroApp>,
    /// Whether the application's Dockerfile exists.
    pub dockerfile_exists: bool,
}

/// The mathematical value of a `DiscoveredDir`.
pub struct DiscoveredDirView {
    pub name: Option<Seq<char>>,
    pub app: Option<MicroAppView>,
    pub dockerfile_exists: bool,
}

impl View for DiscoveredDir {
    type V = DiscoveredDirView;

    open spec fn view(&self) -> DiscoveredDirView {
        DiscoveredDirView {
            name: opt_view(self.name),
            app: match self.app {
                Some(a) => Some(a@),
                None => None,
            },
            dockerfile_exists: self.dockerfile_exists,
        }
    }
}

/// Whether an accepted application is named `name`.
pub open spec fn name_taken(apps: Seq<MicroAppView>, name: Seq<char>) -> bool {
    exists|i: int| 0 <= i < apps.len() && (#[trigger] apps[i]).name == name
}

/// Whether an accepted application runs in container `container`.
pub open spec fn container_taken(apps: Seq<MicroAppView>, container: Seq<char>) -> bool {
    exists|i: int| 0 <= i < apps.len() && (#[trigger] apps[i]).config.container_name == container
}

/// The turn of a loaded application named `name` whose name is free:
/// skipped when its checks fail, an error when its container name is
/// taken, accepted otherwise.
pub open spec fn accept_loaded(
    apps: Seq<MicroAppView>,
    name: Seq<char>,
    a: MicroAppView,
    dockerfile_exists: bool,
) -> Result<Seq<MicroAppView>, Seq<char>> {
    if !dockerfile_exists || (volumes_error(a.name, a.volumes_config) is Some) {
        Ok(apps)
    } else if container_taken(apps, a.config.container_name) {
        Err("发现重复的容器名称：'"@ + a.config.container_name + "', 微应用：'"@ + name + "'"@)
    } else {
        Ok(apps.push(a))
    }
}

/// The turn of a folder named `name`: an error when an accepted
/// application has the name, skipped when loading failed.
pub open spec fn accept_named(apps: Seq<MicroAppView>, name: Seq<char>, d: DiscoveredDirView) -> Result<
    Seq<MicroAppView>,
    Seq<char>,
> {
    if name_taken(apps, name) {
        Err("发现重复的微应用名称：'"@ + name + "', 请确保所有扫描目录中的微应用名称唯一"@)
    } else {
        match d.app {
            None => Ok(apps),
            Some(a) => accept_loaded(apps, name, a, d.dockerfile_exists),
        }
    }
}

/// One folder's turn: folders without a name, that failed to load or
/// whose checks fail are skipped; a name or a container name that an
/// accepted application already has is an error; otherwise the
/// application is accepted.
pub open spec fn discovery_step(
    acc: Result<Seq<MicroAppView>, Seq<char>>,
    d: DiscoveredDirView,
) -> Result<Seq<MicroAppView>, Seq<char>> {
    match acc {
        Err(m) => Err(m),
        Ok(apps) => match d.name {
            None => Ok(apps),
            Some(name) => accept_named(apps, name, d),
        },
    }
}

/// The outcome of the scan after the folders `found`, starting from the
/// applications accepted before.
pub open spec fn discovery(accepted: Seq<MicroAppView>, found: Seq<DiscoveredDirView>) -> Result<
    Seq<MicroAppView>,
    Seq<char>,
>
    decreases found.len(),
{
    if found.len() == 0 {
        Ok(accepted)
    } else {
        discovery_step(discovery(accepted, found.drop_last()), found.last())
    }
}

/// The views of a sequence of scan findings.
pub open spec fn found_views(found: Seq<DiscoveredDir>) -> Seq<DiscoveredDirView> {
    found.map_values(|d: DiscoveredDir| d@)
}

/// Whether one of the applications is named `name`.
fn has_name(apps: &Vec<MicroApp>, name: &str) -> (r: bool)
    ensures
        r == name_taken(micro_app_views(apps@), name@),
{
    let ghost av = micro_app_views(apps@);
    let mut i: usize = 0;
    while i < apps.len()
        invariant
            i <= apps.len(),
            av == micro_app_views(apps@),
            forall|k: int| 0 <= k < i ==> (#[trigger] av[k]).name != name@,
        decreases apps.len() - i,
    {
        assert(av[i as int] == apps@[i as int]@);
        if str_eq(apps[i].name.as_str(), name) {
            return true;
        }
        i = i + 1;
    }
    false
}

/// Whether one of the applications runs in container `container`.
fn has_container(apps: &Vec<MicroApp>, container: &str) -> (r: bool)
    ensures
        r == container_taken(micro_app_views(apps@), container@),
{
    let ghost av = micro_app_views(apps@);
    let mut i: usize = 0;
    while i < apps.len()
        invariant
            i <= apps.len(),
            av == micro_app_views(apps@),
            forall|k: int| 0 <= k < i ==> (#[trigger] av[k]).config.container_name != container@,
        decreases apps.len() - i,
    {
        assert(av[i as int] == apps@[i as int]@);
        if str_eq(apps[i].config.container_name.as_str(), container) {
            return true;
        }
        i = i + 1;
    }
    false
}

/// Decides, folder by folder, which found applications are accepted
/// (see `discovery_step`), after those accepted before.
pub fn select_micro_apps(accepted: Vec<MicroApp>, found: Vec<DiscoveredDir>) -> (r: Result<Vec<MicroApp>, Error>)
    ensures
        match discovery(micro_app_views(accepted@), found_views(found@)) {
            Ok(apps) => r matches Ok(v) && micro_app_views(v@) == apps,
            Err(m) => r matches Err(e) && e@ == (ErrorKind::Discovery, m),
        },
{
    let ghost fv = found_views(found@);
    let ghost start = micro_app_views(accepted@);
    let mut apps = accepted;
    let mut i: usize = 0;
    let n = found.len();
    while i < n
        invariant
            i <= n,
            start == micro_app_views(accepted@),
            n == found@.len(),
            fv == found_views(found@),
            discovery(start, fv.take(i as int)) == Ok::<Seq<MicroAppView>, Seq<char>>(micro_app_views(apps@)),
        decreases n - i,
    {
        assert(fv.take(i + 1).drop_last() =~= fv.take(i as int));
        assert(fv.take(i + 1).last() == found@[i as int]@);
        let d = &found[i];
        match &d.name {
            None => {},
            Some(name) => {
                if has_name(&apps, name.as_str()) {
                    let m = concat3("发现重复的微应用名称：'", name.as_str(), "', 请确保所有扫描目录中的微应用名称唯一");
                    proof {
                        assert(fv[i as int].name == Some(name@));
                        assert(discovery(start, fv.take(i + 1)) == discovery_step(
                            Ok::<Seq<MicroAppView>, Seq<char>>(micro_app_views(apps@)),
                            fv[i as int],
                        ));
                        assert(discovery(start, fv.take(i + 1)) == Err::<Seq<MicroAppView>, Seq<char>>(m@));
                        lemma_discovery_error_stays(start, fv, i + 1);
                    }
                    return Err(Error::Discovery(m));
                }
                match &d.app {
                    None => {},
                    Some(a) => {
                        let valid = d.dockerfile_exists && a.volumes_config.validate(a.name.as_str()).is_ok();
                        if valid {
                            if has_container(&apps, a.config.container_name.as_str()) {
                                let mut m = "发现重复的容器名称：'".to_owned();
                                m.append(a.config.container_name.as_str());
                                m.append("', 微应用：'");
                                m.append(name.as_str());
                                m.append("'");
                                proof {
                                    assert(fv[i as int].name == Some(name@));
                                    assert(discovery(start, fv.take(i + 1)) == Err::<Seq<MicroAppView>, Seq<char>>(m@));
                                    lemma_discovery_error_stays(start, fv, i + 1);
                                }
                                return Err(Error::Discovery(m));
                            }
                            let ghost before = apps@;
                            apps.push(a.duplicate());
                            assert(micro_app_views(apps@) =~= micro_app_views(before).push(a@));
                        }
                    },
                }
            },
        }
        i = i + 1;
    }
    assert(fv.take(i as int) =~= fv);
    Ok(apps)
}

/// Once the scan fails, later folders change nothing.
proof fn lemma_discovery_error_stays(start: Seq<MicroAppView>, found: Seq<DiscoveredDirView>, j: int)
    requires
        0 <= j <= found.len(),
        discovery(start, found.take(j)) is Err,
    ensures
        discovery(start, found) == discovery(start, found.take(j)),
    decreases found.len(),
{
    if j < found.len() {
        assert(found.drop_last().take(j) =~= found.take(j));
        lemma_discovery_error_stays(start, found.drop_last(), j);
    } else {
        assert(found.take(j) =~= found);
    }
}

/// The names of the applications, in order.
pub fn get_micro_app_names(micro_apps: &[MicroApp]) -> (r: Vec<String>)
    ensures
        views(r@) == micro_app_views(micro_apps@).map_values(|a: MicroAppView| a.name),
{
    let ghost target = micro_app_views(micro_apps@).map_values(|a: MicroAppView| a.name);
    let mut r: Vec<String> = Vec::new();
    let mut i: usize = 0;
    while i < micro_apps.len()
        invariant
            i <= micro_apps.len(),
            target == micro_app_views(micro_apps@).map_values(|a: MicroAppView| a.name),
            views(r@) == target.take(i as int),
        decreases micro_apps.len() - i,
    {
        let ghost before = r@;
        r.push(micro_apps[i].name.clone());
        assert(views(r@) =~= views(before).push(target[i as int]));
        assert(target.take(i + 1) =~= target.take(i as int).push(target[i as int]));
        i = i + 1;
    }
    assert(target.take(i as int) =~= target);
    r
}

/// The application configuration of each application, in order.
pub fn to_app_configs(micro_apps: &[MicroApp]) -> (r: Vec<AppConfig>)
    ensures
        app_views(r@) == micro_app_views(micro_apps@).map_values(|a: MicroAppView| app_config_of(a)),
{
    let ghost target = micro_app_views(micro_apps@).map_values(|a: MicroAppView| app_config_of(a));
    let mut r: Vec<AppConfig> = Vec::new();
    let mut i: usize = 0;
    while i < micro_apps.len()
        invariant
            i <= micro_apps.len(),
            target == micro_app_views(micro_apps@).map_values(|a: MicroAppView| app_config_of(a)),
            app_views(r@) == target.take(i as int),
        decreases micro_apps.len() - i,
    {
        let ghost before = r@;
        r.push(micro_apps[i].to_app_config());
        assert(app_views(r@) =~= app_views(before).push(target[i as int]));
        assert(target.take(i + 1) =~= target.take(i as int).push(target[i as int]));
        i = i + 1;
    }
    assert(target.take(i as int) =~= target);
    r
}

} // verus!

verus! {

/// Where the sources of a configured application are: a discovered
/// application, or the folder of an Internal one.
#[derive(Debug)]
pub enum MicroAppSource {
    /// The discovered application of that name.
    Discovered(MicroApp),
    /// The configured folder of an Internal application.
    InternalPath(String),
}

/// The first discovered application named `name`.
pub open spec fn first_micro_app(apps: Seq<MicroAppView>, name: Seq<char>) -> Option<int>
    decreases apps.len(),
{
    if apps.len() == 0 {
        None
    } else {
        match first_micro_app(apps.drop_last(), name) {
            Some(i) => Some(i),
            None => if apps.last().name == name {
                Some(apps.len() - 1)
            } else {
                None
            },
        }
    }
}

/// A position found in a prefix is the first one of the whole.
proof fn lemma_first_micro_app_extends(apps: Seq<MicroAppView>, name: Seq<char>, j: int)
    requires
        0 <= j <= apps.len(),
        first_micro_app(apps.take(j), name) is Some,
    ensures
        first_micro_app(apps, name) == first_micro_app(apps.take(j), name),
    decreases apps.len(),
{
    if j < apps.len() {
        assert(apps.drop_last().take(j) =~= apps.take(j));
        lemma_first_micro_app_extends(apps.drop_last(), name, j);
    } else {
        assert(apps.take(j) =~= apps);
    }
}

/// Where the sources of the configured application `app_config` are:
/// Static and Api applications are looked up among the discovered ones,
/// Internal ones must configure their folder.
pub fn get_micro_app_info(app_config: &AppConfig, micro_apps: &[MicroApp]) -> (r: Result<MicroAppSource, Error>)
    ensures
        match app_config.app_type {
            AppType::Internal => match app_config@.path {
                None => r matches Err(e) && e@ == (
                    ErrorKind::Config,
                    "Internal 应用 '"@ + app_config@.name + "' 必须配置 path 字段"@,
                ),
                Some(p) => r matches Ok(MicroAppSource::InternalPath(q)) && q@ == p,
            },
            _ => match first_micro_app(micro_app_views(micro_apps@), app_config@.name) {
                None => r matches Err(e) && e@ == (ErrorKind::Config, "未找到微应用: "@ + app_config@.name),
                Some(i) => r matches Ok(MicroAppSource::Discovered(a)) && a@ == micro_app_views(micro_apps@)[i],
            },
        },
{
    match app_config.app_type {
        AppType::Internal => match &app_config.path {
            None => Err(Error::Config(concat3("Internal 应用 '", app_config.name.as_str(), "' 必须配置 path 字段"))),
            Some(p) => Ok(MicroAppSource::InternalPath(p.clone())),
        },
        _ => {
            let ghost av = micro_app_views(micro_apps@);
            let mut i: usize = 0;
            while i < micro_apps.len()
                invariant
                    i <= micro_apps.len(),
                    av == micro_app_views(micro_apps@),
                    app_config.app_type != AppType::Internal,
                    first_micro_app(av.take(i as int), app_config@.name) is None,
                decreases micro_apps.len() - i,
            {
                assert(av.take(i + 1).drop_last() =~= av.take(i as int));
                assert(av.take(i + 1).last() == micro_apps@[i as int]@);
                if str_eq(micro_apps[i].name.as_str(), app_config.name.as_str()) {
                    proof {
                        lemma_first_micro_app_extends(av, app_config@.name, i + 1);
                    }
                    return Ok(MicroAppSource::Discovered(micro_apps[i].duplicate()));
                }
                i = i + 1;
            }
            assert(av.take(i as int) =~= av);
            let mut m = "未找到微应用: ".to_owned();
            m.append(app_config.name.as_str());
            Err(Error::Config(m))
        },
    }
}

/// The application of an Internal configuration named `name`, kept in
/// folder `path`, from its loaded configurations; only the volumes are
/// checked.
pub fn internal_micro_app(
    name: String,
    path: String,
    config: MicroAppConfig,
    volumes_config: VolumesConfig,
    setup_exists: bool,
    clean_exists: bool,
) -> (r: Result<MicroApp, Error>)
    ensures
        match volumes_error(name@, volumes_config@) {
            Some(ee) => r matches Err(e) && e@ == ee,
            None => r matches Ok(a) && a@ == micro_app_at(
                name@,
                path@,
                config@,
                volumes_config@,
                setup_exists,
                clean_exists,
            ),
        },
{
    if let Err(e) = volumes_config.validate(name.as_str()) {
        return Err(e);
    }
    Ok(MicroApp::assemble(name, path, config, volumes_config, setup_exists, clean_exists))
}

/// No two applications share a name, nor a container name.
pub open spec fn distinct_apps(apps: Seq<MicroAppView>) -> bool {
    forall|i: int, j: int|
        0 <= i < j < apps.len() ==> (#[trigger] apps[i]).name != (#[trigger] apps[j]).name
            && apps[i].config.container_name != apps[j].config.container_name
}

/// The scan never accepts two applications with the same name or the same
/// container name: when it succeeds, the accepted applications are
/// distinct, provided those accepted before were.
pub proof fn law_discovery_keeps_apps_distinct(accepted: Seq<MicroAppView>, found: Seq<DiscoveredDirView>)
    requires
        distinct_apps(accepted),
        forall|k: int|
            0 <= k < found.len() && (#[trigger] found[k]).app is Some ==> found[k].name == Some(
                found[k].app->0.name,
            ),
    ensures
        discovery(accepted, found) matches Ok(apps) ==> distinct_apps(apps),
    decreases found.len(),
{
    if found.len() > 0 {
        assert forall|k: int|
            0 <= k < found.drop_last().len() && (#[trigger] found.drop_last()[k]).app is Some implies found.drop_last()[k].name
                == Some(found.drop_last()[k].app->0.name) by {
            assert(found.drop_last()[k] == found[k]);
        }
        law_discovery_keeps_apps_distinct(accepted, found.drop_last());
        let before = discovery(accepted, found.drop_last());
        if let Ok(apps) = before {
            let d = found.last();
            if let Some(name) = d.name {
                if !name_taken(apps, name) {
                    if let Some(a) = d.app {
                        assert(found[found.len() - 1].app is Some);
                        if d.dockerfile_exists && !(volumes_error(a.name, a.volumes_config) is Some)
                            && !container_taken(apps, a.config.container_name) {
                            let after = apps.push(a);
                            assert forall|i: int, j: int| 0 <= i < j < after.len() implies (#[trigger] after[i]).name
                                != (#[trigger] after[j]).name && after[i].config.container_name
                                != after[j].config.container_name by {
                                if j == apps.len() {
                                    assert(after[i] == apps[i]);
                                    if after[i].name == a.name {
                                        assert(name_taken(apps, name));
                                    }
                                    if after[i].config.container_name == a.config.container_name {
                                        assert(container_taken(apps, a.config.container_name));
                                    }
                                } else {
                                    assert(after[i] == apps[i] && after[j] == apps[j]);
                                }
                            }
                        }
                    }
                }
            }
        }
    }
}

} // verus!

verus! {

/// The application configuration of a discovered application keeps what
/// its `micro-app.yml` says: its kind is Api exactly when the `app_type`
/// text is `api`, Internal exactly when it is `internal`, and Static when
/// it is `static`; its name, routes, container, port, health check path
/// and extra nginx directives are those of the application, and its path
/// is the application's folder.
pub proof fn law_app_config_keeps_micro_app(a: MicroAppView)
    ensures
        (app_config_of(a).app_type == AppType::Api) <==> (a.config.app_type == "api"@),
        (app_config_of(a).app_type == AppType::Internal) <==> (a.config.app_type == "internal"@),
        a.config.app_type == "static"@ ==> app_config_of(a).app_type == AppType::Static,
        app_config_of(a).name == a.name,
        app_config_of(a).routes == a.config.routes,
        app_config_of(a).container_name == a.config.container_name,
        app_config_of(a).container_port == a.config.container_port,
        app_config_of(a).healthcheck_path == a.config.healthcheck_path,
        app_config_of(a).nginx_extra_config == a.config.nginx_extra_config,
        app_config_of(a).path == Some(a.path),
        app_config_of(a).run_as_user == a.volumes_config.run_as_user,
        app_config_of(a).docker_volumes.len() == a.volumes_config.volumes.len(),
{
    reveal_strlit("api");
    reveal_strlit("internal");
    reveal_strlit("static");
    assert("api"@ != "internal"@) by {
        assert("api"@.len() != "internal"@.len());
    }
    assert("static"@ != "internal"@) by {
        assert("static"@.len() != "internal"@.len());
    }
    assert("static"@ != "api"@) by {
        assert("static"@.len() != "api"@.len());
    }
}

} // verus!
