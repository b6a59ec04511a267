//! The Docker Compose document: an nginx service in front of a service
//! per application, all on one external network.

use vstd::prelude::*;
use crate::config::{app_is_proxied, app_views, proxied, AppConfig, AppConfigView, AppType};
use crate::named_map::NamedMap;
use crate::text::{clone_strings, decimal, push_decimal, str_eq, views};

verus! {

/// The health check of a service.
#[derive(Debug)]
pub struct Healthcheck {
    /// The check command.
    pub test: String,
    /// Time between checks.
    pub interval: String,
    /// Time a check may take.
    pub timeout: String,
    /// Failures before the service counts as unhealthy.
    pub retries: u32,
}

/// The mathematical value of a `Healthcheck`.
pub struct HealthcheckView {
    pub test: Seq<char>,
    pub interval: Seq<char>,
    pub timeout: Seq<char>,
    pub retries: u32,
}

impl View for Healthcheck {
    type V = HealthcheckView;

    open spec fn view(&self) -> HealthcheckView {
        HealthcheckView {
            test: self.test@,
            interval: self.interval@,
            timeout: self.timeout@,
            retries: self.retries,
        }
    }
}

/// One service of the document. Its settings are written in the order of
/// the fields; empty lists and missing values are left out.
#[derive(Debug)]
pub struct ComposeService {
    /// The service's key under `services`.
    pub key: String,
    /// The image.
    pub image: String,
    /// The container name.
    pub container_name: String,
    /// Port mappings.
    pub ports: Vec<String>,
    /// Mounts.
    pub volumes: Vec<String>,
    /// The user the container runs as.
    pub user: Option<String>,
    /// The networks the service joins.
    pub networks: Vec<String>,
    /// The services started before this one.
    pub depends_on: Vec<String>,
    /// The restart policy.
    pub restart: String,
    /// The environment file.
    pub env_file: Option<String>,
    /// The health check.
    pub healthcheck: Option<Healthcheck>,
}

/// The mathematical value of a `ComposeService`.
pub struct ComposeServiceView {
    pub key: Seq<char>,
    pub image: Seq<char>,
    pub container_name: Seq<char>,
    pub ports: Seq<Seq<char>>,
    pub volumes: Seq<Seq<char>>,
    pub user: Option<Seq<char>>,
    pub networks: Seq<Seq<char>>,
    pub depends_on: Seq<Seq<char>>,
    pub restart: Seq<char>,
    pub env_file: Option<Seq<char>>,
    pub healthcheck: Option<HealthcheckView>,
}

impl View for ComposeService {
    type V = ComposeServiceView;

    open spec fn view(&self) -> ComposeServiceView {
        ComposeServiceView {
            key: self.key@,
            image: self.image@,
            container_name: self.container_name@,
            ports: views(self.ports@),
            volumes: views(self.volumes@),
            user: crate::text::opt_view(self.user),
            networks: views(self.networks@),
            depends_on: views(self.depends_on@),
            restart: self.restart@,
            env_file: crate::text::opt_view(self.env_file),
            healthcheck: match self.healthcheck {
                Some(h) => Some(h@),
                None => None,
            },
        }
    }
}

/// The document: the services, in order, and the external network they
/// share (declared under `networks` with its name and `external: true`).
#[derive(Debug)]
pub struct ComposeConfig {
    /// The services, in order; no two have the same key.
    pub services: Vec<ComposeService>,
    /// The network's name.
    pub network_name: String,
}

/// The views of a sequence of services.
pub open spec fn service_views(s: Seq<ComposeService>) -> Seq<ComposeServiceView> {
    s.map_values(|x: ComposeService| x@)
}

/// The nginx service: it publishes `nginx_host_port`, mounts the nginx
/// configuration, and starts after the applications it proxies.
pub open spec fn nginx_service(
    nginx_host_port: u16,
    network_name: Seq<char>,
    apps: Seq<AppConfigView>,
) -> ComposeServiceView {
    ComposeServiceView {
        key: "nginx"@,
        image: "nginx:alpine"@,
        container_name: "proxy-nginx"@,
        ports: seq![decimal(nginx_host_port as nat) + ":80"@],
        volumes: seq!["./nginx.conf:/etc/nginx/nginx.conf:ro"@],
        user: None,
        networks: seq![network_name],
        depends_on: proxied(apps).map_values(|a: AppConfigView| a.container_name),
        restart: "unless-stopped"@,
        env_file: None,
        healthcheck: None,
    }
}

/// The health check of Static and Api applications: an HTTP request to
/// their port.
pub open spec fn http_healthcheck(port: u16) -> HealthcheckView {
    HealthcheckView {
        test: "CMD-SHELL, wget --quiet --tries=1 --spider http://localhost:"@ + decimal(port as nat)
            + " || exit 1"@,
        interval: "30s"@,
        timeout: "10s"@,
        retries: 3,
    }
}

/// The image an application runs: the one `images` gives for its name,
/// else its `latest` image.
pub open spec fn image_for(images: Map<Seq<char>, Seq<char>>, name: Seq<char>) -> Seq<char> {
    if images.contains_key(name) {
        images[name]
    } else {
        name + ":latest"@
    }
}

/// The service of an application: `image` in its container, with its
/// volume mounts, the user it runs as (if configured), its environment
/// file if any, and an HTTP health check unless it is Internal.
pub open spec fn app_service(
    app: AppConfigView,
    network_name: Seq<char>,
    env_file: Option<Seq<char>>,
    image: Seq<char>,
) -> ComposeServiceView {
    ComposeServiceView {
        key: app.container_name,
        image,
        container_name: app.container_name,
        ports: seq![],
        volumes: app.docker_volumes,
        user: app.run_as_user,
        networks: seq![network_name],
        depends_on: seq![],
        restart: "unless-stopped"@,
        env_file,
        healthcheck: if app.app_type == AppType::Internal {
            None
        } else {
            Some(http_healthcheck(app.container_port))
        },
    }
}

/// The position of the service with key `key`.
pub open spec fn key_position(services: Seq<ComposeServiceView>, key: Seq<char>) -> Option<int>
    decreases services.len(),
{
    if services.len() == 0 {
        None
    } else {
        match key_position(services.drop_last(), key) {
            Some(i) => Some(i),
            None => if services.last().key == key {
                Some(services.len() - 1)
            } else {
                None
            },
        }
    }
}

/// `s` put under its key: in place of the service with that key, else at
/// the end.
pub open spec fn put_service(services: Seq<ComposeServiceView>, s: ComposeServiceView) -> Seq<ComposeServiceView> {
    match key_position(services, s.key) {
        Some(i) => services.update(i, s),
        None => services.push(s),
    }
}

/// The environment file of an application, if one is known.
pub open spec fn env_file_of(env_files: Map<Seq<char>, Seq<char>>, name: Seq<char>) -> Option<Seq<char>> {
    if env_files.contains_key(name) {
        Some(env_files[name])
    } else {
        None
    }
}

/// The services after the applications `apps` were put in turn after
/// `start`.
pub open spec fn put_app_services(
    start: Seq<ComposeServiceView>,
    apps: Seq<AppConfigView>,
    network_name: Seq<char>,
    env_files: Map<Seq<char>, Seq<char>>,
    images: Map<Seq<char>, Seq<char>>,
) -> Seq<ComposeServiceView>
    decreases apps.len(),
{
    if apps.len() == 0 {
        start
    } else {
        put_service(
            put_app_services(start, apps.drop_last(), network_name, env_files, images),
            app_service(
                apps.last(),
                network_name,
                env_file_of(env_files, apps.last().name),
                image_for(images, apps.last().name),
            ),
        )
    }
}

/// The services of the document: nginx first, then each application's
/// service under its container name, running the image `images` gives
/// for it (else its `latest` image).
pub open spec fn compose_services(
    apps: Seq<AppConfigView>,
    network_name: Seq<char>,
    nginx_host_port: u16,
    env_files: Map<Seq<char>, Seq<char>>,
    images: Map<Seq<char>, Seq<char>>,
) -> Seq<ComposeServiceView> {
    put_app_services(
        seq![nginx_service(nginx_host_port, network_name, apps)],
        apps,
        network_name,
        env_files,
        images,
    )
}

/// A list holding one string.
fn single(s: String) -> (r: Vec<String>)
    ensures
        views(r@) == seq![s@],
{
    let mut r: Vec<String> = Vec::new();
    r.push(s);
    assert(views(r@) =~= seq![s@]);
    r
}

/// An empty list of strings.
fn no_strings() -> (r: Vec<String>)
    ensures
        views(r@) == Seq::<Seq<char>>::empty(),
{
    let r: Vec<String> = Vec::new();
    assert(views(r@) =~= Seq::<Seq<char>>::empty());
    r
}

/// The nginx service (see `nginx_service`).
pub fn generate_nginx_service(nginx_host_port: u16, network_name: &str, apps: &[AppConfig]) -> (r: ComposeService)
    ensures
        r@ == nginx_service(nginx_host_port, network_name@, app_views(apps@)),
{
    let ghost av = app_views(apps@);
    let ghost target = proxied(av).map_values(|a: AppConfigView| a.container_name);
    let mut depends_on: Vec<String> = Vec::new();
    let mut i: usize = 0;
    while i < apps.len()
        invariant
            i <= apps.len(),
            av == app_views(apps@),
            views(depends_on@) == proxied(av.take(i as int)).map_values(|a: AppConfigView| a.container_name),
        decreases apps.len() - i,
    {
        let app = &apps[i];
        proof {
            reveal(Seq::filter);
            assert(av.take(i + 1).drop_last() =~= av.take(i as int));
            assert(av.take(i + 1).last() == app@);
        }
        let ghost before = depends_on@;
        if app_is_proxied(app) {
            depends_on.push(app.container_name.clone());
            assert(views(depends_on@) =~= views(before).push(app@.container_name));
            assert(proxied(av.take(i + 1)) == proxied(av.take(i as int)).push(app@));
            assert(proxied(av.take(i + 1)).map_values(|a: AppConfigView| a.container_name) =~= proxied(
                av.take(i as int),
            ).map_values(|a: AppConfigView| a.container_name).push(app@.container_name));
        }
        i = i + 1;
    }
    assert(av.take(i as int) =~= av);
    let mut port = String::new();
    push_decimal(&mut port, nginx_host_port as u64);
    port.append(":80");
    ComposeService {
        key: "nginx".to_owned(),
        image: "nginx:alpine".to_owned(),
        container_name: "proxy-nginx".to_owned(),
        ports: single(port),
        volumes: single("./nginx.conf:/etc/nginx/nginx.conf:ro".to_owned()),
        user: None,
        networks: single(network_name.to_owned()),
        depends_on,
        restart: "unless-stopped".to_owned(),
        env_file: None,
        healthcheck: None,
    }
}

/// The service of one application running its `latest` image (see
/// `app_service`).
pub fn generate_app_service(app: &AppConfig, network_name: &str, env_file: Option<String>) -> (r: ComposeService)
    ensures
        r@ == app_service(app@, network_name@, crate::text::opt_view(env_file), app@.name + ":latest"@),
{
    let mut image = app.name.clone();
    image.append(":latest");
    app_service_with_image(app, network_name, env_file, image)
}

/// The service of one application running `image` (see `app_service`).
fn app_service_with_image(app: &AppConfig, network_name: &str, env_file: Option<String>, image: String) -> (r:
    ComposeService)
    ensures
        r@ == app_service(app@, network_name@, crate::text::opt_view(env_file), image@),
{
    let healthcheck = match app.app_type {
        AppType::Internal => None,
        _ => {
            let mut test = "CMD-SHELL, wget --quiet --tries=1 --spider http://localhost:".to_owned();
            push_decimal(&mut test, app.container_port as u64);
            test.append(" || exit 1");
            Some(Healthcheck { test, interval: "30s".to_owned(), timeout: "10s".to_owned(), retries: 3 })
        },
    };
    ComposeService {
        key: app.container_name.clone(),
        image,
        container_name: app.container_name.clone(),
        ports: no_strings(),
        volumes: clone_strings(&app.docker_volumes),
        user: crate::text::clone_opt(&app.run_as_user),
        networks: single(network_name.to_owned()),
        depends_on: no_strings(),
        restart: "unless-stopped".to_owned(),
        env_file,
        healthcheck,
    }
}

/// A position found in a prefix is the first one of the whole.
proof fn lemma_key_position_extends(services: Seq<ComposeServiceView>, key: Seq<char>, j: int)
    requires
        0 <= j <= services.len(),
        key_position(services.take(j), key) is Some,
    ensures
        key_position(services, key) == key_position(services.take(j), key),
    decreases services.len(),
{
    if j < services.len() {
        assert(services.drop_last().take(j) =~= services.take(j));
        lemma_key_position_extends(services.drop_last(), key, j);
    } else {
        assert(services.take(j) =~= services);
    }
}

/// Puts `s` under its key (see `put_service`).
fn put(services: &mut Vec<ComposeService>, s: ComposeService)
    ensures
        service_views(final(services)@) == put_service(service_views(old(services)@), s@),
{
    let ghost sv = service_views(services@);
    let mut i: usize = 0;
    while i < services.len()
        invariant
            i <= services.len(),
            sv == service_views(services@),
            services@ == old(services)@,
            key_position(sv.take(i as int), s@.key) is None,
        decreases services.len() - i,
    {
        assert(sv.take(i + 1).drop_last() =~= sv.take(i as int));
        assert(sv.take(i + 1).last() == services@[i as int]@);
        if str_eq(services[i].key.as_str(), s.key.as_str()) {
            proof {
                lemma_key_position_extends(sv, s@.key, i + 1);
            }
            let ghost sv_view = s@;
            services.set(i, s);
            assert(service_views(services@) =~= sv.update(i as int, sv_view));
            return;
        }
        i = i + 1;
    }
    assert(sv.take(i as int) =~= sv);
    let ghost sv_view = s@;
    services.push(s);
    assert(service_views(services@) =~= sv.push(sv_view));
}

/// The Docker Compose document for the applications on network
/// `network_name`, with nginx published on `nginx_host_port`;
/// `env_files` gives the environment file of an application by name.
/// Each application runs its `latest` image.
pub fn generate_compose_config(
    apps: &[AppConfig],
    network_name: &str,
    nginx_host_port: u16,
    env_files: &NamedMap<String>,
) -> (r: ComposeConfig)
    ensures
        r.network_name@ == network_name@,
        service_views(r.services@) == compose_services(
            app_views(apps@),
            network_name@,
            nginx_host_port,
            env_files@,
            Map::empty(),
        ),
{
    let images: NamedMap<String> = NamedMap::new();
    generate_compose_config_with_images(apps, network_name, nginx_host_port, env_files, &images)
}

/// The Docker Compose document (see `generate_compose_config`) in which
/// each application runs the image `images` gives for its name, else its
/// `latest` image.
pub fn generate_compose_config_with_images(
    apps: &[AppConfig],
    network_name: &str,
    nginx_host_port: u16,
    env_files: &NamedMap<String>,
    images: &NamedMap<String>,
) -> (r: ComposeConfig)
    ensures
        r.network_name@ == network_name@,
        service_views(r.services@) == compose_services(
            app_views(apps@),
            network_name@,
            nginx_host_port,
            env_files@,
            images@,
        ),
{
    let ghost av = app_views(apps@);
    let mut services: Vec<ComposeService> = Vec::new();
    let nginx = generate_nginx_service(nginx_host_port, network_name, apps);
    let ghost nginx_view = nginx@;
    services.push(nginx);
    let ghost start = service_views(services@);
    assert(start =~= seq![nginx_view]);
    let mut i: usize = 0;
    while i < apps.len()
        invariant
            i <= apps.len(),
            av == app_views(apps@),
            start == seq![nginx_service(nginx_host_port, network_name@, av)],
            service_views(services@) == put_app_services(
                start,
                av.take(i as int),
                network_name@,
                env_files@,
                images@,
            ),
        decreases apps.len() - i,
    {
        let app = &apps[i];
        assert(av.take(i + 1).drop_last() =~= av.take(i as int));
        assert(av.take(i + 1).last() == app@);
        let env_file = match env_files.get(app.name.as_str()) {
            Some(f) => Some(f.clone()),
            None => None,
        };
        let image = match images.get(app.name.as_str()) {
            Some(m) => m.clone(),
            None => {
                let mut latest = app.name.clone();
                latest.append(":latest");
                latest
            },
        };
        let service = app_service_with_image(app, network_name, env_file, image);
        put(&mut services, service);
        i = i + 1;
    }
    assert(av.take(i as int) =~= av);
    ComposeConfig { services, network_name: network_name.to_owned() }
}

} // verus!

verus! {

/// No two services have the same key.
pub open spec fn keys_distinct(services: Seq<ComposeServiceView>) -> bool {
    forall|i: int, j: int| 0 <= i < j < services.len() ==> (#[trigger] services[i]).key != (#[trigger] services[j]).key
}

/// What `key_position` finds: a service with the key, or that none has it.
proof fn lemma_key_position(services: Seq<ComposeServiceView>, key: Seq<char>)
    ensures
        key_position(services, key) matches Some(i) ==> 0 <= i < services.len() && services[i].key == key,
        key_position(services, key) is None ==> forall|k: int| 0 <= k < services.len() ==> (#[trigger] services[k]).key != key,
    decreases services.len(),
{
    if services.len() > 0 {
        lemma_key_position(services.drop_last(), key);
        assert forall|k: int| 0 <= k < services.len() - 1 implies services[k] == services.drop_last()[k] by {}
    }
}

/// Putting a service under its key keeps the keys distinct.
proof fn lemma_put_service_distinct(services: Seq<ComposeServiceView>, s: ComposeServiceView)
    requires
        keys_distinct(services),
    ensures
        keys_distinct(put_service(services, s)),
{
    lemma_key_position(services, s.key);
    let r = put_service(services, s);
    match key_position(services, s.key) {
        Some(p) => {
            assert forall|i: int, j: int| 0 <= i < j < r.len() implies (#[trigger] r[i]).key != (#[trigger] r[j]).key by {
                assert(r[i].key == services[i].key);
                assert(r[j].key == services[j].key);
            }
        },
        None => {
            assert forall|i: int, j: int| 0 <= i < j < r.len() implies (#[trigger] r[i]).key != (#[trigger] r[j]).key by {
                if j == services.len() {
                    assert(r[i] == services[i]);
                } else {
                    assert(r[i] == services[i] && r[j] == services[j]);
                }
            }
        },
    }
}

/// The services after putting applications keep distinct keys.
proof fn lemma_put_app_services_distinct(
    start: Seq<ComposeServiceView>,
    apps: Seq<AppConfigView>,
    network_name: Seq<char>,
    env_files: Map<Seq<char>, Seq<char>>,
    images: Map<Seq<char>, Seq<char>>,
)
    requires
        keys_distinct(start),
    ensures
        keys_distinct(put_app_services(start, apps, network_name, env_files, images)),
    decreases apps.len(),
{
    if apps.len() > 0 {
        lemma_put_app_services_distinct(start, apps.drop_last(), network_name, env_files, images);
        lemma_put_service_distinct(
            put_app_services(start, apps.drop_last(), network_name, env_files, images),
            app_service(
                apps.last(),
                network_name,
                env_file_of(env_files, apps.last().name),
                image_for(images, apps.last().name),
            ),
        );
    }
}

/// The document never holds two services under one key: an application
/// whose container name repeats an earlier key replaces that service.
pub proof fn law_service_keys_distinct(
    apps: Seq<AppConfigView>,
    network_name: Seq<char>,
    nginx_host_port: u16,
    env_files: Map<Seq<char>, Seq<char>>,
    images: Map<Seq<char>, Seq<char>>,
)
    ensures
        keys_distinct(compose_services(apps, network_name, nginx_host_port, env_files, images)),
{
    lemma_put_app_services_distinct(
        seq![nginx_service(nginx_host_port, network_name, apps)],
        apps,
        network_name,
        env_files,
        images,
    );
}


/// Whether every service joins exactly the network `network_name` and
/// restarts unless stopped.
pub open spec fn all_on_network(services: Seq<ComposeServiceView>, network_name: Seq<char>) -> bool {
    forall|i: int| 0 <= i < services.len() ==> (#[trigger] services[i]).networks == seq![network_name]
        && services[i].restart == "unless-stopped"@
}

/// Putting services that join the network keeps every service on it, and
/// leaves a service under the container name of each application put.
proof fn lemma_put_app_services_on_network(
    start: Seq<ComposeServiceView>,
    apps: Seq<AppConfigView>,
    network_name: Seq<char>,
    env_files: Map<Seq<char>, Seq<char>>,
    images: Map<Seq<char>, Seq<char>>,
)
    requires
        all_on_network(start, network_name),
    ensures
        all_on_network(put_app_services(start, apps, network_name, env_files, images), network_name),
        forall|j: int| 0 <= j < apps.len() ==> exists|i: int|
            0 <= i < put_app_services(start, apps, network_name, env_files, images).len()
                && (#[trigger] put_app_services(start, apps, network_name, env_files, images)[i]).key
                == (#[trigger] apps[j]).container_name,
        put_app_services(start, apps, network_name, env_files, images).len() <= start.len() + apps.len(),
    decreases apps.len(),
{
    if apps.len() > 0 {
        let d = apps.drop_last();
        lemma_put_app_services_on_network(start, d, network_name, env_files, images);
        let before = put_app_services(start, d, network_name, env_files, images);
        let a = apps.last();
        let sv = app_service(a, network_name, env_file_of(env_files, a.name), image_for(images, a.name));
        let after = put_service(before, sv);
        assert(after == put_app_services(start, apps, network_name, env_files, images));
        lemma_key_position(before, sv.key);
        match key_position(before, sv.key) {
            Some(p) => {
                assert(after[p].key == a.container_name);
                assert forall|j: int| 0 <= j < apps.len() implies exists|i: int|
                    0 <= i < after.len() && (#[trigger] after[i]).key == (#[trigger] apps[j]).container_name by {
                    if j < apps.len() - 1 {
                        assert(d[j] == apps[j]);
                        let i = choose|i: int| 0 <= i < before.len() && (#[trigger] before[i]).key == d[j].container_name;
                        assert(after[i].key == before[i].key);
                    } else {
                        assert(after[p].key == apps[j].container_name);
                    }
                }
            },
            None => {
                assert(after[before.len() as int].key == a.container_name);
                assert forall|j: int| 0 <= j < apps.len() implies exists|i: int|
                    0 <= i < after.len() && (#[trigger] after[i]).key == (#[trigger] apps[j]).container_name by {
                    if j < apps.len() - 1 {
                        assert(d[j] == apps[j]);
                        let i = choose|i: int| 0 <= i < before.len() && (#[trigger] before[i]).key == d[j].container_name;
                        assert(after[i] == before[i]);
                    } else {
                        assert(after[before.len() as int].key == apps[j].container_name);
                    }
                }
            },
        }
    }
}

/// Every service of the document, nginx and each application's, joins
/// exactly the shared network `network_name` and restarts unless stopped,
/// so nginx reaches every application by name on that network; each
/// application's container name is the key of a service, and there is at
/// most one service per application besides nginx.
pub proof fn law_services_share_network(
    apps: Seq<AppConfigView>,
    network_name: Seq<char>,
    nginx_host_port: u16,
    env_files: Map<Seq<char>, Seq<char>>,
    images: Map<Seq<char>, Seq<char>>,
)
    ensures
        ({
            let services = compose_services(apps, network_name, nginx_host_port, env_files, images);
            &&& forall|i: int| 0 <= i < services.len() ==> (#[trigger] services[i]).networks == seq![network_name]
            &&& forall|i: int| 0 <= i < services.len() ==> (#[trigger] services[i]).restart == "unless-stopped"@
            &&& forall|j: int| 0 <= j < apps.len() ==> exists|i: int|
                0 <= i < services.len() && (#[trigger] services[i]).key == (#[trigger] apps[j]).container_name
            &&& services.len() <= apps.len() + 1
        }),
{
    let start = seq![nginx_service(nginx_host_port, network_name, apps)];
    assert(all_on_network(start, network_name));
    lemma_put_app_services_on_network(start, apps, network_name, env_files, images);
    let services = compose_services(apps, network_name, nginx_host_port, env_files, images);
    assert forall|i: int| 0 <= i < services.len() implies (#[trigger] services[i]).networks == seq![network_name] by {}
    assert forall|i: int| 0 <= i < services.len() implies (#[trigger] services[i]).restart == "unless-stopped"@ by {}
}

} // verus!
