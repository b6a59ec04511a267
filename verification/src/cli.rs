//! The decisions of the command-line workflows: relative paths of
//! environment files, which environment files to look for, which
//! applications a build covers, and how long to wait for a candidate
//! container.

use vstd::prelude::*;
use crate::config::{
    app_views, contains_slice, find_app, lemma_first_named_is_named, names_app, path_join, AppConfig, AppConfigView,
};
use crate::error::{Error, ErrorKind};
use crate::text::views;

verus! {

/// The relative path from folder `base` to `path`, as
/// `pathdiff::diff_paths` forms it, when it can.
pub uninterp spec fn path_difference(path: Seq<char>, base: Seq<char>) -> Option<Seq<char>>;

/// `pathdiff::diff_paths(path, base)`, as text. Both are `&str`, so the
/// resulting path is valid UTF-8 text.
#[verifier::external_body]
fn diff_paths_text(path: &str, base: &str) -> (r: Option<String>)
    ensures
        match r {
            Some(s) => path_difference(path@, base@) == Some(s@),
            None => path_difference(path@, base@) is None,
        },
{
    match pathdiff::diff_paths(path, base) {
        Some(p) => Some(p.to_string_lossy().into_owned()),
        None => None,
    }
}

/// The path of `target_abs` relative to the folder `base_abs` (both
/// already made absolute).
pub fn calculate_relative_path(base_abs: &str, target_abs: &str) -> (r: Result<String, Error>)
    ensures
        match path_difference(target_abs@, base_abs@) {
            Some(p) => r matches Ok(s) && s@ == p,
            None => r matches Err(e) && e@ == (ErrorKind::Config, "无法计算相对路径"@),
        },
{
    match diff_paths_text(target_abs, base_abs) {
        Some(p) => Ok(p),
        None => Err(Error::Config("无法计算相对路径".to_owned())),
    }
}

/// For each application that has a folder, its name and the path of the
/// `.env` file in that folder, in order.
pub open spec fn env_candidates(apps: Seq<AppConfigView>) -> Seq<(Seq<char>, Seq<char>)>
    decreases apps.len(),
{
    if apps.len() == 0 {
        seq![]
    } else {
        let before = env_candidates(apps.drop_last());
        match apps.last().path {
            Some(p) => before.push((apps.last().name, path_join(p, ".env"@))),
            None => before,
        }
    }
}

/// The environment files to look for: for each application that has a
/// folder, its name and `<folder>/.env`.
pub fn env_file_candidates(apps: &[AppConfig]) -> (r: Vec<(String, String)>)
    ensures
        r@.map_values(|p: (String, String)| (p.0@, p.1@)) == env_candidates(app_views(apps@)),
{
    let ghost av = app_views(apps@);
    let mut r: Vec<(String, String)> = Vec::new();
    let mut i: usize = 0;
    while i < apps.len()
        invariant
            i <= apps.len(),
            av == app_views(apps@),
            r@.map_values(|p: (String, String)| (p.0@, p.1@)) == env_candidates(av.take(i as int)),
        decreases apps.len() - i,
    {
        assert(av.take(i + 1).drop_last() =~= av.take(i as int));
        assert(av.take(i + 1).last() == apps@[i as int]@);
        let app = &apps[i];
        match &app.path {
            Some(p) => {
                let ghost before = r@;
                let file = crate::config::join_path(p.as_str(), ".env");
                r.push((app.name.clone(), file));
                assert(r@.map_values(|p: (String, String)| (p.0@, p.1@)) =~= before.map_values(
                    |p: (String, String)| (p.0@, p.1@),
                ).push((app@.name, path_join(p@, ".env"@))));
            },
            None => {},
        }
        i = i + 1;
    }
    assert(av.take(i as int) =~= av);
    r
}

/// Whether the application named `name` is built when the names
/// `requested` were asked for: every application is when none were.
pub open spec fn selected_for_build(requested: Seq<Seq<char>>, name: Seq<char>) -> bool {
    requested.len() == 0 || requested.contains(name)
}

/// Which of `apps` a build for the names `requested` covers, and whether
/// every requested name is that of one of `apps` (a build that names an
/// unknown application fails once the others are built).
pub fn build_selection(apps: &[AppConfig], requested: &[String]) -> (r: (Vec<bool>, bool))
    ensures
        r.0@.len() == apps@.len(),
        forall|i: int| 0 <= i < apps@.len() ==> r.0@[i] == selected_for_build(views(requested@), #[trigger] apps@[i]@.name),
        r.1 == forall|j: int| 0 <= j < requested@.len() ==> names_app(app_views(apps@), #[trigger] requested@[j]@),
{
    let mut selected: Vec<bool> = Vec::new();
    let mut i: usize = 0;
    while i < apps.len()
        invariant
            i <= apps.len(),
            selected@.len() == i,
            forall|k: int| 0 <= k < i ==> selected@[k] == selected_for_build(views(requested@), #[trigger] apps@[k]@.name),
        decreases apps.len() - i,
    {
        let chosen = requested.len() == 0 || contains_slice(requested, apps[i].name.as_str());
        selected.push(chosen);
        i = i + 1;
    }
    let mut all_found = true;
    let mut j: usize = 0;
    while j < requested.len()
        invariant
            j <= requested.len(),
            all_found == forall|k: int| 0 <= k < j ==> names_app(app_views(apps@), #[trigger] requested@[k]@),
        decreases requested.len() - j,
    {
        let found = find_app(apps, requested[j].as_str()).is_some();
        proof {
            lemma_first_named_is_named(app_views(apps@), requested@[j as int]@);
        }
        all_found = all_found && found;
        j = j + 1;
    }
    (selected, all_found)
}

/// How many times a candidate container's health is checked.
pub const HEALTH_CHECKS: u32 = 30;

/// What to do after a health check: stop with the verdict, or wait and
/// check again.
#[derive(Clone, Copy, Debug, PartialEq, Eq, Structural)]
pub enum HealthWait {
    /// Stop: the container is healthy (`true`) or the checks ran out.
    Done(bool),
    /// Wait, then check again.
    Retry,
}

/// The step after check number `attempt` (from 1) found the container
/// healthy or not: a healthy container ends the wait; an unhealthy one is
/// checked again until `HEALTH_CHECKS` checks were made.
pub fn wait_for_healthy(attempt: u32, healthy: bool) -> (r: HealthWait)
    ensures
        healthy ==> r == HealthWait::Done(true),
        !healthy && attempt >= HEALTH_CHECKS ==> r == HealthWait::Done(false),
        !healthy && attempt < HEALTH_CHECKS ==> r == HealthWait::Retry,
{
    if healthy {
        HealthWait::Done(true)
    } else if attempt >= HEALTH_CHECKS {
        HealthWait::Done(false)
    } else {
        HealthWait::Retry
    }
}

} // verus!
