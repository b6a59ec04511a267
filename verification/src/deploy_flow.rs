//! The decisions of switching an application to a new image: the
//! candidate container is checked, nginx is pointed at it, and only then is
//! the image made active. On every failure the deployment state stays as it
//! was, so the old version keeps serving.

use vstd::prelude::*;
use crate::deployment::{activated, active_container_of, candidate_container, plan_switch, state_or_empty, DeploymentStateView, DeploymentStore};
use crate::error::{Error, ErrorKind};
use crate::text::{concat3, opt_view};

verus! {

/// Where a deployment stands.
#[derive(Clone, Copy, Debug, PartialEq, Eq, Structural)]
pub enum DeployStage {
    /// The candidate container was started; its health is awaited.
    AwaitingHealth,
    /// The candidate is healthy; nginx is being pointed at it.
    AwaitingNginx,
    /// The deployment ended, switched or not.
    Finished,
}

/// A deployment under way: the store, the application and image, the
/// candidate container and the container that ran before.
#[derive(Debug)]
pub struct DeployState {
    /// The deployment states.
    pub store: DeploymentStore,
    /// The application being switched.
    pub app_name: String,
    /// The image it is switched to.
    pub image: String,
    /// The container that runs the image.
    pub candidate: String,
    /// The container that ran the application before, if any.
    pub old_container: Option<String>,
    /// Where the deployment stands.
    pub stage: DeployStage,
}

/// What the host reports back.
#[derive(Debug)]
pub enum DeployEvent {
    /// The health checks of the candidate ended: healthy or not.
    CandidateHealthy(bool),
    /// Pointing nginx at the candidate succeeded, or failed with an error.
    NginxSwitched(Result<(), Error>),
}

/// What the host is to do next.
#[derive(Debug)]
pub enum DeployAction {
    /// Point nginx at the candidate: reload it, or start it.
    SwitchNginx,
    /// Remove the candidate container, write the run configuration of the
    /// active versions again, and fail with the error.
    RemoveCandidateAndRestore(Error),
    /// Save the store (the image is now active), then remove the
    /// container that ran before, if any.
    SaveAndRemoveOld(Option<String>),
    /// Fail with the error; nothing is to be undone.
    Fail(Error),
}

/// The error of a candidate that failed its health checks.
pub open spec fn unhealthy_message(candidate: Seq<char>) -> Seq<char> {
    "候选容器 '"@ + candidate + "' 未通过健康检查"@
}

/// The error of an event that does not belong to the stage.
pub open spec fn out_of_order_message(app_name: Seq<char>) -> Seq<char> {
    "应用 '"@ + app_name + "' 的部署步骤顺序错误"@
}

/// Starts switching `app_name`, whose configured container is
/// `container_name`, to `image` (see `plan_switch`): refused when the
/// image already runs in its candidate container; else the deployment
/// awaits the candidate's health, with the store as it was.
pub fn begin_deploy(store: DeploymentStore, app_name: &str, container_name: &str, image: &str) -> (r: Result<
    DeployState,
    Error,
>)
    ensures
        r is Err <==> active_container_of(store@, app_name@) == Some(candidate_container(container_name@, image@)),
        r matches Err(e) ==> e@ == (
            ErrorKind::State,
            "镜像 '"@ + image@ + "' 已是应用 '"@ + app_name@ + "' 的活动版本"@,
        ),
        r matches Ok(s) ==> {
            &&& s.store@ == store@
            &&& s.store.path_view() == store.path_view()
            &&& s.app_name@ == app_name@
            &&& s.image@ == image@
            &&& s.candidate@ == candidate_container(container_name@, image@)
            &&& opt_view(s.old_container) == active_container_of(store@, app_name@)
            &&& s.stage == DeployStage::AwaitingHealth
        },
{
    match plan_switch(&store, app_name, container_name, image) {
        Err(e) => Err(e),
        Ok((candidate, old_container)) => Ok(
            DeployState {
                store,
                app_name: app_name.to_owned(),
                image: image.to_owned(),
                candidate,
                old_container,
                stage: DeployStage::AwaitingHealth,
            },
        ),
    }
}

/// The next state and action after `event`:
/// - a healthy candidate leads to pointing nginx at it;
/// - an unhealthy one, or a failed nginx switch, ends the deployment with
///   the candidate removed and the active configuration restored;
/// - a successful nginx switch makes the image active (`activate`) and
///   has the store saved and the old container removed; if `activate`
///   refuses, the deployment fails with its error.
/// An event that does not belong to the stage fails the deployment. The
/// store changes only on activation; every other step leaves it as it was.
pub fn deploy_step(state: DeployState, event: DeployEvent) -> (r: (DeployState, DeployAction))
    ensures
        r.0.app_name@ == state.app_name@,
        r.0.image@ == state.image@,
        r.0.candidate@ == state.candidate@,
        opt_view(r.0.old_container) == opt_view(state.old_container),
        r.0.store.path_view() == state.store.path_view(),
        match (state.stage, event) {
            (DeployStage::AwaitingHealth, DeployEvent::CandidateHealthy(true)) => {
                &&& r.0.store@ == state.store@
                &&& r.0.stage == DeployStage::AwaitingNginx
                &&& r.1 is SwitchNginx
            },
            (DeployStage::AwaitingHealth, DeployEvent::CandidateHealthy(false)) => {
                &&& r.0.store@ == state.store@
                &&& r.0.stage == DeployStage::Finished
                &&& r.1 matches DeployAction::RemoveCandidateAndRestore(e) && e@ == (
                    ErrorKind::Container,
                    unhealthy_message(state.candidate@),
                )
            },
            (DeployStage::AwaitingNginx, DeployEvent::NginxSwitched(Err(ne))) => {
                &&& r.0.store@ == state.store@
                &&& r.0.stage == DeployStage::Finished
                &&& r.1 matches DeployAction::RemoveCandidateAndRestore(e) && e@ == ne@
            },
            (DeployStage::AwaitingNginx, DeployEvent::NginxSwitched(Ok(()))) => {
                let before = state_or_empty(state.store@, state.app_name@);
                &&& r.0.stage == DeployStage::Finished
                &&& if before.active_image == Some(state.image@) {
                    &&& r.0.store@ == state.store@
                    &&& r.1 matches DeployAction::Fail(e) && e@ == (
                        ErrorKind::State,
                        "应用 '"@ + state.app_name@ + "' 的镜像 '"@ + state.image@ + "' 已是活动版本"@,
                    )
                } else {
                    &&& r.0.store@ == state.store@.insert(
                        state.app_name@,
                        activated(before, state.image@, state.candidate@),
                    )
                    &&& r.1 matches DeployAction::SaveAndRemoveOld(old) && opt_view(old) == opt_view(
                        state.old_container,
                    )
                }
            },
            _ => {
                &&& r.0.store@ == state.store@
                &&& r.0.stage == DeployStage::Finished
                &&& r.1 matches DeployAction::Fail(e) && e@ == (
                    ErrorKind::State,
                    out_of_order_message(state.app_name@),
                )
            },
        },
{
    let DeployState { mut store, app_name, image, candidate, old_container, stage } = state;
    match (stage, event) {
        (DeployStage::AwaitingHealth, DeployEvent::CandidateHealthy(true)) => {
            (DeployState { store, app_name, image, candidate, old_container, stage: DeployStage::AwaitingNginx }, DeployAction::SwitchNginx)
        },
        (DeployStage::AwaitingHealth, DeployEvent::CandidateHealthy(false)) => {
            let e = Error::Container(concat3("候选容器 '", candidate.as_str(), "' 未通过健康检查"));
            (DeployState { store, app_name, image, candidate, old_container, stage: DeployStage::Finished }, DeployAction::RemoveCandidateAndRestore(e))
        },
        (DeployStage::AwaitingNginx, DeployEvent::NginxSwitched(Err(e))) => {
            (DeployState { store, app_name, image, candidate, old_container, stage: DeployStage::Finished }, DeployAction::RemoveCandidateAndRestore(e))
        },
        (DeployStage::AwaitingNginx, DeployEvent::NginxSwitched(Ok(()))) => {
            let result = store.activate(app_name.as_str(), image.clone(), candidate.clone());
            let action = match result {
                Ok(()) => {
                    let old = crate::text::clone_opt(&old_container);
                    DeployAction::SaveAndRemoveOld(old)
                },
                Err(e) => DeployAction::Fail(e),
            };
            (DeployState { store, app_name, image, candidate, old_container, stage: DeployStage::Finished }, action)
        },
        _ => {
            let e = Error::State(concat3("应用 '", app_name.as_str(), "' 的部署步骤顺序错误"));
            (DeployState { store, app_name, image, candidate, old_container, stage: DeployStage::Finished }, DeployAction::Fail(e))
        },
    }
}

/// A deployment whose candidate is healthy and whose nginx switch works
/// ends with the image active, as `activate` leaves it, unless it was
/// already active; a deployment that fails at either step leaves the store
/// as it was.
pub proof fn law_deploy_outcome(store: Map<Seq<char>, DeploymentStateView>, app_name: Seq<char>, image: Seq<char>, candidate: Seq<char>)
    ensures
        state_or_empty(store, app_name).active_image != Some(image) ==> {
            let after = store.insert(app_name, activated(state_or_empty(store, app_name), image, candidate));
            &&& after.contains_key(app_name)
            &&& after[app_name].active_image == Some(image)
            &&& after[app_name].active_container == Some(candidate)
            &&& after[app_name].previous_image == state_or_empty(store, app_name).active_image
        },
{
}

} // verus!
