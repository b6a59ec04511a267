use micro_proxy::deploy_flow::{begin_deploy, deploy_step, DeployAction, DeployEvent, DeployStage};
use micro_proxy::deployment::DeploymentStore;
use micro_proxy::{Error, ErrorKind};

fn legacy_store() -> DeploymentStore {
    let mut store = DeploymentStore::new("unused.yml");
    store.migrate_legacy("api", "api", true);
    store
}

#[test]
fn test_deploy_flow_success_activates_and_removes_old() {
    let state = begin_deploy(legacy_store(), "api", "api", "api:sha-0123456789ab").unwrap();
    assert_eq!(state.candidate, "api--0123456789ab");
    assert_eq!(state.stage, DeployStage::AwaitingHealth);
    let (state, action) = deploy_step(state, DeployEvent::CandidateHealthy(true));
    assert!(matches!(action, DeployAction::SwitchNginx));
    assert_eq!(state.stage, DeployStage::AwaitingNginx);
    let (state, action) = deploy_step(state, DeployEvent::NginxSwitched(Ok(())));
    match action {
        DeployAction::SaveAndRemoveOld(old) => assert_eq!(old.as_deref(), Some("api")),
        other => panic!("unexpected action {:?}", other),
    }
    let s = state.store.state("api").unwrap();
    assert_eq!(s.active_image.as_deref(), Some("api:sha-0123456789ab"));
    assert_eq!(s.active_container.as_deref(), Some("api--0123456789ab"));
    assert_eq!(s.previous_image.as_deref(), Some("api:latest"));
}

#[test]
fn test_deploy_flow_unhealthy_candidate_keeps_store() {
    let state = begin_deploy(legacy_store(), "api", "api", "api:sha-0123456789ab").unwrap();
    let (state, action) = deploy_step(state, DeployEvent::CandidateHealthy(false));
    match action {
        DeployAction::RemoveCandidateAndRestore(e) => {
            assert_eq!(e.kind(), ErrorKind::Container);
            assert_eq!(e.message(), "候选容器 'api--0123456789ab' 未通过健康检查");
        }
        other => panic!("unexpected action {:?}", other),
    }
    assert_eq!(state.stage, DeployStage::Finished);
    assert_eq!(state.store.state("api").unwrap().active_image.as_deref(), Some("api:latest"));
}

#[test]
fn test_deploy_flow_nginx_failure_keeps_store() {
    let state = begin_deploy(legacy_store(), "api", "api", "api:sha-0123456789ab").unwrap();
    let (state, _) = deploy_step(state, DeployEvent::CandidateHealthy(true));
    let (state, action) =
        deploy_step(state, DeployEvent::NginxSwitched(Err(Error::Container("nginx重载失败: x".to_string()))));
    match action {
        DeployAction::RemoveCandidateAndRestore(e) => assert_eq!(e.message(), "nginx重载失败: x"),
        other => panic!("unexpected action {:?}", other),
    }
    assert_eq!(state.store.state("api").unwrap().active_image.as_deref(), Some("api:latest"));
}

#[test]
fn test_deploy_flow_out_of_order_event_fails() {
    let state = begin_deploy(legacy_store(), "api", "api", "api:sha-0123456789ab").unwrap();
    let (state, action) = deploy_step(state, DeployEvent::NginxSwitched(Ok(())));
    match action {
        DeployAction::Fail(e) => assert_eq!(e.message(), "应用 'api' 的部署步骤顺序错误"),
        other => panic!("unexpected action {:?}", other),
    }
    assert_eq!(state.store.state("api").unwrap().active_image.as_deref(), Some("api:latest"));
}

#[test]
fn test_begin_deploy_refuses_running_image() {
    let mut store = legacy_store();
    store
        .activate("api", "api:sha-0123456789ab".to_string(), "api--0123456789ab".to_string())
        .unwrap();
    let e = begin_deploy(store, "api", "api", "api:sha-0123456789ab").unwrap_err();
    assert_eq!(e.kind(), ErrorKind::State);
}
