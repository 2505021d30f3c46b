use nightshade_viewer::agent::{AgentState, Entity};
use nightshade_viewer::browsers::DownloadStep;
use nightshade_viewer::load::{
    AgentModelLoad, Incoming, PendingAsset, ReportDelay, flush_report, load_outcome, model_download_arrived,
    ordered_entities, poll, poll_agent_hdris, poll_agent_loads, poll_agent_models, Model, SpawnedModel,
    settle_agent_loads, settle_download, single_download_arrived,
};
use nightshade_viewer::picking::SceneSync;
use nightshade_viewer::protocol::AgentResponse;

fn e(id: u32) -> Entity {
    Entity { id, generation: 0 }
}

#[test]
fn inbox_is_drained() {
    let mut incoming = Incoming::new();
    incoming.asset = Some(PendingAsset::Hdri(vec![1]));
    incoming.agent_loads.push((3, vec![1, 2]));
    incoming.agent_hdris.push((4, vec![]));
    incoming.agent_models.push(AgentModelLoad { correlation_id: 5, gltf: vec![], resources: vec![] });
    assert!(matches!(poll(&mut incoming), Some(PendingAsset::Hdri(_))));
    assert!(poll(&mut incoming).is_none());
    assert_eq!(poll_agent_loads(&mut incoming), vec![(3, vec![1, 2])]);
    assert!(poll_agent_loads(&mut incoming).is_empty());
    assert_eq!(poll_agent_hdris(&mut incoming).len(), 1);
    assert_eq!(poll_agent_models(&mut incoming)[0].correlation_id, 5);
    assert!(incoming.agent_models.is_empty());
}

#[test]
fn load_acknowledged_or_failed() {
    let state = AgentState::new();
    match load_outcome(&state, 9, Ok(vec![e(1), e(2)])) {
        AgentResponse::Loaded { correlation_id, roots, .. } => {
            assert_eq!(correlation_id, 9);
            assert_eq!(roots.len(), 2);
        }
        _ => panic!(),
    }
    match load_outcome(&state, 9, Err("bad magic".to_string())) {
        AgentResponse::CommandFailed { correlation_id, error } => {
            assert_eq!(correlation_id, 9);
            assert_eq!(error, "import failed: bad magic");
        }
        _ => panic!(),
    }
}

#[test]
fn spawned_entities_parent_first_each_once() {
    let roots = vec![e(10), e(20)];
    let descendants = vec![vec![e(11), e(12), e(20)], vec![e(21)]];
    let transformable = vec![e(1), e(30), e(11)];
    let spawned = vec![10, 11, 12, 20, 21, 30];
    let ordered = ordered_entities(&roots, &descendants, &transformable, &spawned);
    let ids: Vec<u32> = ordered.iter().map(|x| x.id).collect();
    assert_eq!(ids, vec![10, 11, 12, 20, 21, 30]);
}

#[test]
fn report_waits_then_goes_once() {
    let mut report = Some(ReportDelay { delay: 1 });
    assert!(!flush_report(&mut report));
    assert_eq!(report.map(|r| r.delay), Some(0));
    assert!(flush_report(&mut report));
    assert!(report.is_none());
    assert!(!flush_report(&mut report));
}

#[test]
fn agent_loads_append_to_the_model() {
    let state = AgentState::new();
    let mut model = Model { roots: vec![e(1)], entities: vec![e(1), e(2)] };
    let mut sync = SceneSync { needs_tree: false, needs_selection: false };
    let outcomes = vec![
        (10u64, Ok(SpawnedModel { roots: vec![e(5)], entities: vec![e(5), e(6)] })),
        (11u64, Err("bad glb".to_string())),
        (12u64, Ok(SpawnedModel { roots: vec![], entities: vec![e(9)] })),
    ];
    let replies = settle_agent_loads(&state, &mut model, &mut sync, outcomes);
    assert_eq!(model.roots, vec![e(1), e(5)]);
    assert_eq!(model.entities, vec![e(1), e(2), e(5), e(6)]);
    assert!(sync.needs_tree);
    assert!(!sync.needs_selection);
    assert_eq!(replies.len(), 3);
    assert!(matches!(&replies[0], AgentResponse::Loaded { correlation_id: 10, roots, .. } if roots.len() == 1));
    assert!(matches!(&replies[1], AgentResponse::CommandFailed { correlation_id: 11, error } if error == "import failed: bad glb"));
    assert!(matches!(&replies[2], AgentResponse::Loaded { correlation_id: 12, roots, .. } if roots.is_empty()));
}

fn downloading() -> Incoming {
    let mut incoming = Incoming::new();
    incoming.loading = Some("Duck".to_string());
    incoming
}

#[test]
fn single_download_frees_the_slot() {
    let mut incoming = downloading();
    single_download_arrived(&mut incoming, Some(vec![7, 8]), false);
    assert!(matches!(&incoming.asset, Some(PendingAsset::Model(b)) if *b == vec![7, 8]));
    assert!(incoming.loading.is_none());

    let mut incoming = downloading();
    single_download_arrived(&mut incoming, Some(vec![9]), true);
    assert!(matches!(&incoming.asset, Some(PendingAsset::Hdri(b)) if *b == vec![9]));
    assert!(incoming.loading.is_none());

    let mut incoming = downloading();
    single_download_arrived(&mut incoming, None, false);
    assert!(incoming.asset.is_none());
    assert!(incoming.loading.is_none());
}

#[test]
fn model_download_with_and_without_files() {
    let mut incoming = downloading();
    assert!(model_download_arrived(&mut incoming, None, 2).is_none());
    assert!(incoming.asset.is_none());
    assert!(incoming.loading.is_none());

    let mut incoming = downloading();
    assert!(model_download_arrived(&mut incoming, Some(vec![1]), 0).is_none());
    assert!(matches!(&incoming.asset,
        Some(PendingAsset::ModelWithResources { gltf, resources }) if *gltf == vec![1] && resources.is_empty()));
    assert!(incoming.loading.is_none());

    let mut incoming = downloading();
    let mut download = model_download_arrived(&mut incoming, Some(vec![1]), 2).unwrap();
    assert_eq!(download.total, 2);
    assert_eq!(download.fetched, 0);
    assert!(incoming.asset.is_none());
    assert_eq!(incoming.loading.as_deref(), Some("Duck"));

    let step = download.arrive("a.bin".to_string(), Some(vec![2]));
    assert!(matches!(step, DownloadStep::Pending));
    settle_download(&mut incoming, step);
    assert!(incoming.asset.is_none());
    assert_eq!(incoming.loading.as_deref(), Some("Duck"));

    let step = download.arrive("b.png".to_string(), Some(vec![3]));
    settle_download(&mut incoming, step);
    match &incoming.asset {
        Some(PendingAsset::ModelWithResources { gltf, resources }) => {
            assert_eq!(*gltf, vec![1]);
            assert_eq!(resources.len(), 2);
            assert_eq!(resources[0], ("a.bin".to_string(), vec![2]));
            assert_eq!(resources[1], ("b.png".to_string(), vec![3]));
        }
        other => panic!("unexpected asset {other:?}"),
    }
    assert!(incoming.loading.is_none());
}

#[test]
fn failed_file_frees_the_slot_without_an_asset() {
    let mut incoming = downloading();
    let mut download = model_download_arrived(&mut incoming, Some(vec![1]), 2).unwrap();
    let step = download.arrive("a.bin".to_string(), None);
    settle_download(&mut incoming, step);
    let step = download.arrive("b.png".to_string(), Some(vec![3]));
    assert!(matches!(step, DownloadStep::Failed));
    settle_download(&mut incoming, step);
    assert!(incoming.asset.is_none());
    assert!(incoming.loading.is_none());
}
