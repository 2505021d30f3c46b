use nightshade_viewer::agent::Entity;
use nightshade_viewer::picking::{
    NodeInfo, PickHit, Picking, SceneGraph, SceneSync, Selection, apply, build_tree, chain_from_root, cycle_select,
    depth_of, find_entity_by_id, find_root, get_parent, reset_cycle, select, select_by_id, sync,
};

fn e(id: u32) -> Entity {
    Entity { id, generation: 0 }
}

fn node(id: u32, parent: Option<u32>, name: Option<&str>, mesh: bool) -> NodeInfo {
    NodeInfo {
        entity: e(id),
        parent: parent.map(e),
        name: name.map(|n| n.to_string()),
        has_mesh: mesh,
        has_local_transform: true,
    }
}

// scene: 1 (outside the model) <- 2 (model root) <- 3 <- 4
fn graph() -> SceneGraph {
    SceneGraph {
        nodes: vec![
            node(1, None, Some("World"), false),
            node(2, Some(1), Some("Helmet"), false),
            node(3, Some(2), Some(""), false),
            node(4, Some(3), None, true),
        ],
    }
}

fn model() -> Vec<Entity> {
    vec![e(2), e(3), e(4)]
}

fn fresh() -> (Picking, Selection, SceneSync) {
    (
        Picking { pending: false, last_leaf: None, last_root: None, cycle_depth: 0 },
        Selection { selected: None, bounding_volume_selected_entity: None, selected_entities: Vec::new() },
        SceneSync { needs_tree: false, needs_selection: false },
    )
}

#[test]
fn lookups() {
    let g = graph();
    assert_eq!(get_parent(&g, e(4)), Some(e(3)));
    assert_eq!(get_parent(&g, e(9)), None);
    assert_eq!(find_entity_by_id(&g, 3), Some(e(3)));
    assert_eq!(find_entity_by_id(&g, 9), None);
}

#[test]
fn root_and_chain_stay_inside_the_model() {
    let g = graph();
    let root = find_root(&g, e(4), &model());
    assert_eq!(root, e(2));
    assert_eq!(chain_from_root(&g, root, e(4)), vec![e(2), e(3), e(4)]);
    assert_eq!(chain_from_root(&g, e(4), e(4)), vec![e(4)]);
}

#[test]
fn repeated_clicks_walk_down_the_chain() {
    let g = graph();
    let (mut picking, mut selection, mut scene_sync) = fresh();
    cycle_select(&g, &model(), &mut picking, &mut selection, &mut scene_sync, e(4));
    assert_eq!(selection.selected, Some(e(2)));
    cycle_select(&g, &model(), &mut picking, &mut selection, &mut scene_sync, e(4));
    assert_eq!(selection.selected, Some(e(3)));
    cycle_select(&g, &model(), &mut picking, &mut selection, &mut scene_sync, e(4));
    assert_eq!(selection.selected, Some(e(4)));
    cycle_select(&g, &model(), &mut picking, &mut selection, &mut scene_sync, e(4));
    assert_eq!(selection.selected, Some(e(2)));
    assert!(scene_sync.needs_selection);
    reset_cycle(&mut picking);
    assert_eq!(picking.cycle_depth, 0);
}

#[test]
fn pick_result_selects_or_clears() {
    let g = graph();
    let (mut picking, mut selection, mut scene_sync) = fresh();
    apply(&g, &model(), &mut picking, &mut selection, &mut scene_sync, Some(PickHit { hit: true, entity_id: Some(4) }), false);
    assert_eq!(selection.selected, None);
    picking.pending = true;
    apply(&g, &model(), &mut picking, &mut selection, &mut scene_sync, None, false);
    assert!(picking.pending);
    apply(&g, &model(), &mut picking, &mut selection, &mut scene_sync, Some(PickHit { hit: true, entity_id: Some(4) }), false);
    assert!(!picking.pending);
    assert_eq!(selection.selected, Some(e(2)));
    picking.pending = true;
    apply(&g, &model(), &mut picking, &mut selection, &mut scene_sync, Some(PickHit { hit: false, entity_id: Some(4) }), false);
    assert_eq!(selection.selected, None);
    assert_eq!(picking.last_leaf, None);
    picking.pending = true;
    apply(&g, &model(), &mut picking, &mut selection, &mut scene_sync, Some(PickHit { hit: true, entity_id: Some(4) }), true);
    assert!(!picking.pending);
    assert_eq!(selection.selected, None);
}

#[test]
fn selection_by_id() {
    let g = graph();
    let (_, mut selection, mut scene_sync) = fresh();
    select_by_id(&g, &mut selection, &mut scene_sync, 3);
    assert_eq!(selection.selected, Some(e(3)));
    assert_eq!(selection.bounding_volume_selected_entity, Some(e(3)));
    assert_eq!(selection.selected_entities, vec![e(3)]);
    select(&mut selection, &mut scene_sync, None);
    assert_eq!(selection.selected, None);
    assert_eq!(selection.bounding_volume_selected_entity, None);
    assert!(selection.selected_entities.is_empty());
    assert!(scene_sync.needs_selection);
}

#[test]
fn scene_tree_rows() {
    let g = graph();
    assert_eq!(depth_of(&g, e(4), Some(e(2))), 2);
    assert_eq!(depth_of(&g, e(4), None), 3);
    let rows = build_tree(&g, &model(), Some(e(2)));
    assert_eq!(rows.len(), 3);
    assert_eq!(rows[0].name, "Helmet");
    assert_eq!(rows[1].name, "Node 3");
    assert_eq!(rows[2].name, "Node 4");
    assert_eq!(rows[2].depth, 2);
    assert!(rows[2].has_mesh);
    let (_, _, mut scene_sync) = fresh();
    scene_sync.needs_tree = true;
    let posts = sync(&g, &model(), Some(e(2)), &mut scene_sync);
    assert!(posts.tree.is_some() && !posts.selection);
    assert!(!scene_sync.needs_tree);
    let posts = sync(&g, &model(), Some(e(2)), &mut scene_sync);
    assert!(posts.tree.is_none());
}
