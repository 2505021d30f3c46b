use nightshade_viewer::scene::{
    CAMERA, Context, EntityId, GLOBAL_TRANSFORM, LOCAL_TRANSFORM, NAME, PARENT, component_mask, get_name,
    get_parent, query_children, query_descendents, query_entities, query_first_entity, query_nth_camera,
    query_root_nodes, set_name, set_parent, spawn_entities, add_components, remove_components, would_create_cycle,
};
use nightshade_viewer::despawn::despawn_entities;

#[test]
fn spawned_entities_are_distinct_and_live() {
    let mut ctx = Context::new();
    let spawned = spawn_entities(&mut ctx, LOCAL_TRANSFORM | NAME, 3);
    assert_eq!(spawned.len(), 3);
    assert_ne!(spawned[0], spawned[1]);
    assert_ne!(spawned[1], spawned[2]);
    for e in &spawned {
        assert_eq!(component_mask(&ctx, *e), Some(LOCAL_TRANSFORM | NAME));
        assert_eq!(get_name(&ctx, *e).map(|n| n.0.clone()), Some(String::new()));
        assert!(get_parent(&ctx, *e).is_none());
    }
    assert_eq!(ctx.tables.len(), 1);
}

#[test]
fn same_mask_shares_a_table() {
    let mut ctx = Context::new();
    spawn_entities(&mut ctx, NAME, 1);
    spawn_entities(&mut ctx, CAMERA, 1);
    spawn_entities(&mut ctx, NAME, 2);
    assert_eq!(ctx.tables.len(), 2);
    assert_eq!(ctx.tables[0].entity_indices.len(), 3);
}

#[test]
fn names_and_parents_are_written() {
    let mut ctx = Context::new();
    let a = spawn_entities(&mut ctx, NAME, 1)[0];
    let b = spawn_entities(&mut ctx, NAME | PARENT, 1)[0];
    assert!(set_name(&mut ctx, a, "root".to_string()));
    assert!(set_parent(&mut ctx, b, a));
    assert!(!set_parent(&mut ctx, a, b));
    assert_eq!(get_name(&ctx, a).map(|n| n.0.clone()), Some("root".to_string()));
    assert_eq!(get_parent(&ctx, b).map(|p| p.0), Some(a));
}

#[test]
fn stale_handle_reads_nothing() {
    let mut ctx = Context::new();
    let a = spawn_entities(&mut ctx, NAME, 1)[0];
    let stale = EntityId { id: a.id, generation: a.generation + 1 };
    assert_eq!(component_mask(&ctx, stale), None);
    assert!(get_name(&ctx, stale).is_none());
    let unknown = EntityId { id: 999, generation: 0 };
    assert_eq!(component_mask(&ctx, unknown), None);
}

#[test]
fn hierarchy_queries() {
    let mut ctx = Context::new();
    let root = spawn_entities(&mut ctx, NAME, 1)[0];
    let kids = spawn_entities(&mut ctx, NAME | PARENT, 3);
    set_parent(&mut ctx, kids[0], root);
    set_parent(&mut ctx, kids[1], root);
    set_parent(&mut ctx, kids[2], kids[0]);
    assert_eq!(query_root_nodes(&ctx), vec![root]);
    assert_eq!(query_children(&ctx, root), vec![kids[0], kids[1]]);
    assert_eq!(query_children(&ctx, kids[0]), vec![kids[2]]);
    assert!(query_children(&ctx, kids[1]).is_empty());
    // Depth first, the last child's subtree first.
    assert_eq!(query_descendents(&ctx, root), vec![root, kids[1], kids[0], kids[2]]);
    assert_eq!(query_descendents(&ctx, kids[1]), vec![kids[1]]);
}

#[test]
fn entity_queries_follow_table_order() {
    let mut ctx = Context::new();
    let cam_a = spawn_entities(&mut ctx, CAMERA | LOCAL_TRANSFORM, 1)[0];
    let plain = spawn_entities(&mut ctx, LOCAL_TRANSFORM, 1)[0];
    let cam_b = spawn_entities(&mut ctx, CAMERA | GLOBAL_TRANSFORM, 1)[0];
    assert_eq!(query_entities(&ctx, CAMERA), vec![cam_a, cam_b]);
    assert_eq!(query_entities(&ctx, LOCAL_TRANSFORM), vec![cam_a, plain]);
    assert_eq!(query_first_entity(&ctx, CAMERA), Some(cam_a));
    assert_eq!(query_nth_camera(&ctx, 1), Some(cam_b));
    assert_eq!(query_nth_camera(&ctx, 2), None);
    assert_eq!(query_first_entity(&ctx, PARENT), None);
}

#[test]
fn despawn_takes_live_handles_once() {
    let mut ctx = Context::new();
    let es = spawn_entities(&mut ctx, NAME, 3);
    assert!(set_name(&mut ctx, es[2], "c".to_string()));
    let stale = EntityId { id: es[2].id, generation: es[2].generation + 1 };
    let gone = despawn_entities(&mut ctx, &[es[1], es[0], es[1], stale]);
    assert_eq!(gone, vec![es[1], es[0]]);
    assert_eq!(component_mask(&ctx, es[0]), None);
    assert_eq!(component_mask(&ctx, es[1]), None);
    assert_eq!(get_name(&ctx, es[2]).map(|n| n.0.clone()), Some("c".to_string()));
    assert_eq!(ctx.tables[0].entity_indices, vec![es[2]]);
    assert_eq!(ctx.allocator.free_ids, vec![(es[1].id, 1), (es[0].id, 1)]);
    assert_eq!(query_entities(&ctx, NAME), vec![es[2]]);
}

#[test]
fn despawned_index_comes_back_with_a_new_generation() {
    let mut ctx = Context::new();
    let a = spawn_entities(&mut ctx, NAME, 1)[0];
    assert_eq!(despawn_entities(&mut ctx, &[a]), vec![a]);
    let b = spawn_entities(&mut ctx, NAME, 1)[0];
    assert_eq!(b.id, a.id);
    assert_ne!(b, a);
    assert_eq!(component_mask(&ctx, a), None);
    assert_eq!(component_mask(&ctx, b), Some(NAME));
    assert!(despawn_entities(&mut ctx, &[a]).is_empty());
}

#[test]
fn components_are_added_and_removed() {
    let mut ctx = Context::new();
    let a = spawn_entities(&mut ctx, NAME, 1)[0];
    assert!(set_name(&mut ctx, a, "kept".to_string()));
    assert!(add_components(&mut ctx, a, PARENT));
    assert_eq!(component_mask(&ctx, a), Some(NAME | PARENT));
    assert_eq!(get_name(&ctx, a).map(|n| n.0.clone()), Some("kept".to_string()));
    assert_eq!(get_parent(&ctx, a).map(|p| p.0), Some(EntityId { id: 0, generation: 0 }));
    assert!(remove_components(&mut ctx, a, NAME));
    assert_eq!(component_mask(&ctx, a), Some(PARENT));
    assert!(get_name(&ctx, a).is_none());
    let stale = EntityId { id: a.id, generation: a.generation + 1 };
    assert!(!add_components(&mut ctx, stale, CAMERA));
    assert!(!remove_components(&mut ctx, stale, PARENT));
}

#[test]
fn reparenting_under_a_descendant_is_a_cycle() {
    let mut ctx = Context::new();
    let root = spawn_entities(&mut ctx, NAME, 1)[0];
    let a = spawn_entities(&mut ctx, NAME | PARENT, 1)[0];
    let b = spawn_entities(&mut ctx, NAME | PARENT, 1)[0];
    assert!(set_parent(&mut ctx, a, root));
    assert!(set_parent(&mut ctx, b, a));
    assert!(would_create_cycle(&ctx, root, b));
    assert!(would_create_cycle(&ctx, a, b));
    assert!(would_create_cycle(&ctx, a, a));
    assert!(!would_create_cycle(&ctx, b, root));
    assert!(!would_create_cycle(&ctx, b, a));
}

#[test]
fn moving_components_moves_the_row() {
    let mut ctx = Context::new();
    let es = spawn_entities(&mut ctx, NAME, 3);
    assert!(add_components(&mut ctx, es[0], PARENT));
    assert_eq!(ctx.tables[0].entity_indices, vec![es[2], es[1]]);
    assert_eq!(ctx.tables[1].entity_indices, vec![es[0]]);
    assert_eq!(ctx.tables[1].mask, NAME | PARENT);
}
