//! The viewer's load inbox: assets fetched for the page and for the agent
//! waiting to be spawned, the acknowledgement of agent loads, the parent-first
//! order of a spawned model's entities, and the deferred load report.
use vstd::prelude::*;
use vstd::string::StringExecFns;

use crate::agent::{AgentState, Entity, ack_load, fail, refs_of};
use crate::browsers::{DownloadStep, ResourceDownload};
use crate::picking::SceneSync;
use crate::protocol::{AgentResponse, CorrelationId};

verus! {

/// A binary asset waiting to be loaded into the engine.
#[derive(Debug)]
pub enum PendingAsset {
    Model(Vec<u8>),
    ModelWithResources { gltf: Vec<u8>, resources: Vec<(String, Vec<u8>)> },
    Hdri(Vec<u8>),
}

/// A fetched multi-file model waiting to spawn additively, with the agent
/// command it answers.
#[derive(Debug)]
pub struct AgentModelLoad {
    pub correlation_id: u64,
    pub gltf: Vec<u8>,
    pub resources: Vec<(String, Vec<u8>)>,
}

/// The inbox of fetched assets and the label of the download in flight. The
/// agent's loads spawn additively and carry the command they answer.
#[derive(Debug)]
pub struct Incoming {
    pub asset: Option<PendingAsset>,
    pub loading: Option<String>,
    pub agent_loads: Vec<(u64, Vec<u8>)>,
    pub agent_hdris: Vec<(u64, Vec<u8>)>,
    pub agent_models: Vec<AgentModelLoad>,
}

impl Incoming {
    /// An empty inbox.
    pub fn new() -> (r: Incoming)
        ensures
            r.asset is None,
            r.loading is None,
            r.agent_loads@.len() == 0,
            r.agent_hdris@.len() == 0,
            r.agent_models@.len() == 0,
    {
        Incoming { asset: None, loading: None, agent_loads: Vec::new(), agent_hdris: Vec::new(), agent_models: Vec::new() }
    }
}

/// Takes the queued asset, if any, to load it this frame.
pub fn poll(incoming: &mut Incoming) -> (r: Option<PendingAsset>)
    ensures
        r == old(incoming).asset,
        final(incoming).asset is None,
        final(incoming).loading == old(incoming).loading,
        final(incoming).agent_loads@ == old(incoming).agent_loads@,
        final(incoming).agent_hdris@ == old(incoming).agent_hdris@,
        final(incoming).agent_models@ == old(incoming).agent_models@,
{
    incoming.asset.take()
}

/// Takes every queued agent glTF load, oldest first.
pub fn poll_agent_loads(incoming: &mut Incoming) -> (r: Vec<(u64, Vec<u8>)>)
    ensures
        r@ == old(incoming).agent_loads@,
        final(incoming).agent_loads@.len() == 0,
        final(incoming).agent_hdris@ == old(incoming).agent_hdris@,
        final(incoming).agent_models@ == old(incoming).agent_models@,
        final(incoming).asset == old(incoming).asset,
        final(incoming).loading == old(incoming).loading,
{
    let mut taken: Vec<(u64, Vec<u8>)> = Vec::new();
    std::mem::swap(&mut taken, &mut incoming.agent_loads);
    taken
}

/// Takes every queued agent HDRI load, oldest first.
pub fn poll_agent_hdris(incoming: &mut Incoming) -> (r: Vec<(u64, Vec<u8>)>)
    ensures
        r@ == old(incoming).agent_hdris@,
        final(incoming).agent_hdris@.len() == 0,
        final(incoming).agent_loads@ == old(incoming).agent_loads@,
        final(incoming).agent_models@ == old(incoming).agent_models@,
        final(incoming).asset == old(incoming).asset,
        final(incoming).loading == old(incoming).loading,
{
    let mut taken: Vec<(u64, Vec<u8>)> = Vec::new();
    std::mem::swap(&mut taken, &mut incoming.agent_hdris);
    taken
}

/// Takes every queued agent multi-file model, oldest first.
pub fn poll_agent_models(incoming: &mut Incoming) -> (r: Vec<AgentModelLoad>)
    ensures
        r@ == old(incoming).agent_models@,
        final(incoming).agent_models@.len() == 0,
        final(incoming).agent_loads@ == old(incoming).agent_loads@,
        final(incoming).agent_hdris@ == old(incoming).agent_hdris@,
        final(incoming).asset == old(incoming).asset,
        final(incoming).loading == old(incoming).loading,
{
    let mut taken: Vec<AgentModelLoad> = Vec::new();
    std::mem::swap(&mut taken, &mut incoming.agent_models);
    taken
}

/// The answer to an agent load once the import ran: the spawned roots, or
/// the import's failure.
pub fn load_outcome(state: &AgentState, correlation_id: CorrelationId, imported: Result<Vec<Entity>, String>) -> (r: AgentResponse)
    ensures
        match imported {
            Ok(roots) => match r {
                AgentResponse::Loaded { correlation_id: c, version, roots: reported } => c == correlation_id
                    && version == state.version && reported@ == refs_of(roots@),
                _ => false,
            },
            Err(error) => match r {
                AgentResponse::CommandFailed { correlation_id: c, error: e } => c == correlation_id && e@
                    == "import failed: "@ + error@,
                _ => false,
            },
        },
{
    match imported {
        Ok(roots) => ack_load(state, correlation_id, roots.as_slice()),
        Err(error) => {
            let mut message = String::from_str("import failed: ");
            message.append(error.as_str());
            fail(correlation_id, message.as_str())
        },
    }
}

/// A single-file download ended: its bytes, when it succeeded, wait as a
/// model (or an HDRI) to load, and the download slot is freed either way.
pub fn single_download_arrived(incoming: &mut Incoming, bytes: Option<Vec<u8>>, hdri: bool)
    ensures
        final(incoming).asset == match bytes {
            Some(b) => Some(if hdri { PendingAsset::Hdri(b) } else { PendingAsset::Model(b) }),
            None => old(incoming).asset,
        },
        final(incoming).loading is None,
        final(incoming).agent_loads@ == old(incoming).agent_loads@,
        final(incoming).agent_hdris@ == old(incoming).agent_hdris@,
        final(incoming).agent_models@ == old(incoming).agent_models@,
{
    if let Some(b) = bytes {
        incoming.asset = Some(if hdri { PendingAsset::Hdri(b) } else { PendingAsset::Model(b) });
    }
    incoming.loading = None;
}

/// A model's glTF download ended. A failed fetch frees the download slot; a
/// glTF that includes no files waits to load at once and frees the slot;
/// otherwise its included files are to be fetched, tracked by the returned
/// download, and the slot stays taken.
pub fn model_download_arrived(incoming: &mut Incoming, gltf: Option<Vec<u8>>, total: usize) -> (r: Option<ResourceDownload>)
    ensures
        final(incoming).agent_loads@ == old(incoming).agent_loads@,
        final(incoming).agent_hdris@ == old(incoming).agent_hdris@,
        final(incoming).agent_models@ == old(incoming).agent_models@,
        match gltf {
            None => r is None && final(incoming).asset == old(incoming).asset && final(incoming).loading is None,
            Some(g) => if total == 0 {
                &&& r is None
                &&& final(incoming).loading is None
                &&& final(incoming).asset matches Some(PendingAsset::ModelWithResources { gltf: stored, resources })
                    && stored == g && resources@.len() == 0
            } else {
                &&& r matches Some(d) && d.gltf == Some(g) && d.resources@.len() == 0 && d.fetched == 0 && !d.failed
                    && d.total == total
                &&& final(incoming).asset == old(incoming).asset
                &&& final(incoming).loading == old(incoming).loading
            },
        },
{
    match gltf {
        None => {
            incoming.loading = None;
            None
        },
        Some(g) => {
            if total == 0 {
                incoming.asset = Some(PendingAsset::ModelWithResources { gltf: g, resources: Vec::new() });
                incoming.loading = None;
                None
            } else {
                Some(ResourceDownload::new(g, total))
            }
        },
    }
}

/// Settles a model download after one of its included files arrived: a
/// complete download's glTF and files wait to load, and a complete or failed
/// download frees the download slot; a pending one changes nothing.
pub fn settle_download(incoming: &mut Incoming, step: DownloadStep)
    ensures
        final(incoming).agent_loads@ == old(incoming).agent_loads@,
        final(incoming).agent_hdris@ == old(incoming).agent_hdris@,
        final(incoming).agent_models@ == old(incoming).agent_models@,
        match step {
            DownloadStep::Pending => final(incoming).asset == old(incoming).asset && final(incoming).loading
                == old(incoming).loading,
            DownloadStep::Complete { gltf, resources } => final(incoming).asset == Some(
                PendingAsset::ModelWithResources { gltf, resources },
            ) && final(incoming).loading is None,
            DownloadStep::Failed => final(incoming).asset == old(incoming).asset && final(incoming).loading is None,
        },
{
    match step {
        DownloadStep::Pending => {},
        DownloadStep::Complete { gltf, resources } => {
            incoming.asset = Some(PendingAsset::ModelWithResources { gltf, resources });
            incoming.loading = None;
        },
        DownloadStep::Failed => {
            incoming.loading = None;
        },
    }
}

/// The model the viewer tracks: its root entities and all its entities,
/// parent first.
#[derive(Debug)]
pub struct Model {
    pub roots: Vec<Entity>,
    pub entities: Vec<Entity>,
}

/// What spawning an imported model added: its roots and its entities in
/// parent-first order (see [`ordered_entities`]).
#[derive(Debug)]
pub struct SpawnedModel {
    pub roots: Vec<Entity>,
    pub entities: Vec<Entity>,
}

/// The roots the successful loads of a list add to the model, in order.
pub open spec fn added_roots(outcomes: Seq<(u64, Result<SpawnedModel, String>)>) -> Seq<Entity>
    decreases outcomes.len(),
{
    if outcomes.len() == 0 {
        seq![]
    } else {
        added_roots(outcomes.drop_last()) + match outcomes.last().1 {
            Ok(spawned) => spawned.roots@,
            Err(_) => Seq::<Entity>::empty(),
        }
    }
}

/// The entities the successful loads of a list add to the model, in order; a
/// load that spawned no root adds nothing.
pub open spec fn added_entities(outcomes: Seq<(u64, Result<SpawnedModel, String>)>) -> Seq<Entity>
    decreases outcomes.len(),
{
    if outcomes.len() == 0 {
        seq![]
    } else {
        added_entities(outcomes.drop_last()) + match outcomes.last().1 {
            Ok(spawned) => if spawned.roots@.len() > 0 {
                spawned.entities@
            } else {
                Seq::<Entity>::empty()
            },
            Err(_) => Seq::<Entity>::empty(),
        }
    }
}

/// Whether a load spawned a root.
pub open spec fn spawns_root(outcome: (u64, Result<SpawnedModel, String>)) -> bool {
    match outcome.1 {
        Ok(spawned) => spawned.roots@.len() > 0,
        Err(_) => false,
    }
}

/// Whether some load of a list spawned a root.
pub open spec fn spawned_any(outcomes: Seq<(u64, Result<SpawnedModel, String>)>) -> bool {
    exists|k: int| 0 <= k < outcomes.len() && spawns_root(#[trigger] outcomes[k])
}

/// The reply to one agent load: the spawned roots at the current version, or
/// the import's error.
pub open spec fn load_reply(state: AgentState, outcome: (u64, Result<SpawnedModel, String>), r: AgentResponse) -> bool {
    match outcome.1 {
        Ok(spawned) => match r {
            AgentResponse::Loaded { correlation_id: c, version, roots } => c == outcome.0 && version == state.version
                && roots@ == refs_of(spawned.roots@),
            _ => false,
        },
        Err(error) => match r {
            AgentResponse::CommandFailed { correlation_id: c, error: e } => c == outcome.0 && e@ == "import failed: "@
                + error@,
            _ => false,
        },
    }
}

/// Settles the agent's additive loads, oldest first, from each import's
/// outcome: a spawned model's roots and entities are appended to the tracked
/// model (nothing is despawned, so the model's entities so far stay in front)
/// and the scene tree is flagged; each load is answered with its roots or
/// its import error. The selection is left alone.
pub fn settle_agent_loads(
    state: &AgentState,
    model: &mut Model,
    sync: &mut SceneSync,
    outcomes: Vec<(u64, Result<SpawnedModel, String>)>,
) -> (r: Vec<AgentResponse>)
    ensures
        final(model).roots@ == old(model).roots@ + added_roots(outcomes@),
        final(model).entities@ == old(model).entities@ + added_entities(outcomes@),
        final(sync).needs_tree == (old(sync).needs_tree || spawned_any(outcomes@)),
        final(sync).needs_selection == old(sync).needs_selection,
        r@.len() == outcomes@.len(),
        forall|k: int| 0 <= k < outcomes@.len() ==> load_reply(*state, #[trigger] outcomes@[k], r@[k]),
{
    let ghost all = outcomes@;
    let ghost roots0 = model.roots@;
    let ghost entities0 = model.entities@;
    let ghost tree0 = sync.needs_tree;
    let mut outcomes = outcomes;
    let n = outcomes.len();
    let mut replies: Vec<AgentResponse> = Vec::new();
    let mut k: usize = 0;
    while k < n
        invariant
            k <= n,
            n == all.len(),
            outcomes@.len() == n,
            forall|j: int| k <= j < n ==> outcomes@[j] == #[trigger] all[j],
            model.roots@ == roots0 + added_roots(all.take(k as int)),
            model.entities@ == entities0 + added_entities(all.take(k as int)),
            sync.needs_tree == (tree0 || spawned_any(all.take(k as int))),
            sync.needs_selection == old(sync).needs_selection,
            replies@.len() == k,
            forall|j: int| 0 <= j < k ==> load_reply(*state, #[trigger] all[j], replies@[j]),
        decreases n - k,
    {
        let mut item: (u64, Result<SpawnedModel, String>) = (0, Err(String::new()));
        outcomes.set_and_swap(k, &mut item);
        let ghost taken = item;
        let ghost prefix = all.take(k as int);
        proof {
            assert(all.take(k + 1).drop_last() =~= prefix);
            assert(all.take(k + 1).last() == taken);
        }
        let (correlation_id, imported) = item;
        let reply = match imported {
            Ok(spawned) => {
                let ghost added_r = spawned.roots@;
                let ghost added_e = spawned.entities@;
                let reply = ack_load(state, correlation_id, spawned.roots.as_slice());
                if spawned.roots.len() > 0 {
                    let mut roots = spawned.roots;
                    let mut entities = spawned.entities;
                    model.roots.append(&mut roots);
                    model.entities.append(&mut entities);
                    sync.needs_tree = true;
                    proof {
                        assert(spawned_any(all.take(k + 1))) by {
                            assert(all.take(k + 1)[k as int] == taken);
                        }
                    }
                } else {
                    proof {
                        assert(model.entities@ =~= entities0 + added_entities(all.take(k + 1)));
                        if spawned_any(all.take(k + 1)) {
                            let j = choose|j: int| 0 <= j < all.take(k + 1).len() && spawns_root(#[trigger] all.take(k + 1)[j]);
                            assert(j != k);
                            assert(all.take(k + 1)[j] == prefix[j]);
                        }
                        if spawned_any(prefix) {
                            let j = choose|j: int| 0 <= j < prefix.len() && spawns_root(#[trigger] prefix[j]);
                            assert(all.take(k + 1)[j] == prefix[j]);
                        }
                    }
                }
                proof {
                    assert(model.roots@ =~= roots0 + added_roots(all.take(k + 1)));
                    assert(model.entities@ =~= entities0 + added_entities(all.take(k + 1)));
                }
                reply
            },
            Err(error) => {
                let mut message = String::from_str("import failed: ");
                message.append(error.as_str());
                proof {
                    assert(model.roots@ =~= roots0 + added_roots(all.take(k + 1)));
                    assert(model.entities@ =~= entities0 + added_entities(all.take(k + 1)));
                    if spawned_any(all.take(k + 1)) {
                        let j = choose|j: int| 0 <= j < all.take(k + 1).len() && spawns_root(#[trigger] all.take(k + 1)[j]);
                        assert(j != k);
                        assert(all.take(k + 1)[j] == prefix[j]);
                    }
                    if spawned_any(prefix) {
                        let j = choose|j: int| 0 <= j < prefix.len() && spawns_root(#[trigger] prefix[j]);
                        assert(all.take(k + 1)[j] == prefix[j]);
                    }
                }
                fail(correlation_id, message.as_str())
            },
        };
        replies.push(reply);
        proof {
            assert(load_reply(*state, all[k as int], replies@[k as int]));
            if tree0 || spawned_any(prefix) {
                if spawned_any(prefix) {
                    let j = choose|j: int| 0 <= j < prefix.len() && spawns_root(#[trigger] prefix[j]);
                    assert(all.take(k + 1)[j] == prefix[j]);
                }
            }
        }
        k += 1;
    }
    proof {
        assert(all.take(n as int) =~= all);
    }
    replies
}

/// Whether a list of entities holds one with a raw id.
pub open spec fn has_id(entities: Seq<Entity>, id: u32) -> bool {
    exists|i: int| 0 <= i < entities.len() && entities[i].id == id
}

/// The spawned entities of a candidate list, each id once, at its first
/// occurrence, in list order.
pub open spec fn first_spawned(candidates: Seq<Entity>, spawned: Seq<u32>) -> Seq<Entity>
    decreases candidates.len(),
{
    if candidates.len() == 0 {
        seq![]
    } else {
        let before = first_spawned(candidates.drop_last(), spawned);
        let e = candidates.last();
        if spawned.contains(e.id) && !has_id(before, e.id) {
            before.push(e)
        } else {
            before
        }
    }
}

/// The candidates in hierarchy order: each root followed by its descendants,
/// then every transformable entity.
pub open spec fn hierarchy_candidates(roots: Seq<Entity>, descendants: Seq<Seq<Entity>>, transformable: Seq<Entity>) -> Seq<Entity>
    decreases roots.len(),
{
    if roots.len() == 0 {
        transformable
    } else {
        seq![roots[0]] + descendants[0] + hierarchy_candidates(roots.drop_first(), descendants.drop_first(), transformable)
    }
}

/// Whether a list holds a raw id.
fn holds_id(entities: &Vec<Entity>, id: u32) -> (r: bool)
    ensures
        r == has_id(entities@, id),
{
    let mut i: usize = 0;
    while i < entities.len()
        invariant
            i <= entities@.len(),
            forall|j: int| 0 <= j < i ==> entities@[j].id != id,
        decreases entities@.len() - i,
    {
        if entities[i].id == id {
            return true;
        }
        i += 1;
    }
    false
}

/// Whether a list of ids holds one.
fn holds_raw_id(ids: &Vec<u32>, id: u32) -> (r: bool)
    ensures
        r == ids@.contains(id),
{
    let mut i: usize = 0;
    while i < ids.len()
        invariant
            i <= ids@.len(),
            forall|j: int| 0 <= j < i ==> ids@[j] != id,
        decreases ids@.len() - i,
    {
        if ids[i] == id {
            assert(ids@[i as int] == id);
            return true;
        }
        i += 1;
    }
    false
}

/// Appends the spawned, not yet listed entities of a candidate list.
fn take_spawned(ordered: &mut Vec<Entity>, candidates: &Vec<Entity>, spawned: &Vec<u32>)
    ensures
        forall|prefix: Seq<Entity>| #[trigger] first_spawned(prefix, spawned@) == old(ordered)@ ==> first_spawned(
            prefix + candidates@,
            spawned@,
        ) == final(ordered)@,
{
    let ghost start = ordered@;
    let mut i: usize = 0;
    while i < candidates.len()
        invariant
            i <= candidates@.len(),
            forall|prefix: Seq<Entity>| #[trigger] first_spawned(prefix, spawned@) == start ==> first_spawned(
                prefix + candidates@.take(i as int),
                spawned@,
            ) == ordered@,
        decreases candidates@.len() - i,
    {
        let e = candidates[i];
        let keep = holds_raw_id(spawned, e.id) && !holds_id(ordered, e.id);
        let ghost before = ordered@;
        if keep {
            ordered.push(e);
        }
        proof {
            assert forall|prefix: Seq<Entity>| #[trigger] first_spawned(prefix, spawned@) == start implies first_spawned(
                prefix + candidates@.take(i + 1),
                spawned@,
            ) == ordered@ by {
                let p1 = prefix + candidates@.take(i + 1);
                assert(p1.drop_last() =~= prefix + candidates@.take(i as int));
                assert(p1.last() == e);
            }
        }
        i += 1;
    }
    assert(candidates@.take(candidates@.len() as int) =~= candidates@);
}

/// Orders a spawned model's entities parent first: each root and then its
/// descendants, then any spawned entity no root reached, each once.
pub fn ordered_entities(
    roots: &Vec<Entity>,
    descendants: &Vec<Vec<Entity>>,
    transformable: &Vec<Entity>,
    spawned: &Vec<u32>,
) -> (r: Vec<Entity>)
    requires
        descendants@.len() == roots@.len(),
    ensures
        r@ == first_spawned(
            hierarchy_candidates(roots@, Seq::new(descendants@.len(), |i: int| descendants@[i]@), transformable@),
            spawned@,
        ),
{
    let ghost ds = Seq::new(descendants@.len(), |i: int| descendants@[i]@);
    let mut ordered: Vec<Entity> = Vec::new();
    let mut k: usize = 0;
    assert(first_spawned(Seq::<Entity>::empty(), spawned@) == ordered@);
    while k < roots.len()
        invariant
            k <= roots@.len(),
            descendants@.len() == roots@.len(),
            ds == Seq::new(descendants@.len(), |i: int| descendants@[i]@),
            ordered@ == first_spawned(hierarchy_candidates(roots@.take(k as int), ds.take(k as int), Seq::empty()), spawned@),
        decreases roots@.len() - k,
    {
        let mut single: Vec<Entity> = Vec::new();
        single.push(roots[k]);
        let ghost prefix = hierarchy_candidates(roots@.take(k as int), ds.take(k as int), Seq::empty());
        take_spawned(&mut ordered, &single, spawned);
        take_spawned(&mut ordered, &descendants[k], spawned);
        proof {
            lemma_candidates_step(roots@, ds, k as int);
            assert(prefix + single@ + descendants@[k as int]@ == hierarchy_candidates(
                roots@.take(k + 1),
                ds.take(k + 1),
                Seq::empty(),
            ));
        }
        k += 1;
    }
    proof {
        assert(roots@.take(roots@.len() as int) =~= roots@);
        assert(ds.take(ds.len() as int) =~= ds);
    }
    take_spawned(&mut ordered, transformable, spawned);
    proof {
        lemma_candidates_split(roots@, ds, transformable@);
    }
    ordered
}

/// The candidates of the first `k + 1` roots extend those of the first `k`
/// by root `k` and its descendants.
proof fn lemma_candidates_step(roots: Seq<Entity>, ds: Seq<Seq<Entity>>, k: int)
    requires
        0 <= k < roots.len(),
        ds.len() == roots.len(),
    ensures
        hierarchy_candidates(roots.take(k + 1), ds.take(k + 1), Seq::empty()) == hierarchy_candidates(
            roots.take(k),
            ds.take(k),
            Seq::empty(),
        ) + seq![roots[k]] + ds[k],
    decreases k,
{
    if k == 0 {
        assert(roots.take(1).drop_first() =~= Seq::<Entity>::empty());
        assert(ds.take(1).drop_first() =~= Seq::<Seq<Entity>>::empty());
        assert(roots.take(0) =~= Seq::<Entity>::empty());
        assert(hierarchy_candidates(roots.take(0), ds.take(0), Seq::empty()) =~= Seq::<Entity>::empty());
        assert(hierarchy_candidates(roots.take(1).drop_first(), ds.take(1).drop_first(), Seq::empty()) =~= Seq::<Entity>::empty());
        assert(hierarchy_candidates(roots.take(1), ds.take(1), Seq::empty()) =~= seq![roots[0]] + ds[0]);
    } else {
        lemma_candidates_step(roots.drop_first(), ds.drop_first(), k - 1);
        assert(roots.take(k + 1).drop_first() =~= roots.drop_first().take(k));
        assert(ds.take(k + 1).drop_first() =~= ds.drop_first().take(k));
        assert(roots.take(k).drop_first() =~= roots.drop_first().take(k - 1));
        assert(ds.take(k).drop_first() =~= ds.drop_first().take(k - 1));
        assert(hierarchy_candidates(roots.take(k + 1), ds.take(k + 1), Seq::empty()) =~= seq![roots[0]] + ds[0]
            + hierarchy_candidates(roots.drop_first().take(k), ds.drop_first().take(k), Seq::empty()));
        assert(hierarchy_candidates(roots.take(k), ds.take(k), Seq::empty()) =~= seq![roots[0]] + ds[0]
            + hierarchy_candidates(roots.drop_first().take(k - 1), ds.drop_first().take(k - 1), Seq::empty()));
    }
}

/// The candidates with trailing entities are those without, followed by them.
proof fn lemma_candidates_split(roots: Seq<Entity>, ds: Seq<Seq<Entity>>, rest: Seq<Entity>)
    ensures
        hierarchy_candidates(roots, ds, rest) == hierarchy_candidates(roots, ds, Seq::empty()) + rest,
    decreases roots.len(),
{
    if roots.len() == 0 {
        assert(Seq::<Entity>::empty() + rest =~= rest);
    } else {
        lemma_candidates_split(roots.drop_first(), ds.drop_first(), rest);
        assert(seq![roots[0]] + ds[0] + (hierarchy_candidates(roots.drop_first(), ds.drop_first(), Seq::empty()) + rest)
            =~= seq![roots[0]] + ds[0] + hierarchy_candidates(roots.drop_first(), ds.drop_first(), Seq::empty()) + rest);
    }
}

/// A load report waiting to be sent: how many frames it still waits, so the
/// model's dimensions are measured from updated transforms.
#[derive(Clone, Copy, Debug)]
pub struct ReportDelay {
    pub delay: u32,
}

/// Counts a pending report down: with none nothing happens; while it still
/// waits, one frame less; else it is taken to be sent now (returned true).
pub fn flush_report(report: &mut Option<ReportDelay>) -> (r: bool)
    ensures
        match *old(report) {
            None => !r && *final(report) == *old(report),
            Some(p) => if p.delay > 0 {
                !r && *final(report) == Some(ReportDelay { delay: (p.delay - 1) as u32 })
            } else {
                r && *final(report) is None
            },
        },
{
    match *report {
        None => false,
        Some(p) => {
            if p.delay > 0 {
                *report = Some(ReportDelay { delay: p.delay - 1 });
                false
            } else {
                *report = None;
                true
            }
        },
    }
}

} // verus!
