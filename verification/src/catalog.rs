//! The asset catalog the agent reads: each browser index as JSON, or the
//! state of its fetch while it is not loaded.
use vstd::prelude::*;

use crate::browsers::{Browsers, FetchState, KhronosAsset, KhronosAssetView, PolyAsset, PolyAssetView};
use crate::json::{JsonValue, JsonView, lemma_array_view, lemma_object_view, items_view, pairs_view, text};

verus! {

/// How an index that is not loaded reads: its fetch state.
pub open spec fn status_view<T>(state: FetchState<T>) -> JsonView {
    match state {
        FetchState::Idle => JsonView::String("idle (call refresh_browsers)"@),
        FetchState::Loading => JsonView::String("loading"@),
        FetchState::Failed => JsonView::String("failed"@),
        FetchState::Loaded(_) => JsonView::Null,
    }
}

/// A Khronos model as the catalog lists it: its download URL (null when it
/// has no binary variant), label and name.
pub open spec fn khronos_item(a: KhronosAssetView) -> JsonView {
    JsonView::Object(
        seq![
            ("glb_url"@, match a.glb_url {
                Some(u) => JsonView::String(u),
                None => JsonView::Null,
            }),
            ("label"@, JsonView::String(a.label)),
            ("name"@, JsonView::String(a.name)),
        ],
    )
}

/// A Polyhaven asset as the catalog lists it: its name and slug.
pub open spec fn poly_item(a: PolyAssetView) -> JsonView {
    JsonView::Object(seq![("name"@, JsonView::String(a.name)), ("slug"@, JsonView::String(a.slug))])
}

/// The Khronos index in the catalog.
pub open spec fn spec_khronos_list(state: FetchState<Vec<KhronosAsset>>) -> JsonView {
    match state {
        FetchState::Loaded(assets) => JsonView::Array(Seq::new(assets@.len(), |i: int| khronos_item(assets@[i]@))),
        other => status_view(other),
    }
}

/// A Polyhaven index in the catalog.
pub open spec fn spec_polyhaven_list(state: FetchState<Vec<PolyAsset>>) -> JsonView {
    match state {
        FetchState::Loaded(assets) => JsonView::Array(Seq::new(assets@.len(), |i: int| poly_item(assets@[i]@))),
        other => status_view(other),
    }
}

/// The whole catalog: the HDRIs, the Khronos models and the Polyhaven models.
pub open spec fn spec_asset_catalog(browsers: Browsers) -> JsonView {
    JsonView::Object(
        seq![
            ("hdris"@, spec_polyhaven_list(browsers.hdris)),
            ("khronos"@, spec_khronos_list(browsers.khronos)),
            ("models"@, spec_polyhaven_list(browsers.models)),
        ],
    )
}

/// Writes an index's fetch state.
fn status<T>(state: &FetchState<T>) -> (r: JsonValue)
    requires
        !(state is Loaded),
    ensures
        r@ == status_view(*state),
{
    match state {
        FetchState::Idle => text("idle (call refresh_browsers)"),
        FetchState::Loading => text("loading"),
        FetchState::Failed => text("failed"),
        FetchState::Loaded(_) => JsonValue::Null,
    }
}

/// Lists a Khronos model.
fn khronos_value(a: &KhronosAsset) -> (r: JsonValue)
    ensures
        r@ == khronos_item(a@),
{
    let url = match &a.glb_url {
        Some(u) => JsonValue::String(u.clone()),
        None => JsonValue::Null,
    };
    let mut members: Vec<(String, JsonValue)> = Vec::new();
    members.push((String::from_str("glb_url"), url));
    members.push((String::from_str("label"), JsonValue::String(a.label.clone())));
    members.push((String::from_str("name"), JsonValue::String(a.name.clone())));
    let r = JsonValue::Object(members);
    proof {
        lemma_object_view(&r);
        assert(pairs_view(members@) =~= khronos_item(a@)->Object_0);
    }
    r
}

/// Lists a Polyhaven asset.
fn poly_value(a: &PolyAsset) -> (r: JsonValue)
    ensures
        r@ == poly_item(a@),
{
    let mut members: Vec<(String, JsonValue)> = Vec::new();
    members.push((String::from_str("name"), JsonValue::String(a.name.clone())));
    members.push((String::from_str("slug"), JsonValue::String(a.slug.clone())));
    let r = JsonValue::Object(members);
    proof {
        lemma_object_view(&r);
        assert(pairs_view(members@) =~= poly_item(a@)->Object_0);
    }
    r
}

/// The Khronos index as the catalog shows it.
pub fn khronos_list(state: &FetchState<Vec<KhronosAsset>>) -> (r: JsonValue)
    ensures
        r@ == spec_khronos_list(*state),
{
    match state {
        FetchState::Loaded(assets) => {
            let mut items: Vec<JsonValue> = Vec::new();
            let mut i: usize = 0;
            while i < assets.len()
                invariant
                    i <= assets@.len(),
                    items@.len() == i,
                    forall|k: int| 0 <= k < i ==> #[trigger] items@[k]@ == khronos_item(assets@[k]@),
                decreases assets@.len() - i,
            {
                items.push(khronos_value(&assets[i]));
                i += 1;
            }
            let r = JsonValue::Array(items);
            proof {
                lemma_array_view(&r);
                assert(items_view(items@) =~= Seq::new(assets@.len(), |k: int| khronos_item(assets@[k]@)));
            }
            r
        },
        _ => status(state),
    }
}

/// A Polyhaven index as the catalog shows it.
pub fn polyhaven_list(state: &FetchState<Vec<PolyAsset>>) -> (r: JsonValue)
    ensures
        r@ == spec_polyhaven_list(*state),
{
    match state {
        FetchState::Loaded(assets) => {
            let mut items: Vec<JsonValue> = Vec::new();
            let mut i: usize = 0;
            while i < assets.len()
                invariant
                    i <= assets@.len(),
                    items@.len() == i,
                    forall|k: int| 0 <= k < i ==> #[trigger] items@[k]@ == poly_item(assets@[k]@),
                decreases assets@.len() - i,
            {
                items.push(poly_value(&assets[i]));
                i += 1;
            }
            let r = JsonValue::Array(items);
            proof {
                lemma_array_view(&r);
                assert(items_view(items@) =~= Seq::new(assets@.len(), |k: int| poly_item(assets@[k]@)));
            }
            r
        },
        _ => status(state),
    }
}

/// The asset catalog: every browser index, listed or with its fetch state.
pub fn asset_catalog(browsers: &Browsers) -> (r: JsonValue)
    ensures
        r@ == spec_asset_catalog(*browsers),
{
    let mut members: Vec<(String, JsonValue)> = Vec::new();
    members.push((String::from_str("hdris"), polyhaven_list(&browsers.hdris)));
    members.push((String::from_str("khronos"), khronos_list(&browsers.khronos)));
    members.push((String::from_str("models"), polyhaven_list(&browsers.models)));
    let r = JsonValue::Object(members);
    proof {
        lemma_object_view(&r);
        assert(pairs_view(members@) =~= spec_asset_catalog(*browsers)->Object_0);
    }
    r
}

} // verus!
