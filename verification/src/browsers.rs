//! The asset browsers: the Khronos and Polyhaven index lists, the choice of a
//! download resolution, and the fetch state machine that streams the lists to
//! the page and guards the single in-flight download.
use vstd::prelude::*;
use vstd::string::{StrSliceExecFns, StringExecFns};

use crate::order::{stable_order, stable_sort_by_keys, stably_sorted, texts};
use crate::protocol::{KhronosEntry, PolyhavenEntry};
use crate::seqs::{first_where, lemma_first_where, lemma_first_where_is, lemma_first_where_none};
use crate::text::{lowercase, parse_bounded, spec_parse_bounded, to_lowercase};

verus! {

/// A text with every trailing `k` or `K` removed.
pub open spec fn trim_k(s: Seq<char>) -> Seq<char>
    decreases s.len(),
{
    if s.len() > 0 && (s.last() == 'k' || s.last() == 'K') {
        trim_k(s.drop_last())
    } else {
        s
    }
}

/// The resolution a key such as `"2k"` or `"8K"` names, in k; a key that is
/// not a number names the largest value, so that it sorts last.
pub open spec fn spec_resolution_value(key: Seq<char>) -> u32 {
    match spec_parse_bounded(trim_k(key), u32::MAX as nat) {
        Some(v) => v as u32,
        None => u32::MAX,
    }
}

/// Reads a resolution key in k.
pub fn resolution_value(key: &str) -> (r: u32)
    ensures
        r == spec_resolution_value(key@),
{
    let mut end = key.unicode_len();
    let mut done = false;
    assert(key@.take(end as int) =~= key@);
    while end > 0 && !done
        invariant
            end <= key@.len(),
            trim_k(key@) == trim_k(key@.take(end as int)),
            done ==> end > 0 && key@[end - 1] != 'k' && key@[end - 1] != 'K',
        decreases end, if done { 0int } else { 1int },
    {
        let c = key.get_char(end - 1);
        if c != 'k' && c != 'K' {
            done = true;
        } else {
            assert(key@.take(end as int).drop_last() =~= key@.take(end - 1));
            end -= 1;
        }
    }
    assert(trim_k(key@.take(end as int)) == key@.take(end as int)) by {
        if end > 0 {
            assert(key@.take(end as int).last() == key@[end - 1]);
        }
    }
    assert(key@.take(end as int) =~= key@.subrange(0, end as int));
    let trimmed = key.substring_char(0, end);
    match parse_bounded(trimmed, u32::MAX as u64) {
        Some(v) => v as u32,
        None => u32::MAX,
    }
}

/// The first index holding the value `v`, if any.
pub open spec fn first_with(values: Seq<u32>, v: u32) -> Option<int> {
    if exists|i: int| 0 <= i < values.len() && values[i] == v {
        Some(choose|i: int| 0 <= i < values.len() && values[i] == v && forall|j: int| 0 <= j < i ==> values[j] != v)
    } else {
        None
    }
}

/// The last index holding the value `v`, if any.
pub open spec fn last_with(values: Seq<u32>, v: u32) -> Option<int> {
    if exists|i: int| 0 <= i < values.len() && values[i] == v {
        Some(choose|i: int| 0 <= i < values.len() && values[i] == v && forall|j: int| i < j < values.len() ==> values[j] != v)
    } else {
        None
    }
}

/// Whether `m` is the largest value no larger than `preferred`.
pub open spec fn is_best_below(values: Seq<u32>, preferred: u32, m: u32) -> bool {
    &&& m <= preferred
    &&& exists|i: int| 0 <= i < values.len() && values[i] == m
    &&& forall|i: int| 0 <= i < values.len() && values[i] <= preferred ==> values[i] <= m
}

/// Whether `m` is the smallest value.
pub open spec fn is_smallest(values: Seq<u32>, m: u32) -> bool {
    &&& exists|i: int| 0 <= i < values.len() && values[i] == m
    &&& forall|i: int| 0 <= i < values.len() ==> m <= values[i]
}

/// Which entry a resolution choice takes: the first with exactly the preferred
/// value; else, of the entries with the largest value below it, the last;
/// else, of the entries with the smallest value, the first; nothing from an
/// empty list.
pub open spec fn chosen_resolution(values: Seq<u32>, preferred: u32) -> Option<int> {
    if values.len() == 0 {
        None
    } else if exists|i: int| 0 <= i < values.len() && values[i] == preferred {
        first_with(values, preferred)
    } else if exists|i: int| 0 <= i < values.len() && values[i] <= preferred {
        last_with(values, choose|m: u32| is_best_below(values, preferred, m))
    } else {
        first_with(values, choose|m: u32| is_smallest(values, m))
    }
}

/// The resolution values of a list of entries.
pub open spec fn values_of<T>(entries: Seq<(u32, T)>) -> Seq<u32> {
    Seq::new(entries.len(), |i: int| entries[i].0)
}

/// Picks the exact requested resolution, else the highest available below
/// it, else the smallest; among equal resolutions the order of the list
/// decides as a stable sort by resolution would.
pub fn pick_resolution<T>(entries: Vec<(u32, T)>, preferred: u32) -> (r: Option<T>)
    ensures
        match chosen_resolution(values_of(entries@), preferred) {
            Some(i) => r == Some(entries@[i].1),
            None => r is None,
        },
{
    let ghost values = values_of(entries@);
    let ghost pool0 = entries@;
    let mut pool = entries;
    let n = pool.len();
    if n == 0 {
        return None;
    }
    // The first entry with exactly the preferred value.
    let mut i: usize = 0;
    while i < n
        invariant
            i <= n,
            n == pool@.len(),
            pool@ == pool0,
            pool0 == entries@,
            values == values_of(pool0),
            forall|j: int| 0 <= j < i ==> values[j] != preferred,
        decreases n - i,
    {
        if pool[i].0 == preferred {
            proof {
                assert(values[i as int] == preferred);
                let f = first_with(values, preferred);
                assert(f == Some(i as int)) by {
                    let c = choose|k: int| 0 <= k < values.len() && values[k] == preferred && forall|j: int| 0 <= j < k ==> values[j] != preferred;
                    assert(0 <= c < values.len() && values[c] == preferred);
                    if c < i as int {
                        assert(values[c] != preferred);
                    }
                    if c > i as int {
                        assert(values[i as int] != preferred);
                    }
                }
            }
            let (_, value) = pool.swap_remove(i);
            return Some(value);
        }
        i += 1;
    }
    assert(!exists|k: int| 0 <= k < values.len() && values[k] == preferred);
    // The largest value below the preferred one, its last entry.
    let mut found: bool = false;
    let mut best: usize = 0;
    let mut k: usize = 0;
    while k < n
        invariant
            k <= n,
            n == pool@.len(),
            pool@ == pool0,
            pool0 == entries@,
            values == values_of(pool0),
            found ==> best < k && values[best as int] <= preferred,
            found ==> forall|j: int| 0 <= j < k && values[j] <= preferred ==> values[j] <= values[best as int],
            found ==> forall|j: int| best < j < k ==> values[j] != values[best as int],
            !found ==> forall|j: int| 0 <= j < k ==> values[j] > preferred,
        decreases n - k,
    {
        let v = pool[k].0;
        if v <= preferred && (!found || v >= pool[best].0) {
            found = true;
            best = k;
        }
        k += 1;
    }
    if found {
        proof {
            let m = values[best as int];
            assert(is_best_below(values, preferred, m));
            let chosen_m = choose|m: u32| is_best_below(values, preferred, m);
            assert(is_best_below(values, preferred, chosen_m));
            assert(chosen_m == m) by {
                let w = choose|i: int| 0 <= i < values.len() && values[i] == chosen_m;
                assert(values[w] <= m);
                assert(m <= chosen_m);
            }
            let l = last_with(values, m);
            assert(l == Some(best as int)) by {
                let c = choose|c: int| 0 <= c < values.len() && values[c] == m && forall|j: int| c < j < values.len() ==> values[j] != m;
                assert(0 <= c < values.len() && values[c] == m);
                if c < best as int {
                    assert(values[best as int] != m);
                }
                if c > best as int {
                    assert(values[c] != m);
                }
            }
        }
        let (_, value) = pool.swap_remove(best);
        return Some(value);
    }
    // The smallest value, its first entry.
    let mut least: usize = 0;
    let mut k: usize = 1;
    while k < n
        invariant
            1 <= k <= n,
            n == pool@.len(),
            pool@ == pool0,
            pool0 == entries@,
            values == values_of(pool0),
            least < k,
            forall|j: int| 0 <= j < k ==> values[least as int] <= values[j],
            forall|j: int| 0 <= j < least ==> values[j] != values[least as int],
        decreases n - k,
    {
        if pool[k].0 < pool[least].0 {
            least = k;
        }
        k += 1;
    }
    proof {
        let m = values[least as int];
        assert(is_smallest(values, m));
        let chosen_m = choose|m: u32| is_smallest(values, m);
        assert(is_smallest(values, chosen_m));
        assert(chosen_m == m) by {
            let w = choose|i: int| 0 <= i < values.len() && values[i] == chosen_m;
            assert(m <= values[w]);
            assert(chosen_m <= m);
        }
        assert(!exists|i: int| 0 <= i < values.len() && values[i] <= preferred);
        let f = first_with(values, m);
        assert(f == Some(least as int)) by {
            let c = choose|c: int| 0 <= c < values.len() && values[c] == m && forall|j: int| 0 <= j < c ==> values[j] != m;
            assert(0 <= c < values.len() && values[c] == m);
            if c < least as int {
                assert(values[c] != m);
            }
            if c > least as int {
                assert(values[least as int] != m);
            }
        }
    }
    let (_, value) = pool.swap_remove(least);
    Some(value)
}


/// Where the Khronos sample models live.
pub const KHRONOS_BASE: &'static str = "https://raw.githubusercontent.com/KhronosGroup/glTF-Sample-Assets/main/Models";

/// The Khronos sample-model index.
pub const KHRONOS_INDEX: &'static str = "https://raw.githubusercontent.com/KhronosGroup/glTF-Sample-Assets/main/Models/model-index.json";

/// The Polyhaven HDRI index.
pub const POLYHAVEN_HDRIS: &'static str = "https://api.polyhaven.com/assets?type=hdris";

/// The Polyhaven model index.
pub const POLYHAVEN_MODELS: &'static str = "https://api.polyhaven.com/assets?type=models";

/// Where a Polyhaven asset's file list is found, by slug.
pub const POLYHAVEN_FILES: &'static str = "https://api.polyhaven.com/files/";

/// Where a Polyhaven asset's thumbnail is found, by slug.
pub const POLYHAVEN_THUMB: &'static str = "https://cdn.polyhaven.com/asset_img/thumbs/";

/// The query a Polyhaven thumbnail is fetched with.
pub const THUMB_SUFFIX: &'static str = ".png?width=256&height=256";

/// The text of an optional string.
pub open spec fn opt_text(o: Option<String>) -> Option<Seq<char>> {
    match o {
        Some(s) => Some(s@),
        None => None,
    }
}

/// A Khronos index record as the index lists it: the label, the model's
/// directory name, its variants (variant name to file name, in key order) and
/// an optional screenshot path.
#[derive(Debug)]
pub struct KhronosRaw {
    pub label: String,
    pub name: String,
    pub variants: Vec<(String, String)>,
    pub screenshot: Option<String>,
}

/// The model of a [`KhronosRaw`].
pub struct KhronosRawView {
    pub label: Seq<char>,
    pub name: Seq<char>,
    pub variants: Seq<(Seq<char>, Seq<char>)>,
    pub screenshot: Option<Seq<char>>,
}

impl View for KhronosRaw {
    type V = KhronosRawView;

    open spec fn view(&self) -> KhronosRawView {
        KhronosRawView {
            label: self.label@,
            name: self.name@,
            variants: Seq::new(self.variants@.len(), |i: int| (self.variants@[i].0@, self.variants@[i].1@)),
            screenshot: opt_text(self.screenshot),
        }
    }
}

/// A Khronos sample-asset index entry.
#[derive(Debug)]
pub struct KhronosAsset {
    pub name: String,
    pub label: String,
    pub glb_url: Option<String>,
    pub thumbnail: Option<String>,
}

/// The model of a [`KhronosAsset`].
pub struct KhronosAssetView {
    pub name: Seq<char>,
    pub label: Seq<char>,
    pub glb_url: Option<Seq<char>>,
    pub thumbnail: Option<Seq<char>>,
}

impl View for KhronosAsset {
    type V = KhronosAssetView;

    open spec fn view(&self) -> KhronosAssetView {
        KhronosAssetView {
            name: self.name@,
            label: self.label@,
            glb_url: opt_text(self.glb_url),
            thumbnail: opt_text(self.thumbnail),
        }
    }
}

/// The models of a list of Khronos assets.
pub open spec fn khronos_views(assets: Seq<KhronosAsset>) -> Seq<KhronosAssetView> {
    Seq::new(assets.len(), |i: int| assets[i]@)
}

/// The predicate "this variant is the binary glTF one".
pub open spec fn is_binary_variant() -> spec_fn((Seq<char>, Seq<char>)) -> bool {
    |v: (Seq<char>, Seq<char>)| v.0 == "glTF-Binary"@
}

/// The file of a record's binary glTF variant, if it has one.
pub open spec fn binary_file(variants: Seq<(Seq<char>, Seq<char>)>) -> Option<Seq<char>> {
    match first_where(variants, is_binary_variant()) {
        Some(i) => Some(variants[i].1),
        None => None,
    }
}

/// The browser entry of a Khronos record: the binary variant's download URL
/// and the screenshot's URL, both under the model's directory.
pub open spec fn spec_khronos_asset(raw: KhronosRawView) -> KhronosAssetView {
    KhronosAssetView {
        name: raw.name,
        label: raw.label,
        glb_url: match binary_file(raw.variants) {
            Some(file) => Some(KHRONOS_BASE@ + "/"@ + raw.name + "/glTF-Binary/"@ + file),
            None => None,
        },
        thumbnail: match raw.screenshot {
            Some(path) => Some(KHRONOS_BASE@ + "/"@ + raw.name + "/"@ + path),
            None => None,
        },
    }
}

/// The predicate "this entry can be downloaded".
pub open spec fn downloadable() -> spec_fn(KhronosAssetView) -> bool {
    |a: KhronosAssetView| a.glb_url is Some
}

/// The entries the Khronos browser lists, in index order: those with a binary
/// glTF variant.
pub open spec fn listed_khronos(raw: Seq<KhronosRawView>) -> Seq<KhronosAssetView> {
    raw.map_values(|r: KhronosRawView| spec_khronos_asset(r)).filter(downloadable())
}

/// The keys the Khronos browser sorts by: the lowercased labels.
pub open spec fn label_keys(assets: Seq<KhronosAssetView>) -> Seq<Seq<char>> {
    assets.map_values(|a: KhronosAssetView| lowercase(a.label))
}

/// The models of a list of Khronos records.
pub open spec fn khronos_raw_views(raw: Seq<KhronosRaw>) -> Seq<KhronosRawView> {
    Seq::new(raw.len(), |i: int| raw[i]@)
}

/// Finds the file of a record's binary glTF variant.
fn find_binary_file(raw: &KhronosRaw) -> (r: Option<&String>)
    ensures
        match binary_file(raw@.variants) {
            Some(f) => r is Some && r->Some_0@ == f,
            None => r is None,
        },
{
    let ghost vs = raw@.variants;
    proof {
        lemma_first_where(vs, is_binary_variant());
    }
    let key = String::from_str("glTF-Binary");
    let mut i: usize = 0;
    while i < raw.variants.len()
        invariant
            i <= raw.variants@.len(),
            vs == raw@.variants,
            key@ == "glTF-Binary"@,
            forall|j: int| 0 <= j < i ==> !(is_binary_variant())(#[trigger] vs[j]),
        decreases raw.variants@.len() - i,
    {
        if raw.variants[i].0 == key {
            proof {
                lemma_first_where_is(vs, is_binary_variant(), i as int);
            }
            return Some(&raw.variants[i].1);
        }
        assert(vs[i as int].0 == raw.variants@[i as int].0@);
        i += 1;
    }
    proof {
        lemma_first_where_none(vs, is_binary_variant());
    }
    None
}

/// Builds the browser entry of a Khronos record.
fn khronos_asset(raw: &KhronosRaw) -> (r: KhronosAsset)
    ensures
        r@ == spec_khronos_asset(raw@),
{
    let glb_url = match find_binary_file(raw) {
        Some(file) => {
            let mut url = String::from_str(KHRONOS_BASE);
            url.append("/");
            url.append(raw.name.as_str());
            url.append("/glTF-Binary/");
            url.append(file.as_str());
            Some(url)
        },
        None => None,
    };
    let thumbnail = match &raw.screenshot {
        Some(path) => {
            let mut url = String::from_str(KHRONOS_BASE);
            url.append("/");
            url.append(raw.name.as_str());
            url.append("/");
            url.append(path.as_str());
            Some(url)
        },
        None => None,
    };
    KhronosAsset { name: raw.name.clone(), label: raw.label.clone(), glb_url, thumbnail }
}

/// Builds the Khronos browser list: the downloadable records, sorted by
/// lowercased label with ties in index order.
pub fn khronos_entries(raw: Vec<KhronosRaw>) -> (r: Vec<KhronosAsset>)
    ensures
        stably_sorted(
            listed_khronos(khronos_raw_views(raw@)),
            label_keys(listed_khronos(khronos_raw_views(raw@))),
            khronos_views(r@),
        ),
{
    let ghost rv = khronos_raw_views(raw@);
    let ghost mapped = rv.map_values(|r: KhronosRawView| spec_khronos_asset(r));
    let mut kept: Vec<KhronosAsset> = Vec::new();
    let mut keys: Vec<String> = Vec::new();
    let mut i: usize = 0;
    while i < raw.len()
        invariant
            i <= raw@.len(),
            rv == khronos_raw_views(raw@),
            mapped == rv.map_values(|r: KhronosRawView| spec_khronos_asset(r)),
            khronos_views(kept@) == mapped.take(i as int).filter(downloadable()),
            texts(keys@) == label_keys(khronos_views(kept@)),
        decreases raw@.len() - i,
    {
        proof {
            reveal_with_fuel(Seq::<_>::filter, 1);
            assert(mapped.take(i + 1).drop_last() =~= mapped.take(i as int));
        }
        let asset = khronos_asset(&raw[i]);
        assert(asset@ == mapped[i as int]);
        if asset.glb_url.is_some() {
            let key = to_lowercase(asset.label.as_str());
            let ghost before = khronos_views(kept@);
            let ghost before_keys = texts(keys@);
            let ghost av = asset@;
            kept.push(asset);
            keys.push(key);
            assert(khronos_views(kept@) =~= before.push(av));
            assert(texts(keys@) =~= before_keys.push(lowercase(av.label)));
            assert(label_keys(khronos_views(kept@)) =~= label_keys(before).push(lowercase(av.label)));
        }
        i += 1;
    }
    assert(mapped.take(raw@.len() as int) =~= mapped);
    let ghost items = kept@;
    let ghost listed = khronos_views(items);
    let sorted = stable_sort_by_keys(kept, keys);
    proof {
        let perm = choose|perm: Seq<int>|
            stable_order(label_keys(listed), perm) && sorted@.len() == items.len() && forall|k: int|
                0 <= k < sorted@.len() ==> #[trigger] sorted@[k] == items[perm[k]];
        assert(forall|k: int| 0 <= k < sorted@.len() ==> #[trigger] khronos_views(sorted@)[k] == listed[perm[k]]);
    }
    sorted
}


/// A Polyhaven index entry (HDRI or model).
#[derive(Debug)]
pub struct PolyAsset {
    pub slug: String,
    pub name: String,
    pub thumbnail: String,
}

/// The model of a [`PolyAsset`].
pub struct PolyAssetView {
    pub slug: Seq<char>,
    pub name: Seq<char>,
    pub thumbnail: Seq<char>,
}

impl View for PolyAsset {
    type V = PolyAssetView;

    open spec fn view(&self) -> PolyAssetView {
        PolyAssetView { slug: self.slug@, name: self.name@, thumbnail: self.thumbnail@ }
    }
}

/// The models of a list of Polyhaven assets.
pub open spec fn poly_views(assets: Seq<PolyAsset>) -> Seq<PolyAssetView> {
    Seq::new(assets.len(), |i: int| assets[i]@)
}

/// A Polyhaven index record: the asset's display name.
#[derive(Debug)]
pub struct PolyRaw {
    pub name: String,
}

/// The browser entry of a Polyhaven record listed under a slug.
pub open spec fn spec_poly_asset(slug: Seq<char>, name: Seq<char>) -> PolyAssetView {
    PolyAssetView { slug, name, thumbnail: POLYHAVEN_THUMB@ + slug + THUMB_SUFFIX@ }
}

/// The entries a Polyhaven browser lists, in index order.
pub open spec fn listed_poly(raw: Seq<(String, PolyRaw)>) -> Seq<PolyAssetView> {
    Seq::new(raw.len(), |i: int| spec_poly_asset(raw[i].0@, raw[i].1.name@))
}

/// The keys a Polyhaven browser sorts by: the lowercased names.
pub open spec fn name_keys(assets: Seq<PolyAssetView>) -> Seq<Seq<char>> {
    assets.map_values(|a: PolyAssetView| lowercase(a.name))
}

/// Builds a Polyhaven browser list from the index (slug to record): every
/// asset with its thumbnail URL, sorted by lowercased name with ties in index
/// order.
pub fn poly_entries(raw: Vec<(String, PolyRaw)>) -> (r: Vec<PolyAsset>)
    ensures
        stably_sorted(listed_poly(raw@), name_keys(listed_poly(raw@)), poly_views(r@)),
{
    let ghost listed = listed_poly(raw@);
    let mut assets: Vec<PolyAsset> = Vec::new();
    let mut keys: Vec<String> = Vec::new();
    let mut i: usize = 0;
    while i < raw.len()
        invariant
            i <= raw@.len(),
            listed == listed_poly(raw@),
            poly_views(assets@) == listed.take(i as int),
            texts(keys@) == name_keys(poly_views(assets@)),
        decreases raw@.len() - i,
    {
        let slug = &raw[i].0;
        let mut thumbnail = String::from_str(POLYHAVEN_THUMB);
        thumbnail.append(slug.as_str());
        thumbnail.append(THUMB_SUFFIX);
        let asset = PolyAsset { slug: slug.clone(), name: raw[i].1.name.clone(), thumbnail };
        let key = to_lowercase(asset.name.as_str());
        let ghost before = poly_views(assets@);
        let ghost before_keys = texts(keys@);
        let ghost av = asset@;
        assert(av == listed[i as int]);
        assets.push(asset);
        keys.push(key);
        assert(poly_views(assets@) =~= listed.take(i + 1));
        assert(texts(keys@) =~= before_keys.push(lowercase(av.name)));
        assert(name_keys(poly_views(assets@)) =~= name_keys(before).push(lowercase(av.name)));
        i += 1;
    }
    assert(listed.take(raw@.len() as int) =~= listed);
    let ghost items = assets@;
    let sorted = stable_sort_by_keys(assets, keys);
    proof {
        let perm = choose|perm: Seq<int>|
            stable_order(name_keys(listed), perm) && sorted@.len() == items.len() && forall|k: int|
                0 <= k < sorted@.len() ==> #[trigger] sorted@[k] == items[perm[k]];
        assert(forall|k: int| 0 <= k < sorted@.len() ==> #[trigger] poly_views(sorted@)[k] == listed[perm[k]]);
    }
    sorted
}


/// The fetch state of a browser index.
#[derive(Debug)]
pub enum FetchState<T> {
    Idle,
    Loading,
    Loaded(T),
    Failed,
}

/// The three browser indexes and whether each list has been sent to the page.
#[derive(Debug)]
pub struct Browsers {
    pub khronos: FetchState<Vec<KhronosAsset>>,
    pub hdris: FetchState<Vec<PolyAsset>>,
    pub models: FetchState<Vec<PolyAsset>>,
    pub khronos_sent: bool,
    pub hdris_sent: bool,
    pub models_sent: bool,
}

/// An index fetch to start.
#[derive(Clone, Copy, Debug, PartialEq, Eq, Structural)]
pub enum IndexFetch {
    Khronos,
    Hdris,
    Models,
}

/// The URL an index is fetched from.
pub open spec fn spec_index_url(fetch: IndexFetch) -> Seq<char> {
    match fetch {
        IndexFetch::Khronos => KHRONOS_INDEX@,
        IndexFetch::Hdris => POLYHAVEN_HDRIS@,
        IndexFetch::Models => POLYHAVEN_MODELS@,
    }
}

/// Where an index is fetched from.
pub fn index_url(fetch: IndexFetch) -> (r: &'static str)
    ensures
        r@ == spec_index_url(fetch),
{
    match fetch {
        IndexFetch::Khronos => KHRONOS_INDEX,
        IndexFetch::Hdris => POLYHAVEN_HDRIS,
        IndexFetch::Models => POLYHAVEN_MODELS,
    }
}

/// The fetch a state starts: one for an index that has not started.
pub open spec fn start_if_idle<T>(state: FetchState<T>, fetch: IndexFetch) -> Seq<IndexFetch> {
    if state is Idle {
        seq![fetch]
    } else {
        seq![]
    }
}

/// A state after its fetch was started if idle.
pub open spec fn started<T>(state: FetchState<T>) -> FetchState<T> {
    if state is Idle {
        FetchState::Loading
    } else {
        state
    }
}

impl Browsers {
    /// Nothing fetched, nothing sent.
    pub fn new() -> (r: Browsers)
        ensures
            r.khronos is Idle,
            r.hdris is Idle,
            r.models is Idle,
            !r.khronos_sent && !r.hdris_sent && !r.models_sent,
    {
        Browsers {
            khronos: FetchState::Idle,
            hdris: FetchState::Idle,
            models: FetchState::Idle,
            khronos_sent: false,
            hdris_sent: false,
            models_sent: false,
        }
    }
}

/// Starts the index fetches that have not started: each idle index becomes
/// loading, and its fetch is returned (Khronos, then HDRIs, then models).
pub fn ensure_indices(browsers: &mut Browsers) -> (r: Vec<IndexFetch>)
    ensures
        r@ == start_if_idle(old(browsers).khronos, IndexFetch::Khronos) + start_if_idle(
            old(browsers).hdris,
            IndexFetch::Hdris,
        ) + start_if_idle(old(browsers).models, IndexFetch::Models),
        final(browsers).khronos == started(old(browsers).khronos),
        final(browsers).hdris == started(old(browsers).hdris),
        final(browsers).models == started(old(browsers).models),
        final(browsers).khronos_sent == old(browsers).khronos_sent,
        final(browsers).hdris_sent == old(browsers).hdris_sent,
        final(browsers).models_sent == old(browsers).models_sent,
{
    let mut r: Vec<IndexFetch> = Vec::new();
    if let FetchState::Idle = browsers.khronos {
        browsers.khronos = FetchState::Loading;
        r.push(IndexFetch::Khronos);
    }
    if let FetchState::Idle = browsers.hdris {
        browsers.hdris = FetchState::Loading;
        r.push(IndexFetch::Hdris);
    }
    if let FetchState::Idle = browsers.models {
        browsers.models = FetchState::Loading;
        r.push(IndexFetch::Models);
    }
    assert(r@ =~= start_if_idle(old(browsers).khronos, IndexFetch::Khronos) + start_if_idle(
        old(browsers).hdris,
        IndexFetch::Hdris,
    ) + start_if_idle(old(browsers).models, IndexFetch::Models));
    r
}

/// The state a finished Khronos index fetch leaves: the browser list when the
/// index arrived and parsed, a failure otherwise.
pub fn finish_khronos(browsers: &mut Browsers, parsed: Option<Vec<KhronosRaw>>)
    ensures
        match parsed {
            Some(raw) => final(browsers).khronos matches FetchState::Loaded(list) && stably_sorted(
                listed_khronos(khronos_raw_views(raw@)),
                label_keys(listed_khronos(khronos_raw_views(raw@))),
                khronos_views(list@),
            ),
            None => final(browsers).khronos is Failed,
        },
        final(browsers).hdris == old(browsers).hdris,
        final(browsers).models == old(browsers).models,
        final(browsers).khronos_sent == old(browsers).khronos_sent,
        final(browsers).hdris_sent == old(browsers).hdris_sent,
        final(browsers).models_sent == old(browsers).models_sent,
{
    browsers.khronos = match parsed {
        Some(raw) => FetchState::Loaded(khronos_entries(raw)),
        None => FetchState::Failed,
    };
}

/// The state a finished Polyhaven index fetch leaves, for the HDRI index or
/// the model index.
pub fn finish_polyhaven(browsers: &mut Browsers, models: bool, parsed: Option<Vec<(String, PolyRaw)>>)
    ensures
        ({
            let state = if models { final(browsers).models } else { final(browsers).hdris };
            match parsed {
                Some(raw) => state matches FetchState::Loaded(list) && stably_sorted(
                    listed_poly(raw@),
                    name_keys(listed_poly(raw@)),
                    poly_views(list@),
                ),
                None => state is Failed,
            }
        }),
        models ==> final(browsers).hdris == old(browsers).hdris,
        !models ==> final(browsers).models == old(browsers).models,
        final(browsers).khronos == old(browsers).khronos,
        final(browsers).khronos_sent == old(browsers).khronos_sent,
        final(browsers).hdris_sent == old(browsers).hdris_sent,
        final(browsers).models_sent == old(browsers).models_sent,
{
    let next = match parsed {
        Some(raw) => FetchState::Loaded(poly_entries(raw)),
        None => FetchState::Failed,
    };
    if models {
        browsers.models = next;
    } else {
        browsers.hdris = next;
    }
}

/// Marks every list to be sent again (the page asked for them anew).
pub fn resend(browsers: &mut Browsers)
    ensures
        !final(browsers).khronos_sent && !final(browsers).hdris_sent && !final(browsers).models_sent,
        final(browsers).khronos == old(browsers).khronos,
        final(browsers).hdris == old(browsers).hdris,
        final(browsers).models == old(browsers).models,
{
    browsers.khronos_sent = false;
    browsers.hdris_sent = false;
    browsers.models_sent = false;
}


/// Whether a posted Khronos list shows the given assets, one entry each, in
/// order.
pub open spec fn shows_khronos(list: Seq<KhronosEntry>, assets: Seq<KhronosAsset>) -> bool {
    &&& list.len() == assets.len()
    &&& forall|k: int|
        0 <= k < list.len() ==> #[trigger] list[k].name@ == assets[k].name@ && list[k].label@
            == assets[k].label@ && opt_text(list[k].thumbnail) == opt_text(assets[k].thumbnail)
}

/// Whether a posted Polyhaven list shows the given assets, one entry each, in
/// order.
pub open spec fn shows_poly(list: Seq<PolyhavenEntry>, assets: Seq<PolyAsset>) -> bool {
    &&& list.len() == assets.len()
    &&& forall|k: int|
        0 <= k < list.len() ==> #[trigger] list[k].slug@ == assets[k].slug@ && list[k].name@
            == assets[k].name@ && list[k].thumbnail@ == assets[k].thumbnail@
}

/// The lists a poll sends to the page; none for a list not due.
#[derive(Debug)]
pub struct BrowserLists {
    pub khronos: Option<Vec<KhronosEntry>>,
    pub hdris: Option<Vec<PolyhavenEntry>>,
    pub models: Option<Vec<PolyhavenEntry>>,
}

/// Copies an optional string.
fn copy_opt(o: &Option<String>) -> (r: Option<String>)
    ensures
        opt_text(r) == opt_text(*o),
{
    match o {
        Some(s) => Some(s.clone()),
        None => None,
    }
}

/// The Khronos list as the page shows it.
fn khronos_list(assets: &Vec<KhronosAsset>) -> (r: Vec<KhronosEntry>)
    ensures
        shows_khronos(r@, assets@),
{
    let mut r: Vec<KhronosEntry> = Vec::new();
    let mut i: usize = 0;
    while i < assets.len()
        invariant
            i <= assets@.len(),
            shows_khronos(r@, assets@.take(i as int)),
        decreases assets@.len() - i,
    {
        let a = &assets[i];
        r.push(KhronosEntry { name: a.name.clone(), label: a.label.clone(), thumbnail: copy_opt(&a.thumbnail) });
        assert(assets@.take(i + 1)[i as int] == assets@[i as int]);
        i += 1;
    }
    assert(assets@.take(assets@.len() as int) =~= assets@);
    r
}

/// A Polyhaven list as the page shows it.
fn poly_list(assets: &Vec<PolyAsset>) -> (r: Vec<PolyhavenEntry>)
    ensures
        shows_poly(r@, assets@),
{
    let mut r: Vec<PolyhavenEntry> = Vec::new();
    let mut i: usize = 0;
    while i < assets.len()
        invariant
            i <= assets@.len(),
            shows_poly(r@, assets@.take(i as int)),
        decreases assets@.len() - i,
    {
        let a = &assets[i];
        r.push(PolyhavenEntry { slug: a.slug.clone(), name: a.name.clone(), thumbnail: a.thumbnail.clone() });
        assert(assets@.take(i + 1)[i as int] == assets@[i as int]);
        i += 1;
    }
    assert(assets@.take(assets@.len() as int) =~= assets@);
    r
}

/// Whether a list is due: loaded and not yet sent.
pub open spec fn due<T>(state: FetchState<T>, sent: bool) -> bool {
    !sent && state is Loaded
}

/// Sends each loaded list that has not been sent, once.
pub fn poll(browsers: &mut Browsers) -> (r: BrowserLists)
    ensures
        final(browsers).khronos == old(browsers).khronos,
        final(browsers).hdris == old(browsers).hdris,
        final(browsers).models == old(browsers).models,
        final(browsers).khronos_sent == (old(browsers).khronos_sent || old(browsers).khronos is Loaded),
        final(browsers).hdris_sent == (old(browsers).hdris_sent || old(browsers).hdris is Loaded),
        final(browsers).models_sent == (old(browsers).models_sent || old(browsers).models is Loaded),
        match r.khronos {
            Some(list) => due(old(browsers).khronos, old(browsers).khronos_sent) && shows_khronos(
                list@,
                old(browsers).khronos->Loaded_0@,
            ),
            None => !due(old(browsers).khronos, old(browsers).khronos_sent),
        },
        match r.hdris {
            Some(list) => due(old(browsers).hdris, old(browsers).hdris_sent) && shows_poly(
                list@,
                old(browsers).hdris->Loaded_0@,
            ),
            None => !due(old(browsers).hdris, old(browsers).hdris_sent),
        },
        match r.models {
            Some(list) => due(old(browsers).models, old(browsers).models_sent) && shows_poly(
                list@,
                old(browsers).models->Loaded_0@,
            ),
            None => !due(old(browsers).models, old(browsers).models_sent),
        },
{
    let mut khronos: Option<Vec<KhronosEntry>> = None;
    if !browsers.khronos_sent {
        if let FetchState::Loaded(entries) = &browsers.khronos {
            khronos = Some(khronos_list(entries));
        }
        if khronos.is_some() {
            browsers.khronos_sent = true;
        }
    }
    let mut hdris: Option<Vec<PolyhavenEntry>> = None;
    if !browsers.hdris_sent {
        if let FetchState::Loaded(entries) = &browsers.hdris {
            hdris = Some(poly_list(entries));
        }
        if hdris.is_some() {
            browsers.hdris_sent = true;
        }
    }
    let mut models: Option<Vec<PolyhavenEntry>> = None;
    if !browsers.models_sent {
        if let FetchState::Loaded(entries) = &browsers.models {
            models = Some(poly_list(entries));
        }
        if models.is_some() {
            browsers.models_sent = true;
        }
    }
    BrowserLists { khronos, hdris, models }
}

/// Claims the single download slot for a label: refused while another
/// download runs, else the slot holds the label and the page is told.
pub fn begin_loading(loading: &mut Option<String>, label: &str) -> (r: bool)
    ensures
        r == old(loading).is_none(),
        r ==> (*final(loading)) is Some && (*final(loading))->Some_0@ == label@,
        !r ==> *final(loading) == *old(loading),
{
    if loading.is_some() {
        return false;
    }
    *loading = Some(String::from_str(label));
    true
}

/// The download URL of a Khronos model by name, from a loaded index.
pub open spec fn khronos_url(state: FetchState<Vec<KhronosAsset>>, name: Seq<char>) -> Option<Seq<char>> {
    match state {
        FetchState::Loaded(entries) => {
            let views = khronos_views(entries@);
            match first_where(views, |a: KhronosAssetView| a.name == name) {
                Some(i) => views[i].glb_url,
                None => None,
            }
        },
        _ => None,
    }
}

/// Starts fetching a Khronos sample model by name: its download URL, when the
/// index lists the model with one and the download slot was free.
pub fn fetch_khronos(browsers: &Browsers, loading: &mut Option<String>, name: &str) -> (r: Option<String>)
    ensures
        match khronos_url(browsers.khronos, name@) {
            Some(url) => if (*old(loading)) is None {
                &&& r is Some && r->Some_0@ == url
                &&& (*final(loading)) is Some && (*final(loading))->Some_0@ == name@
            } else {
                r is None && *final(loading) == *old(loading)
            },
            None => r is None && *final(loading) == *old(loading),
        },
{
    let url = match &browsers.khronos {
        FetchState::Loaded(entries) => {
            let ghost views = khronos_views(entries@);
            let ghost p = |a: KhronosAssetView| a.name == name@;
            proof {
                lemma_first_where(views, p);
            }
            let target = String::from_str(name);
            let mut found: Option<String> = None;
            let mut i: usize = 0;
            let mut done = false;
            while i < entries.len() && !done
                invariant
                    i <= entries@.len(),
                    views == khronos_views(entries@),
                    p == (|a: KhronosAssetView| a.name == name@),
                    target@ == name@,
                    !done ==> forall|j: int| 0 <= j < i ==> !p(#[trigger] views[j]),
                    !done ==> found is None,
                    done ==> first_where(views, p) is Some && opt_text(found) == views[first_where(views, p)->Some_0].glb_url,
                decreases entries@.len() - i, if done { 0int } else { 1int },
            {
                if entries[i].name == target {
                    proof {
                        lemma_first_where_is(views, p, i as int);
                    }
                    found = copy_opt(&entries[i].glb_url);
                    done = true;
                } else {
                    i += 1;
                }
            }
            proof {
                if !done {
                    lemma_first_where_none(views, p);
                }
            }
            found
        },
        _ => None,
    };
    match url {
        Some(url) => {
            if begin_loading(loading, name) {
                Some(url)
            } else {
                None
            }
        },
        None => None,
    }
}

/// Where a Polyhaven asset's file list is fetched from.
pub open spec fn files_url(slug: Seq<char>) -> Seq<char> {
    POLYHAVEN_FILES@ + slug
}

/// The URL of a Polyhaven asset's file list.
pub fn polyhaven_files_url(slug: &str) -> (r: String)
    ensures
        r@ == files_url(slug@),
{
    let mut url = String::from_str(POLYHAVEN_FILES);
    url.append(slug);
    url
}

/// Starts fetching a Polyhaven HDRI by slug: the URL of its file list, when
/// the download slot was free.
pub fn fetch_polyhaven(loading: &mut Option<String>, slug: &str) -> (r: Option<String>)
    ensures
        (*old(loading)) is None ==> r is Some && r->Some_0@ == files_url(slug@) && (*final(loading)) is Some
            && (*final(loading))->Some_0@ == slug@,
        (*old(loading)) is Some ==> r is None && *final(loading) == *old(loading),
{
    if begin_loading(loading, slug) {
        Some(polyhaven_files_url(slug))
    } else {
        None
    }
}

/// Starts fetching a Polyhaven model by slug to replace the scene: the URL of
/// its file list, when the download slot was free.
pub fn fetch_polyhaven_model(loading: &mut Option<String>, slug: &str) -> (r: Option<String>)
    ensures
        (*old(loading)) is None ==> r is Some && r->Some_0@ == files_url(slug@) && (*final(loading)) is Some
            && (*final(loading))->Some_0@ == slug@,
        (*old(loading)) is Some ==> r is None && *final(loading) == *old(loading),
{
    if begin_loading(loading, slug) {
        Some(polyhaven_files_url(slug))
    } else {
        None
    }
}

/// Starts fetching a Polyhaven model by slug to add to the scene: the URL of
/// its file list. An additive load does not take the download slot.
pub fn fetch_polyhaven_model_additive(slug: &str) -> (r: String)
    ensures
        r@ == files_url(slug@),
{
    polyhaven_files_url(slug)
}


/// A downloadable file.
#[derive(Debug)]
pub struct FileLink {
    pub url: String,
}

/// One resolution of a Polyhaven HDRI: its `.hdr` file, if offered.
#[derive(Debug)]
pub struct HdriResolution {
    pub hdr: Option<FileLink>,
}

/// A Polyhaven HDRI's file list: resolution key to files, in key order.
#[derive(Debug)]
pub struct HdriFiles {
    pub hdri: Vec<(String, HdriResolution)>,
}

/// A file a glTF refers to.
#[derive(Debug)]
pub struct IncludeFile {
    pub url: String,
}

/// A glTF file and the files it includes, by relative path.
#[derive(Debug)]
pub struct GltfFile {
    pub url: String,
    pub includes: Vec<(String, IncludeFile)>,
}

/// One resolution of a Polyhaven model.
#[derive(Debug)]
pub struct GltfResolution {
    pub gltf: GltfFile,
}

/// A Polyhaven model's file list: resolution key to files, in key order.
#[derive(Debug)]
pub struct ModelFiles {
    pub gltf: Vec<(String, GltfResolution)>,
}

/// The HDR downloads of an HDRI's file list with their resolutions, in key
/// order; resolutions without an `.hdr` file are left out.
pub open spec fn hdr_candidates(hdri: Seq<(String, HdriResolution)>) -> Seq<(u32, String)>
    decreases hdri.len(),
{
    if hdri.len() == 0 {
        seq![]
    } else {
        let rest = hdr_candidates(hdri.drop_last());
        match hdri.last().1.hdr {
            Some(link) => rest.push((spec_resolution_value(hdri.last().0@), link.url)),
            None => rest,
        }
    }
}

/// Picks an HDRI download at the preferred resolution (in k), as
/// [`pick_resolution`] chooses.
pub fn pick_hdr(files: HdriFiles, preferred: u32) -> (r: Option<String>)
    ensures
        match chosen_resolution(values_of(hdr_candidates(files.hdri@)), preferred) {
            Some(i) => r == Some(hdr_candidates(files.hdri@)[i].1),
            None => r is None,
        },
{
    let ghost all = files.hdri@;
    let mut rest = files.hdri;
    let mut entries: Vec<(u32, String)> = Vec::new();
    let mut i: usize = 0;
    let n = rest.len();
    while i < n
        invariant
            i <= n,
            n == all.len(),
            rest@ == all.skip(i as int),
            entries@ == hdr_candidates(all.take(i as int)),
        decreases n - i,
    {
        assert(all.take(i + 1).drop_last() =~= all.take(i as int));
        assert(rest@[0] == all[i as int]);
        let (key, resolution) = rest.remove(0);
        assert(rest@ =~= all.skip(i + 1));
        if let Some(link) = resolution.hdr {
            entries.push((resolution_value(key.as_str()), link.url));
        }
        i += 1;
    }
    assert(all.take(n as int) =~= all);
    pick_resolution(entries, preferred)
}

/// The glTF downloads of a model's file list with their resolutions, in key
/// order.
pub open spec fn model_candidates(gltf: Seq<(String, GltfResolution)>) -> Seq<(u32, GltfFile)> {
    Seq::new(gltf.len(), |i: int| (spec_resolution_value(gltf[i].0@), gltf[i].1.gltf))
}

/// Picks a model download at the preferred texture resolution (in k), as
/// [`pick_resolution`] chooses.
pub fn pick_model(files: ModelFiles, preferred: u32) -> (r: Option<GltfFile>)
    ensures
        match chosen_resolution(values_of(model_candidates(files.gltf@)), preferred) {
            Some(i) => r == Some(model_candidates(files.gltf@)[i].1),
            None => r is None,
        },
{
    let ghost all = files.gltf@;
    let mut rest = files.gltf;
    let mut entries: Vec<(u32, GltfFile)> = Vec::new();
    let mut i: usize = 0;
    let n = rest.len();
    while i < n
        invariant
            i <= n,
            n == all.len(),
            rest@ == all.skip(i as int),
            entries@ == model_candidates(all.take(i as int)),
        decreases n - i,
    {
        assert(rest@[0] == all[i as int]);
        let (key, resolution) = rest.remove(0);
        assert(rest@ =~= all.skip(i + 1));
        entries.push((resolution_value(key.as_str()), resolution.gltf));
        assert(entries@ =~= model_candidates(all.take(i + 1)));
        i += 1;
    }
    assert(all.take(n as int) =~= all);
    assert(entries@ =~= model_candidates(all));
    pick_resolution(entries, preferred)
}

/// A model download with its included files: the glTF waits until every
/// included file has arrived, and one failed file fails the download.
#[derive(Debug)]
pub struct ResourceDownload {
    /// The glTF bytes, until the model is handed over.
    pub gltf: Option<Vec<u8>>,
    /// The included files that have arrived, by relative path.
    pub resources: Vec<(String, Vec<u8>)>,
    /// How many included files have arrived.
    pub fetched: usize,
    /// Whether an included file failed.
    pub failed: bool,
    /// How many included files the glTF names.
    pub total: usize,
}

/// What an arriving included file leaves the download at.
#[derive(Debug)]
pub enum DownloadStep {
    /// More files are still due.
    Pending,
    /// The last file arrived: the glTF and its files, by relative path.
    Complete { gltf: Vec<u8>, resources: Vec<(String, Vec<u8>)> },
    /// A file failed (now or earlier): the download is abandoned.
    Failed,
}

impl ResourceDownload {
    /// A download whose glTF has arrived and that waits for `total` files.
    pub fn new(gltf: Vec<u8>, total: usize) -> (r: ResourceDownload)
        ensures
            r.gltf == Some(gltf),
            r.resources@.len() == 0,
            r.fetched == 0,
            !r.failed,
            r.total == total,
    {
        ResourceDownload { gltf: Some(gltf), resources: Vec::new(), fetched: 0, failed: false, total }
    }

    /// Records an included file, or its failure, and says whether the
    /// download is complete, still pending, or failed.
    pub fn arrive(&mut self, key: String, bytes: Option<Vec<u8>>) -> (r: DownloadStep)
        requires
            old(self).fetched < old(self).total,
            old(self).gltf is Some,
        ensures
            final(self).total == old(self).total,
            final(self).failed || final(self).fetched < final(self).total ==> final(self).gltf
                == old(self).gltf,
            match bytes {
                Some(b) => {
                    &&& final(self).fetched == old(self).fetched + 1
                    &&& final(self).failed == old(self).failed
                },
                None => final(self).fetched == old(self).fetched && final(self).failed,
            },
            final(self).failed ==> r is Failed,
            !final(self).failed && final(self).fetched < final(self).total ==> r is Pending,
            !final(self).failed && final(self).fetched == final(self).total ==> {
                let all = match bytes {
                    Some(b) => old(self).resources@.push((key, b)),
                    None => old(self).resources@,
                };
                &&& r matches DownloadStep::Complete { gltf, resources }
                &&& old(self).gltf == Some(gltf)
                &&& resources@ == all
                &&& final(self).gltf is None
            },
    {
        match bytes {
            Some(b) => {
                self.resources.push((key, b));
                self.fetched = self.fetched + 1;
            },
            None => {
                self.failed = true;
            },
        }
        if self.failed {
            return DownloadStep::Failed;
        }
        if self.fetched == self.total {
            match self.gltf.take() {
                Some(gltf) => {
                    let mut resources: Vec<(String, Vec<u8>)> = Vec::new();
                    std::mem::swap(&mut resources, &mut self.resources);
                    return DownloadStep::Complete { gltf, resources };
                },
                None => {
                    return DownloadStep::Failed;
                },
            }
        }
        DownloadStep::Pending
    }
}

} // verus!
