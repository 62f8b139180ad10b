//! The registry of playback assets, and the requests that change it or look
//! something up in it.

use vstd::prelude::*;
use vstd::string::*;

use crate::auth::{
    invalid_api_key, invalid_playback_origin_key, require_auth, require_playback_origin,
};
use crate::playback::{
    accepted_asset, asset_id, asset_refusal, count_segments, law_accepted_assets_are_sound,
    segment_count, sound_asset, valid_asset_id, validate_playback_asset, AssetView, PlaybackAsset,
    PlaybackAssetInput, PLAYBACK_SEGMENT_SIZE,
};
use crate::reply::{error, json_error, ErrorReply, ErrorView};
use crate::request::{presented, RequestHead};
use crate::text::same_text;

verus! {

/// An asset under its id.
#[derive(Debug)]
pub struct RegistryEntry {
    pub asset_id: String,
    pub asset: PlaybackAsset,
}

/// The assets that can be played, each under its own id.
pub struct PlaybackRegistry {
    entries: Vec<RegistryEntry>,
}

spec fn holds(entries: Seq<RegistryEntry>, id: Seq<char>, i: int) -> bool {
    0 <= i < entries.len() && entries[i].asset_id@ == id
}

spec fn as_map(entries: Seq<RegistryEntry>) -> Map<Seq<char>, AssetView> {
    Map::new(
        |id: Seq<char>| exists|i: int| holds(entries, id, i),
        |id: Seq<char>| entries[choose|i: int| holds(entries, id, i)].asset@,
    )
}

impl View for PlaybackRegistry {
    type V = Map<Seq<char>, AssetView>;

    closed spec fn view(&self) -> Map<Seq<char>, AssetView> {
        as_map(self.entries@)
    }
}

/// No two entries have the same id.
pub open spec fn distinct(entries: Seq<RegistryEntry>) -> bool {
    forall|i: int, j: int|
        0 <= i < j < entries.len() ==> (#[trigger] entries[i]).asset_id@ != (
        #[trigger] entries[j]).asset_id@
}

proof fn lemma_entry(entries: Seq<RegistryEntry>, i: int)
    requires
        distinct(entries),
        0 <= i < entries.len(),
    ensures
        as_map(entries).contains_key(entries[i].asset_id@),
        as_map(entries)[entries[i].asset_id@] == entries[i].asset@,
{
    let id = entries[i].asset_id@;
    assert(holds(entries, id, i));
    let k = choose|k: int| holds(entries, id, k);
    assert(holds(entries, id, k));
    assert(k == i);
}

/// A row of entries that lists exactly the assets of a registry, in any
/// order.
pub open spec fn listed(entries: Seq<RegistryEntry>, registry: Map<Seq<char>, AssetView>) -> bool {
    &&& forall|i: int|
        0 <= i < entries.len() ==> registry.contains_key((#[trigger] entries[i]).asset_id@)
            && registry[entries[i].asset_id@] == entries[i].asset@
    &&& forall|id: Seq<char>| #[trigger]
        registry.contains_key(id) ==> exists|i: int|
            0 <= i < entries.len() && (#[trigger] entries[i]).asset_id@ == id
}

impl PlaybackRegistry {
    /// No two entries have the same id.
    pub closed spec fn wf(self) -> bool {
        distinct(self.entries@)
    }

    /// A registry without assets.
    pub fn new() -> (r: PlaybackRegistry)
        ensures
            r.wf(),
            r@ == Map::<Seq<char>, AssetView>::empty(),
    {
        let r = PlaybackRegistry { entries: Vec::new() };
        assert(r@ =~= Map::<Seq<char>, AssetView>::empty()) by {
            assert forall|id: Seq<char>, i: int| !holds(r.entries@, id, i) by {}
        }
        r
    }

    /// The entries, in no particular order, each asset once.
    pub fn entries(&self) -> (r: &Vec<RegistryEntry>)
        requires
            self.wf(),
        ensures
            listed(r@, self@),
            distinct(r@),
    {
        proof {
            assert forall|i: int| 0 <= i < self.entries@.len() implies self@.contains_key(
                (#[trigger] self.entries@[i]).asset_id@,
            ) && self@[self.entries@[i].asset_id@] == self.entries@[i].asset@ by {
                lemma_entry(self.entries@, i);
            }
            assert forall|id: Seq<char>| #[trigger] self@.contains_key(id) implies exists|i: int|
                0 <= i < self.entries@.len() && (#[trigger] self.entries@[i]).asset_id@ == id by {
                let i = choose|i: int| holds(self.entries@, id, i);
                assert(self.entries@[i].asset_id@ == id);
            }
        }
        &self.entries
    }

    fn position(&self, asset_id: &str) -> (r: Option<usize>)
        ensures
            match r {
                Some(i) => holds(self.entries@, asset_id@, i as int),
                None => forall|i: int| !holds(self.entries@, asset_id@, i),
            },
    {
        let mut i: usize = 0;
        while i < self.entries.len()
            invariant
                i <= self.entries@.len(),
                forall|k: int| 0 <= k < i ==> !holds(self.entries@, asset_id@, k),
            decreases self.entries@.len() - i,
        {
            if same_text(self.entries[i].asset_id.as_str(), asset_id) {
                return Some(i);
            }
            i += 1;
        }
        None
    }

    /// Looks an asset up.
    pub fn get(&self, asset_id: &str) -> (r: Option<&PlaybackAsset>)
        requires
            self.wf(),
        ensures
            match r {
                Some(asset) => self@.contains_key(asset_id@) && self@[asset_id@] == asset@,
                None => !self@.contains_key(asset_id@),
            },
    {
        match self.position(asset_id) {
            Some(i) => {
                proof {
                    lemma_entry(self.entries@, i as int);
                }
                Some(&self.entries[i].asset)
            },
            None => None,
        }
    }

    /// Takes an asset away, if it is there.
    pub fn remove(&mut self, asset_id: &str)
        requires
            old(self).wf(),
        ensures
            final(self).wf(),
            final(self)@ == old(self)@.remove(asset_id@),
    {
        match self.position(asset_id) {
            Some(at) => {
                let ghost before = self.entries@;
                let gone = self.entries.remove(at);
                proof {
                    let after = self.entries@;
                    assert(after == before.remove(at as int));
                    assert forall|i: int, j: int| 0 <= i < j < after.len() implies (
                    #[trigger] after[i]).asset_id@ != (#[trigger] after[j]).asset_id@ by {
                        let i2 = if i < at {
                            i
                        } else {
                            i + 1
                        };
                        let j2 = if j < at {
                            j
                        } else {
                            j + 1
                        };
                        assert(after[i] == before[i2]);
                        assert(after[j] == before[j2]);
                    }
                    assert forall|id: Seq<char>|
                        as_map(after).contains_key(id) == as_map(before).remove(
                            asset_id@,
                        ).contains_key(id) by {
                        if as_map(after).contains_key(id) {
                            let i = choose|i: int| holds(after, id, i);
                            let i2 = if i < at {
                                i
                            } else {
                                i + 1
                            };
                            assert(after[i] == before[i2]);
                            assert(holds(before, id, i2));
                            assert(before[i2].asset_id@ != before[at as int].asset_id@);
                        }
                        if as_map(before).remove(asset_id@).contains_key(id) {
                            let i = choose|i: int| holds(before, id, i);
                            let i2 = if i < at {
                                i
                            } else {
                                i - 1
                            };
                            assert(holds(after, id, i2));
                        }
                    }
                    assert forall|id: Seq<char>| as_map(after).contains_key(id) implies as_map(
                        after,
                    )[id] == as_map(before)[id] by {
                        let i = choose|i: int| holds(after, id, i);
                        let i2 = if i < at {
                            i
                        } else {
                            i + 1
                        };
                        assert(after[i] == before[i2]);
                        lemma_entry(after, i);
                        lemma_entry(before, i2);
                    }
                    assert(as_map(after) =~= as_map(before).remove(asset_id@));
                }
            },
            None => {
                assert(!self@.contains_key(asset_id@));
                assert(self@ =~= old(self)@.remove(asset_id@));
            },
        }
    }

    /// Puts an asset under an id, in place of the one that was there.
    pub fn insert(&mut self, asset_id: String, asset: PlaybackAsset)
        requires
            old(self).wf(),
        ensures
            final(self).wf(),
            final(self)@ == old(self)@.insert(asset_id@, asset@),
    {
        self.remove(asset_id.as_str());
        let ghost before = self.entries@;
        let ghost id = asset_id@;
        assert(!self@.contains_key(id));
        let entry = RegistryEntry { asset_id, asset };
        self.entries.push(entry);
        proof {
            let after = self.entries@;
            let last = before.len() as int;
            assert(after[last] == entry);
            assert forall|i: int, j: int| 0 <= i < j < after.len() implies (
            #[trigger] after[i]).asset_id@ != (#[trigger] after[j]).asset_id@ by {
                assert(after[i] == before[i]);
                if j < last {
                    assert(after[j] == before[j]);
                } else if after[i].asset_id@ == id {
                    assert(holds(before, id, i));
                }
            }
            assert forall|k: Seq<char>|
                as_map(after).contains_key(k) == as_map(before).insert(id, asset@).contains_key(
                    k,
                ) by {
                if as_map(after).contains_key(k) {
                    let i = choose|i: int| holds(after, k, i);
                    if i < last {
                        assert(after[i] == before[i]);
                        assert(holds(before, k, i));
                    }
                }
                if k == id {
                    assert(holds(after, k, last));
                } else if as_map(before).contains_key(k) {
                    let i = choose|i: int| holds(before, k, i);
                    assert(after[i] == before[i]);
                    assert(holds(after, k, i));
                }
            }
            assert forall|k: Seq<char>| as_map(after).contains_key(k) implies as_map(after)[k]
                == as_map(before).insert(id, asset@)[k] by {
                let i = choose|i: int| holds(after, k, i);
                lemma_entry(after, i);
                if i < last {
                    assert(after[i] == before[i]);
                    lemma_entry(before, i);
                    if k == id {
                        assert(holds(before, id, i));
                    }
                }
            }
            assert(as_map(after) =~= as_map(before).insert(id, asset@));
            assert(as_map(before).insert(id, asset@) =~= old(self)@.insert(id, asset@));
        }
    }
}

/// What a client is told of an asset that it registered.
#[derive(Debug)]
pub struct PlaybackAssetResponse {
    pub asset_id: String,
    pub size_bytes: u64,
    pub segment_size: u64,
    pub segment_count: u64,
}

/// The answer to a request with an id that no asset can have.
pub open spec fn invalid_asset_id() -> ErrorView {
    error("INVALID_ASSET_ID"@, "Playback asset id is invalid"@, 400)
}

fn refuse_asset_id() -> (r: ErrorReply)
    ensures
        r@ == invalid_asset_id(),
{
    json_error("INVALID_ASSET_ID", "Playback asset id is invalid".to_owned(), 400)
}

/// Why a request to register or to take away an asset is refused, before its
/// content is looked at.
pub open spec fn change_refusal(
    req: RequestHead,
    api_key: Seq<char>,
    id: Seq<char>,
) -> Option<ErrorView> {
    if presented(req.api_key) != api_key {
        Some(invalid_api_key())
    } else if !asset_id(id) {
        Some(invalid_asset_id())
    } else {
        None
    }
}

/// Why a request to register an asset is refused.
pub open spec fn put_refusal(
    req: RequestHead,
    api_key: Seq<char>,
    id: Seq<char>,
    input: AssetView,
) -> Option<ErrorView> {
    match change_refusal(req, api_key, id) {
        Some(e) => Some(e),
        None => match asset_refusal(input) {
            Some(reason) => Some(error("INVALID_PLAYBACK_ASSET"@, reason, 422)),
            None => None,
        },
    }
}

/// Starts a request to take an asset away, or to register one: refuses it, or
/// lets it go on.
pub fn begin_change(req: &RequestHead, api_key: &str, id: &str) -> (r: Result<(), ErrorReply>)
    ensures
        match r {
            Ok(_) => change_refusal(*req, api_key@, id@) is None,
            Err(e) => change_refusal(*req, api_key@, id@) == Some(e@),
        },
{
    match require_auth(req, api_key) {
        Ok(_) => {},
        Err(e) => return Err(e),
    }
    if valid_asset_id(id) {
        Ok(())
    } else {
        Err(refuse_asset_id())
    }
}

/// Starts a request to register an asset: refuses it, or gives the asset to
/// register.
pub fn begin_put(
    req: &RequestHead,
    api_key: &str,
    id: &str,
    input: PlaybackAssetInput,
) -> (r: Result<PlaybackAsset, ErrorReply>)
    ensures
        match r {
            Ok(asset) => put_refusal(*req, api_key@, id@, input@) is None && asset@
                == accepted_asset(input@),
            Err(e) => put_refusal(*req, api_key@, id@, input@) == Some(e@),
        },
{
    match begin_change(req, api_key, id) {
        Ok(_) => {},
        Err(e) => return Err(e),
    }
    match validate_playback_asset(input) {
        Ok(asset) => Ok(asset),
        Err(reason) => Err(json_error("INVALID_PLAYBACK_ASSET", reason, 422)),
    }
}

/// Puts an accepted asset into the registry, in place of the one that was
/// there under its id, and gives what its client is told. The registry has to
/// be saved behind this, before the client is answered.
pub fn register_asset(id: String, asset: PlaybackAsset, registry: &mut PlaybackRegistry) -> (r:
    PlaybackAssetResponse)
    requires
        old(registry).wf(),
    ensures
        final(registry).wf(),
        final(registry)@ == old(registry)@.insert(id@, asset@),
        r.asset_id@ == id@,
        r.size_bytes == asset.size_bytes,
        r.segment_size == PLAYBACK_SEGMENT_SIZE,
        r.segment_count == segment_count(asset.size_bytes as nat),
{
    let response = PlaybackAssetResponse {
        asset_id: id.clone(),
        size_bytes: asset.size_bytes,
        segment_size: PLAYBACK_SEGMENT_SIZE,
        segment_count: count_segments(asset.size_bytes),
    };
    registry.insert(id, asset);
    response
}

/// Registers an asset, in place of the one that was there under its id. The
/// registry has to be saved behind this, before the client is answered. A
/// refused request changes nothing.
pub fn put_playback_asset(
    req: &RequestHead,
    api_key: &str,
    id: String,
    input: PlaybackAssetInput,
    registry: &mut PlaybackRegistry,
) -> (r: Result<PlaybackAssetResponse, ErrorReply>)
    requires
        old(registry).wf(),
    ensures
        final(registry).wf(),
        match r {
            Ok(response) => {
                &&& put_refusal(*req, api_key@, id@, input@) is None
                &&& final(registry)@ == old(registry)@.insert(id@, accepted_asset(input@))
                &&& response.asset_id@ == id@
                &&& response.size_bytes == input.size_bytes
                &&& response.segment_size == PLAYBACK_SEGMENT_SIZE
                &&& response.segment_count == segment_count(input.size_bytes as nat)
            },
            Err(e) => {
                &&& put_refusal(*req, api_key@, id@, input@) == Some(e@)
                &&& final(registry)@ == old(registry)@
            },
        },
{
    match begin_put(req, api_key, id.as_str(), input) {
        Ok(asset) => Ok(register_asset(id, asset, registry)),
        Err(e) => Err(e),
    }
}

/// Takes an asset away, if it is there. The registry has to be saved behind
/// this, before the client is answered. A refused request changes nothing.
pub fn delete_playback_asset(
    req: &RequestHead,
    api_key: &str,
    id: &str,
    registry: &mut PlaybackRegistry,
) -> (r: Result<(), ErrorReply>)
    requires
        old(registry).wf(),
    ensures
        final(registry).wf(),
        match r {
            Ok(_) => {
                &&& change_refusal(*req, api_key@, id@) is None
                &&& final(registry)@ == old(registry)@.remove(id@)
            },
            Err(e) => {
                &&& change_refusal(*req, api_key@, id@) == Some(e@)
                &&& final(registry)@ == old(registry)@
            },
        },
{
    match begin_change(req, api_key, id) {
        Ok(_) => {},
        Err(e) => return Err(e),
    }
    registry.remove(id);
    Ok(())
}

/// Answers a change of the registry when it has been saved, or could not be.
/// (The change stays in the registry either way.)
pub fn registry_saved(saved: Result<(), String>) -> (r: Result<(), ErrorReply>)
    ensures
        match (saved, r) {
            (Ok(_), Ok(_)) => true,
            (Err(message), Err(e)) => e@ == error("REGISTRY_WRITE_FAILED"@, message@, 500),
            _ => false,
        },
{
    match saved {
        Ok(_) => Ok(()),
        Err(message) => Err(json_error("REGISTRY_WRITE_FAILED", message, 500)),
    }
}

/// Why a request for a segment is refused before its asset is looked up.
pub open spec fn segment_refusal(
    req: RequestHead,
    origin_key: Seq<char>,
    id: Seq<char>,
) -> Option<ErrorView> {
    if presented(req.playback_origin_key) != origin_key {
        Some(invalid_playback_origin_key())
    } else if !asset_id(id) {
        Some(invalid_asset_id())
    } else {
        None
    }
}

/// Starts a request for a segment: refuses it, or lets its asset be looked up.
pub fn begin_segment(req: &RequestHead, origin_key: &str, id: &str) -> (r: Result<(), ErrorReply>)
    ensures
        match r {
            Ok(_) => segment_refusal(*req, origin_key@, id@) is None,
            Err(e) => segment_refusal(*req, origin_key@, id@) == Some(e@),
        },
{
    match require_playback_origin(req, origin_key) {
        Ok(_) => {},
        Err(e) => return Err(e),
    }
    if valid_asset_id(id) {
        Ok(())
    } else {
        Err(refuse_asset_id())
    }
}

/// What a request for a segment finds: the asset, or why it is refused.
pub open spec fn playback_lookup(
    req: RequestHead,
    origin_key: Seq<char>,
    id: Seq<char>,
    registry: Map<Seq<char>, AssetView>,
) -> Result<AssetView, ErrorView> {
    match segment_refusal(req, origin_key, id) {
        Some(e) => Err(e),
        None => if !registry.contains_key(id) {
            Err(error("NOT_FOUND"@, "Playback asset not found"@, 404))
        } else {
            Ok(registry[id])
        },
    }
}

/// Looks up the asset that a request asks a segment of.
pub fn playback_segment(
    req: &RequestHead,
    origin_key: &str,
    id: &str,
    registry: &PlaybackRegistry,
) -> (r: Result<PlaybackAsset, ErrorReply>)
    requires
        registry.wf(),
    ensures
        match r {
            Ok(asset) => playback_lookup(*req, origin_key@, id@, registry@) == Ok::<
                AssetView,
                ErrorView,
            >(asset@),
            Err(e) => playback_lookup(*req, origin_key@, id@, registry@) == Err::<
                AssetView,
                ErrorView,
            >(e@),
        },
{
    match begin_segment(req, origin_key, id) {
        Ok(_) => {},
        Err(e) => return Err(e),
    }
    match registry.get(id) {
        Some(asset) => Ok(asset.clone()),
        None => Err(json_error("NOT_FOUND", "Playback asset not found".to_owned(), 404)),
    }
}

/// A registry all of whose assets are sound.
pub open spec fn sound_registry(registry: Map<Seq<char>, AssetView>) -> bool {
    forall|id: Seq<char>| #[trigger]
        registry.contains_key(id) ==> asset_id(id) && sound_asset(registry[id])
}

/// Registering and taking away keep a registry sound.
pub proof fn law_changes_keep_the_registry_sound(
    registry: Map<Seq<char>, AssetView>,
    req: RequestHead,
    api_key: Seq<char>,
    id: Seq<char>,
    input: AssetView,
)
    requires
        sound_registry(registry),
    ensures
        put_refusal(req, api_key, id, input) is None ==> sound_registry(
            registry.insert(id, accepted_asset(input)),
        ),
        sound_registry(registry.remove(id)),
{
    if put_refusal(req, api_key, id, input) is None {
        law_accepted_assets_are_sound(input);
    }
}

/// The CDN finds an asset exactly as it was registered, until it is registered
/// anew or taken away; other assets are not touched by that.
pub proof fn law_lookup_finds_what_was_registered(
    registry: Map<Seq<char>, AssetView>,
    cdn: RequestHead,
    origin_key: Seq<char>,
    id: Seq<char>,
    input: AssetView,
    other: Seq<char>,
)
    requires
        presented(cdn.playback_origin_key) == origin_key,
        asset_id(id),
        asset_refusal(input) is None,
        other != id,
    ensures
        playback_lookup(cdn, origin_key, id, registry.insert(id, accepted_asset(input))) == Ok::<
            AssetView,
            ErrorView,
        >(accepted_asset(input)),
        playback_lookup(cdn, origin_key, other, registry.insert(id, accepted_asset(input)))
            == playback_lookup(cdn, origin_key, other, registry),
        playback_lookup(cdn, origin_key, id, registry.remove(id)) == Err::<AssetView, ErrorView>(
            error("NOT_FOUND"@, "Playback asset not found"@, 404),
        ),
        playback_lookup(cdn, origin_key, other, registry.remove(id)) == playback_lookup(
            cdn,
            origin_key,
            other,
            registry,
        ),
{
}

/// What came of reading the saved registry.
#[derive(Debug)]
pub enum RegistryRead {
    /// It holds these entries.
    Loaded(Vec<RegistryEntry>),
    /// It cannot be understood.
    Malformed(String),
    /// There is none.
    Missing,
    /// It cannot be read.
    Failed(String),
}

/// The registry with the given entries; of two with the same id, the later.
pub open spec fn registry_of(entries: Seq<RegistryEntry>) -> Map<Seq<char>, AssetView>
    decreases entries.len(),
{
    if entries.len() == 0 {
        Map::empty()
    } else {
        registry_of(entries.drop_last()).insert(entries.last().asset_id@, entries.last().asset@)
    }
}

/// The registry to start with: the saved one, or an empty one where none has
/// been saved yet.
pub fn load_playback_registry(read: RegistryRead) -> (r: Result<PlaybackRegistry, String>)
    ensures
        match (read, r) {
            (RegistryRead::Loaded(entries), Ok(registry)) => registry.wf() && registry@
                == registry_of(entries@),
            (RegistryRead::Missing, Ok(registry)) => registry.wf() && registry@ == Map::<
                Seq<char>,
                AssetView,
            >::empty(),
            (RegistryRead::Malformed(message), Err(e)) => e@ == message@,
            (RegistryRead::Failed(message), Err(e)) => e@ == message@,
            _ => false,
        },
{
    match read {
        RegistryRead::Loaded(entries) => {
            let mut registry = PlaybackRegistry::new();
            let mut i: usize = 0;
            while i < entries.len()
                invariant
                    i <= entries@.len(),
                    registry.wf(),
                    registry@ == registry_of(entries@.take(i as int)),
                decreases entries@.len() - i,
            {
                assert(entries@.take(i + 1).drop_last() == entries@.take(i as int));
                registry.insert(entries[i].asset_id.clone(), entries[i].asset.clone());
                i += 1;
            }
            assert(entries@.take(i as int) == entries@);
            Ok(registry)
        },
        RegistryRead::Missing => Ok(PlaybackRegistry::new()),
        RegistryRead::Malformed(message) => Err(message),
        RegistryRead::Failed(message) => Err(message),
    }
}

proof fn lemma_loaded(
    entries: Seq<RegistryEntry>,
    registry: Map<Seq<char>, AssetView>,
)
    requires
        forall|i: int|
            0 <= i < entries.len() ==> registry.contains_key((#[trigger] entries[i]).asset_id@)
                && registry[entries[i].asset_id@] == entries[i].asset@,
    ensures
        forall|id: Seq<char>| #[trigger]
            registry_of(entries).contains_key(id) ==> registry.contains_key(id)
                && registry_of(entries)[id] == registry[id],
        forall|i: int|
            0 <= i < entries.len() ==> registry_of(entries).contains_key(
                (#[trigger] entries[i]).asset_id@,
            ),
    decreases entries.len(),
{
    if entries.len() > 0 {
        let before = entries.drop_last();
        assert forall|i: int| 0 <= i < before.len() implies registry.contains_key(
            (#[trigger] before[i]).asset_id@,
        ) && registry[before[i].asset_id@] == before[i].asset@ by {
            assert(before[i] == entries[i]);
        }
        lemma_loaded(before, registry);
        assert(registry.contains_key(entries[entries.len() - 1].asset_id@));
        let last = entries.last();
        assert forall|id: Seq<char>| #[trigger]
            registry_of(entries).contains_key(id) implies registry.contains_key(id)
            && registry_of(entries)[id] == registry[id] by {
            if id != last.asset_id@ {
                assert(registry_of(before).contains_key(id));
            }
        }
        assert forall|i: int| 0 <= i < entries.len() implies registry_of(entries).contains_key(
            (#[trigger] entries[i]).asset_id@,
        ) by {
            if i < before.len() {
                assert(before[i] == entries[i]);
            }
        }
    }
}

/// A registry whose entries are saved and loaded again, in whatever order
/// they come back, is the same registry.
pub proof fn law_a_saved_registry_is_loaded_back(
    entries: Seq<RegistryEntry>,
    registry: Map<Seq<char>, AssetView>,
)
    requires
        listed(entries, registry),
    ensures
        registry_of(entries) == registry,
{
    lemma_loaded(entries, registry);
    assert forall|id: Seq<char>| registry.contains_key(id) implies registry_of(
        entries,
    ).contains_key(id) by {
        let i = choose|i: int|
            0 <= i < entries.len() && (#[trigger] entries[i]).asset_id@ == id;
        assert(entries[i].asset_id@ == id);
    }
    assert(registry_of(entries) =~= registry);
}

/// The extension of the file beside the registry that it is written to first.
pub const TEMPORARY_EXTENSION: &'static str = "json.tmp";

/// What is to be done to save the registry.
#[derive(Clone, Copy, Debug, PartialEq, Eq)]
pub enum PersistStep {
    /// Make the directory that the registry lies in.
    CreateDirectory,
    /// Turn the registry into bytes.
    Serialise,
    /// Write those to a file beside the registry.
    WriteTemporary,
    /// Put that file in the place of the registry.
    Replace,
    /// Nothing: it is saved.
    Saved,
}

/// The first step: a path without a parent needs no directory.
pub fn begin_persist(has_parent: bool) -> (r: PersistStep)
    ensures
        r == (if has_parent {
            PersistStep::CreateDirectory
        } else {
            PersistStep::Serialise
        }),
{
    if has_parent {
        PersistStep::CreateDirectory
    } else {
        PersistStep::Serialise
    }
}

/// The step behind one that succeeded.
pub open spec fn step_behind(step: PersistStep) -> PersistStep {
    match step {
        PersistStep::CreateDirectory => PersistStep::Serialise,
        PersistStep::Serialise => PersistStep::WriteTemporary,
        PersistStep::WriteTemporary => PersistStep::Replace,
        PersistStep::Replace => PersistStep::Saved,
        PersistStep::Saved => PersistStep::Saved,
    }
}

/// The next step, or the end where a step failed.
pub fn persist_playback_registry(step: PersistStep, outcome: Result<(), String>) -> (r: Result<
    PersistStep,
    String,
>)
    ensures
        match (outcome, r) {
            (Ok(_), Ok(next)) => next == step_behind(step),
            (Err(message), Err(e)) => e@ == message@,
            _ => false,
        },
{
    match outcome {
        Err(message) => Err(message),
        Ok(_) => Ok(
            match step {
                PersistStep::CreateDirectory => PersistStep::Serialise,
                PersistStep::Serialise => PersistStep::WriteTemporary,
                PersistStep::WriteTemporary => PersistStep::Replace,
                PersistStep::Replace => PersistStep::Saved,
                PersistStep::Saved => PersistStep::Saved,
            },
        ),
    }
}

/// The saved registry is replaced only by a file that has been written whole.
pub proof fn law_registry_is_replaced_whole(step: PersistStep)
    ensures
        step_behind(step) == PersistStep::Replace <==> step == PersistStep::WriteTemporary,
        step_behind(step) == PersistStep::Saved <==> step == PersistStep::Replace || step
            == PersistStep::Saved,
{
}

/// A client with the key can register every acceptable asset under every id
/// that an asset can have, and take away what is there; it is told of an id
/// that no asset can have, and of the reason why an asset is not acceptable.
pub proof fn law_changes_are_refused_for_cause(
    req: RequestHead,
    api_key: Seq<char>,
    id: Seq<char>,
    input: AssetView,
)
    requires
        presented(req.api_key) == api_key,
    ensures
        ({
            let bad_id = ErrorView {
                code: "INVALID_ASSET_ID"@,
                message: "Playback asset id is invalid"@,
                status: 400,
            };
            &&& asset_id(id) ==> change_refusal(req, api_key, id) is None
            &&& !asset_id(id) ==> change_refusal(req, api_key, id) == Some(bad_id)
            &&& !asset_id(id) ==> put_refusal(req, api_key, id, input) == Some(bad_id)
            &&& asset_id(id) && asset_refusal(input) is None ==> put_refusal(
                req,
                api_key,
                id,
                input,
            ) is None
            &&& asset_id(id) ==> (asset_refusal(input) matches Some(reason) ==> put_refusal(
                req,
                api_key,
                id,
                input,
            ) == Some(
                ErrorView { code: "INVALID_PLAYBACK_ASSET"@, message: reason, status: 422 },
            ))
        }),
{
}

/// A CDN with its key finds what the registry holds under an id, just as it
/// is held, and is told where it holds nothing, or never can.
pub proof fn law_lookups_give_what_is_held(
    req: RequestHead,
    origin_key: Seq<char>,
    id: Seq<char>,
    registry: Map<Seq<char>, AssetView>,
)
    requires
        presented(req.playback_origin_key) == origin_key,
    ensures
        ({
            let found = playback_lookup(req, origin_key, id, registry);
            &&& asset_id(id) && registry.contains_key(id) ==> found == Ok::<AssetView, ErrorView>(
                registry[id],
            )
            &&& asset_id(id) && !registry.contains_key(id) ==> (found matches Err(e) && e.code
                == "NOT_FOUND"@ && e.message == "Playback asset not found"@ && e.status == 404)
            &&& !asset_id(id) ==> (found matches Err(e) && e.code == "INVALID_ASSET_ID"@ && e.message
                == "Playback asset id is invalid"@ && e.status == 400)
            &&& asset_id(id) <==> segment_refusal(req, origin_key, id) is None
            &&& !asset_id(id) ==> (segment_refusal(req, origin_key, id) matches Some(e) && found
                == Err::<AssetView, ErrorView>(e))
        }),
{
}

/// A loaded registry holds what its entries say, one after the other.
pub proof fn law_entries_are_loaded_one_by_one(
    entries: Seq<RegistryEntry>,
    entry: RegistryEntry,
)
    ensures
        registry_of(Seq::empty()) == Map::<Seq<char>, AssetView>::empty(),
        registry_of(entries.push(entry)) == registry_of(entries).insert(
            entry.asset_id@,
            entry.asset@,
        ),
{
    assert(entries.push(entry).drop_last() == entries);
}

/// Saving goes from the directory to the bytes, to the file beside, to the
/// registry, and ends there.
pub proof fn law_saving_goes_step_by_step()
    ensures
        step_behind(PersistStep::CreateDirectory) == PersistStep::Serialise,
        step_behind(PersistStep::Serialise) == PersistStep::WriteTemporary,
        step_behind(PersistStep::WriteTemporary) == PersistStep::Replace,
        step_behind(PersistStep::Replace) == PersistStep::Saved,
        step_behind(PersistStep::Saved) == PersistStep::Saved,
{
}

} // verus!
