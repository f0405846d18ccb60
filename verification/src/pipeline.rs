//! The fetch pipeline's bookkeeping: download validation, the in-flight
//! state table that suppresses duplicate fetches, and the bounded
//! most-recent-first queue feeding the network thread.

use crate::bitmap::crop;
use crate::bitmap::flip_vertical;
use crate::bitmap::Bitmap;
use crate::cache::lru_after_get;
use crate::cache::lru_after_push;
use crate::cache::lru_capacity;
use crate::cache::lru_entries;
use crate::cache::lru_get;
use crate::cache::lru_has_key;
use crate::cache::lru_keys_distinct;
use crate::cache::lru_new;
use crate::cache::lru_push;
use crate::cache::lru_value_of;
use crate::cache::lemma_lru_get_wf;
use crate::cache::lemma_lru_push_wf;
use crate::cache::tile_key;
use crate::cache::tile_key64;
use crate::tile::TilePos;
use lru::LruCache;
use std::collections::hash_map::RandomState;
use std::collections::VecDeque;
use vstd::prelude::*;

verus! {

/// Why a fetch attempt yielded no tile.
#[derive(Debug, Copy, Clone, PartialEq, Eq, Structural)]
pub enum FetchError {
    /// The transport failed before any response arrived.
    Transport,
    /// The server answered with a status other than 200.
    Http(u32),
    /// The payload is too short or carries neither PNG nor JPEG magic.
    NotAnImage,
    /// The image bytes failed to decode.
    Decode,
}

/// The bytes start with the PNG signature.
pub open spec fn is_png(b: Seq<u8>) -> bool {
    b.len() >= 4 && b[0] == 0x89u8 && b[1] == 0x50u8 && b[2] == 0x4eu8 && b[3] == 0x47u8
}

/// The bytes start with the JPEG start-of-image marker.
pub open spec fn is_jpeg(b: Seq<u8>) -> bool {
    b.len() >= 2 && b[0] == 0xffu8 && b[1] == 0xd8u8
}

/// A downloaded body acceptable as tile imagery: long enough to inspect
/// and carrying one of the two accepted magics.
pub open spec fn valid_image_magic(b: Seq<u8>) -> bool {
    b.len() >= 4 && (is_png(b) || is_jpeg(b))
}

/// Judge a finished download: accepted exactly when the status is 200 and
/// the body announces PNG or JPEG; anything else is a validation failure,
/// never retried by the caller.
pub fn validate_download(response_code: u32, data: &Vec<u8>) -> (r: Result<(), FetchError>)
    ensures
        response_code != 200 ==> r == Err::<(), FetchError>(FetchError::Http(response_code)),
        response_code == 200 && !valid_image_magic(data@) ==> r == Err::<(), FetchError>(
            FetchError::NotAnImage,
        ),
        response_code == 200 && valid_image_magic(data@) ==> r == Ok::<(), FetchError>(()),
{
    if response_code != 200 {
        return Err(FetchError::Http(response_code));
    }
    if data.len() < 4 {
        return Err(FetchError::NotAnImage);
    }
    let png = data[0] == 0x89u8 && data[1] == 0x50u8 && data[2] == 0x4eu8 && data[3] == 0x47u8;
    let jpeg = data[0] == 0xffu8 && data[1] == 0xd8u8;
    if png || jpeg {
        Ok(())
    } else {
        Err(FetchError::NotAnImage)
    }
}

/// What decoding a byte body yields: the RGBA image's width, height and
/// raw bytes, a function of the encoded bytes alone; nothing when the
/// bytes are no decodable image.
pub uninterp spec fn decoded_of(b: Seq<u8>) -> Option<(u32, u32, Seq<u8>)>;

/// Relies on image::load_from_memory and image::DynamicImage::to_rgba8:
/// the decoded image is a function of the bytes alone, and the raw RGBA
/// buffer holds exactly four bytes per pixel.
#[verifier::external_body]
fn decode_rgba(data: &Vec<u8>) -> (r: Option<Bitmap>)
    ensures
        r is Some <==> decoded_of(data@) is Some,
        r matches Some(bm) ==> decoded_of(data@) matches Some(d) && bm.width == d.0 && bm.height
            == d.1 && bm.pixels@ == d.2 && bm.wf(),
{
    match image::load_from_memory(data.as_slice()) {
        Ok(img) => {
            let rgba = img.to_rgba8();
            let (w, h) = (rgba.width(), rgba.height());
            Some(Bitmap { width: w, height: h, pixels: rgba.into_raw() })
        },
        Err(_) => None,
    }
}

/// The outcome of resolving one requested address, handed to the render
/// loop over the result channel and consumed exactly once.
pub enum TileLoad {
    /// The exact tile is still missing: `texture` is a crop of the
    /// cached ancestor `source_tile`, standing in for `target_tile`.
    Loading { texture: Bitmap, source_tile: TilePos, target_tile: TilePos },
    /// `texture` is the tile `source_tile` itself.
    Loaded { texture: Bitmap, source_tile: TilePos },
    /// Nothing could be resolved.
    Failed,
}

/// A cache entry as the render loop keeps it once the pixels are
/// uploaded: the renderer-owned texture handle in place of the bytes.
#[derive(Debug, Copy, Clone, PartialEq, Eq, Structural)]
pub enum TileState {
    /// The handle shows a cropped ancestor (`source_tile`) standing in
    /// for `target_tile`.
    Loading { texture_id: u32, source_tile: TilePos, target_tile: TilePos },
    /// The handle shows exactly `source_tile`.
    Loaded { texture_id: u32, source_tile: TilePos },
    /// Resolution failed; nothing to draw.
    Failed,
}

/// Turn a disk hit into an outcome. `found` is the first address of the
/// requested address's ancestor chain whose entry was on disk and `data`
/// that entry's bytes. An exact hit yields the tile itself; a hit on a
/// proper ancestor of the standard 256-pixel edge yields the crop of the
/// requested footprint, scanlines flipped for the renderer either way.
/// Undecodable bytes — or an ancestor of unexpected size — yield nothing,
/// and the caller treats the entry as a miss and deletes it.
pub fn load_outcome(requested: &TilePos, found: &TilePos, data: &Vec<u8>) -> (r: Option<TileLoad>)
    requires
        requested.wf(),
        found.wf(),
    ensures
        decoded_of(data@) is None ==> r is None,
        decoded_of(data@) is Some && *found == *requested ==> ({
            let d = decoded_of(data@)->0;
            &&& r matches Some(TileLoad::Loaded { texture, source_tile })
            &&& source_tile == *found
            &&& texture.wf()
            &&& texture.width == d.0
            &&& texture.height == d.1
            &&& forall|y: int, k: int|
                0 <= y < d.1 && 0 <= k < 4 * d.0 ==> #[trigger] texture.pixels@[4 * d.0 * y + k]
                    == d.2[4 * d.0 * (d.1 - 1 - y) + k]
        }),
        decoded_of(data@) is Some && *found != *requested && ((decoded_of(data@)->0).0 != 256
            || (decoded_of(data@)->0).1 != 256) ==> r is None,
        decoded_of(data@) is Some && *found != *requested && (decoded_of(data@)->0).0 == 256
            && (decoded_of(data@)->0).1 == 256 ==> ({
            let d = decoded_of(data@)->0;
            let c = found.spec_crop(*requested);
            &&& r matches Some(TileLoad::Loading { texture, source_tile, target_tile })
            &&& source_tile == *found
            &&& target_tile == *requested
            &&& texture.wf()
            &&& texture.width == c.2
            &&& texture.height == c.2
            &&& forall|y: int, k: int|
                0 <= y < c.2 && 0 <= k < 4 * c.2 ==> #[trigger] texture.pixels@[4 * c.2 * y + k]
                    == d.2[4 * ((c.1 + (c.2 - 1 - y)) * 256 + c.0) + k]
        }),
{
    let decoded = decode_rgba(data);
    match decoded {
        None => None,
        Some(bm) => {
            if *found == *requested {
                let texture = flip_vertical(&bm);
                Some(TileLoad::Loaded { texture, source_tile: *found })
            } else if bm.width == 256 && bm.height == 256 {
                let mut anc = *found;
                let (cx, cy, cs, _) = anc.get_crop(requested);
                let cropped = crop(&bm, cx as u32, cy as u32, cs as u32);
                let texture = flip_vertical(&cropped);
                Some(
                    TileLoad::Loading {
                        texture,
                        source_tile: *found,
                        target_tile: *requested,
                    },
                )
            } else {
                None
            }
        },
    }
}

/// Turn a finished network download into an outcome: validate the status
/// and magic, decode, and flip the scanlines for the renderer. Exactly
/// the bodies `validate_download` accepts and the decoder takes yield the
/// tile; each failure names its error.
pub fn network_outcome(requested: &TilePos, response_code: u32, data: &Vec<u8>) -> (r: Result<
    TileLoad,
    FetchError,
>)
    requires
        requested.wf(),
    ensures
        response_code != 200 ==> r == Err::<TileLoad, FetchError>(
            FetchError::Http(response_code),
        ),
        response_code == 200 && !valid_image_magic(data@) ==> r == Err::<TileLoad, FetchError>(
            FetchError::NotAnImage,
        ),
        response_code == 200 && valid_image_magic(data@) && decoded_of(data@) is None ==> r
            == Err::<TileLoad, FetchError>(FetchError::Decode),
        response_code == 200 && valid_image_magic(data@) && decoded_of(data@) is Some ==> ({
            let d = decoded_of(data@)->0;
            &&& r matches Ok(TileLoad::Loaded { texture, source_tile })
            &&& source_tile == *requested
            &&& texture.wf()
            &&& texture.width == d.0
            &&& texture.height == d.1
            &&& forall|y: int, k: int|
                0 <= y < d.1 && 0 <= k < 4 * d.0 ==> #[trigger] texture.pixels@[4 * d.0 * y + k]
                    == d.2[4 * d.0 * (d.1 - 1 - y) + k]
        }),
{
    if let Err(e) = validate_download(response_code, data) {
        return Err(e);
    }
    match decode_rgba(data) {
        None => Err(FetchError::Decode),
        Some(bm) => {
            let texture = flip_vertical(&bm);
            Ok(TileLoad::Loaded { texture, source_tile: *requested })
        },
    }
}

/// Where a requested address stands in the pipeline.
#[derive(Debug, Copy, Clone, PartialEq, Eq, Structural)]
pub enum InFlightState {
    /// A worker owns the request; duplicates are suppressed.
    Requested,
    /// A cropped ancestor was sent while the exact tile downloads;
    /// duplicates are still suppressed.
    ApproximationSent,
    /// The exact tile was delivered.
    Resolved,
    /// The entry is stale; the next request may fetch again.
    Expired,
}

/// The table value standing for each state.
pub open spec fn spec_state_code(s: InFlightState) -> u64 {
    match s {
        InFlightState::Requested => 0,
        InFlightState::ApproximationSent => 1,
        InFlightState::Resolved => 2,
        InFlightState::Expired => 3,
    }
}

/// The table value standing for the state.
pub fn state_code(s: InFlightState) -> (c: u64)
    ensures
        c == spec_state_code(s),
        c < 4,
{
    match s {
        InFlightState::Requested => 0,
        InFlightState::ApproximationSent => 1,
        InFlightState::Resolved => 2,
        InFlightState::Expired => 3,
    }
}

/// The state a table value stands for.
pub open spec fn spec_state_of_code(c: u64) -> InFlightState {
    if c == 0 {
        InFlightState::Requested
    } else if c == 1 {
        InFlightState::ApproximationSent
    } else if c == 2 {
        InFlightState::Resolved
    } else {
        InFlightState::Expired
    }
}

/// The state a table value stands for.
fn state_of_code(c: u64) -> (s: InFlightState)
    ensures
        s == spec_state_of_code(c),
{
    if c == 0 {
        InFlightState::Requested
    } else if c == 1 {
        InFlightState::ApproximationSent
    } else if c == 2 {
        InFlightState::Resolved
    } else {
        InFlightState::Expired
    }
}

/// An address in this table state suppresses a new submission: work for
/// it is already under way or an approximation was already sent.
pub open spec fn submit_blocked(s: Seq<(u64, u64)>, k: u64) -> bool {
    lru_has_key(s, k) && (spec_state_of_code(lru_value_of(s, k)) == InFlightState::Requested
        || spec_state_of_code(lru_value_of(s, k)) == InFlightState::ApproximationSent)
}

/// The bounded table of addresses whose fetch is under way, keyed by
/// packed address. It deduplicates concurrent requests: a submission is
/// granted only when the address is absent, resolved, or expired. The
/// LRU bound keeps the table from growing with a burst of distinct
/// addresses; evicting an entry never cancels work, it only lets a later
/// duplicate through.
pub struct InFlightTable {
    inner: LruCache<u64, u64, RandomState>,
}

impl InFlightTable {
    /// The table's (key, state code) pairs, most recently touched first.
    pub closed spec fn entries(self) -> Seq<(u64, u64)> {
        lru_entries(self.inner)
    }

    /// The fixed bound on how many entries the table holds.
    pub closed spec fn capacity(self) -> nat {
        lru_capacity(self.inner)
    }

    /// Within bounds, one entry per key.
    pub open spec fn wf(self) -> bool {
        &&& lru_keys_distinct(self.entries())
        &&& self.entries().len() <= self.capacity()
        &&& self.capacity() >= 1
    }

    /// An empty table that will hold at most `cap` entries.
    pub fn new(cap: usize) -> (r: Self)
        requires
            cap >= 1,
        ensures
            r.wf(),
            r.entries() == Seq::<(u64, u64)>::empty(),
            r.capacity() == cap,
    {
        InFlightTable { inner: lru_new(cap) }
    }

    /// The state recorded for the address, marking its entry most
    /// recently touched.
    pub fn status(&mut self, t: &TilePos) -> (r: Option<InFlightState>)
        requires
            old(self).wf(),
            t.wf(),
        ensures
            final(self).wf(),
            final(self).capacity() == old(self).capacity(),
            final(self).entries() == lru_after_get(old(self).entries(), tile_key64(*t)),
            r == if lru_has_key(old(self).entries(), tile_key64(*t)) {
                Some(spec_state_of_code(lru_value_of(old(self).entries(), tile_key64(*t))))
            } else {
                None::<InFlightState>
            },
    {
        let k = tile_key(t);
        proof {
            lemma_lru_get_wf(lru_entries(self.inner), k);
        }
        match lru_get(&mut self.inner, k) {
            Some(c) => Some(state_of_code(c)),
            None => None,
        }
    }

    /// Record the state for the address as the most recent entry.
    pub fn set(&mut self, t: &TilePos, st: InFlightState)
        requires
            old(self).wf(),
            t.wf(),
        ensures
            final(self).wf(),
            final(self).capacity() == old(self).capacity(),
            final(self).entries() == lru_after_push(
                old(self).entries(),
                old(self).capacity(),
                tile_key64(*t),
                spec_state_code(st),
            ),
    {
        let k = tile_key(t);
        let c = state_code(st);
        proof {
            lemma_lru_push_wf(lru_entries(self.inner), lru_capacity(self.inner), k, c);
        }
        let _ = lru_push(&mut self.inner, k, c);
    }

    /// The single critical-section step of a worker taking a request:
    /// grant it and mark the address `Requested` unless the address is
    /// already being worked on. Exactly the granted submissions fetch, so
    /// duplicates of an in-flight address cause no second fetch.
    pub fn try_submit(&mut self, t: &TilePos) -> (granted: bool)
        requires
            old(self).wf(),
            t.wf(),
        ensures
            final(self).wf(),
            final(self).capacity() == old(self).capacity(),
            granted == !submit_blocked(old(self).entries(), tile_key64(*t)),
            !granted ==> final(self).entries() == lru_after_get(
                old(self).entries(),
                tile_key64(*t),
            ),
            granted ==> final(self).entries() == lru_after_push(
                old(self).entries(),
                old(self).capacity(),
                tile_key64(*t),
                spec_state_code(InFlightState::Requested),
            ),
            granted ==> submit_blocked(final(self).entries(), tile_key64(*t)),
            (final(self).entries(), granted) == submit_step(
                old(self).entries(),
                old(self).capacity(),
                tile_key64(*t),
            ),
    {
        let ghost s0 = self.entries();
        let ghost k = tile_key64(*t);
        let blocked = match self.status(t) {
            Some(InFlightState::Requested) => true,
            Some(InFlightState::ApproximationSent) => true,
            _ => false,
        };
        if blocked {
            false
        } else {
            proof {
                lemma_lru_get_wf(s0, k);
            }
            self.set(t, InFlightState::Requested);
            proof {
                lemma_lru_push_wf(
                    lru_after_get(s0, k),
                    old(self).capacity(),
                    k,
                    spec_state_code(InFlightState::Requested),
                );
                lemma_front_blocks(self.entries(), k);
                assert(self.entries() =~= lru_after_push(
                    s0,
                    old(self).capacity(),
                    k,
                    spec_state_code(InFlightState::Requested),
                ));
            }
            true
        }
    }
}

/// A table whose most recent entry marks `k` as requested, or as served
/// by an approximation, suppresses a new submission of `k`.
proof fn lemma_front_blocks(s: Seq<(u64, u64)>, k: u64)
    requires
        lru_keys_distinct(s),
        s.len() >= 1,
        s[0].0 == k,
        spec_state_of_code(s[0].1) == InFlightState::Requested || spec_state_of_code(s[0].1)
            == InFlightState::ApproximationSent,
    ensures
        submit_blocked(s, k),
{
    assert(lru_has_key(s, k));
    let i = crate::cache::lru_key_index(s, k);
    assert(0 <= i < s.len() && s[i].0 == k);
    if i != 0 {
        assert(s[i].0 == s[0].0);
    }
    assert(lru_value_of(s, k) == s[0].1);
}

/// Repeated promoting lookups of `k` (what suppressed duplicates do to
/// the table) applied `n` times.
pub open spec fn resubmit_n(s: Seq<(u64, u64)>, k: u64, n: nat) -> Seq<(u64, u64)>
    decreases n,
{
    if n == 0 {
        s
    } else {
        lru_after_get(resubmit_n(s, k, (n - 1) as nat), k)
    }
}

/// Duplicate suppression: while an address stands `Requested` (or an
/// approximation was sent), any number of further submissions of the same
/// address are all refused — none fetches — and the address still stands
/// blocked afterwards.
pub proof fn lemma_duplicate_suppression(s: Seq<(u64, u64)>, k: u64, n: nat)
    requires
        lru_keys_distinct(s),
        submit_blocked(s, k),
    ensures
        submit_blocked(resubmit_n(s, k, n), k),
        lru_keys_distinct(resubmit_n(s, k, n)),
    decreases n,
{
    if n > 0 {
        lemma_duplicate_suppression(s, k, (n - 1) as nat);
        let prev = resubmit_n(s, k, (n - 1) as nat);
        lemma_lru_get_wf(prev, k);
        lemma_front_blocks(resubmit_n(s, k, n), k);
    }
}

/// One submission of `k` as `try_submit` performs it: a blocked address
/// is only touched (its entry promoted), any other is granted and marked
/// requested; the flag says whether the fetch was granted.
pub open spec fn submit_step(s: Seq<(u64, u64)>, cap: nat, k: u64) -> (Seq<(u64, u64)>, bool) {
    if submit_blocked(s, k) {
        (lru_after_get(s, k), false)
    } else {
        (lru_after_push(s, cap, k, spec_state_code(InFlightState::Requested)), true)
    }
}

/// `n` submissions of `k` in a row, with the count of granted fetches.
pub open spec fn submit_n(s: Seq<(u64, u64)>, cap: nat, k: u64, n: nat) -> (Seq<(u64, u64)>, nat)
    decreases n,
{
    if n == 0 {
        (s, 0)
    } else {
        let first = submit_step(s, cap, k);
        let rest = submit_n(first.0, cap, k, (n - 1) as nat);
        (rest.0, rest.1 + if first.1 {
            1nat
        } else {
            0nat
        })
    }
}

/// The dedup invariant: however many times one address is submitted with
/// no completion in between, at most one submission is granted a fetch —
/// and once any was, the address stands blocked.
pub proof fn lemma_submit_once(s: Seq<(u64, u64)>, cap: nat, k: u64, n: nat)
    requires
        lru_keys_distinct(s),
        s.len() <= cap,
        cap >= 1,
    ensures
        submit_n(s, cap, k, n).1 <= 1,
        submit_blocked(s, k) ==> submit_n(s, cap, k, n).1 == 0,
        n >= 1 ==> submit_blocked(submit_n(s, cap, k, n).0, k),
        lru_keys_distinct(submit_n(s, cap, k, n).0),
        submit_n(s, cap, k, n).0.len() <= cap,
    decreases n,
{
    if n > 0 {
        let first = submit_step(s, cap, k);
        if submit_blocked(s, k) {
            lemma_lru_get_wf(s, k);
            lemma_front_blocks(first.0, k);
        } else {
            lemma_lru_push_wf(s, cap, k, spec_state_code(InFlightState::Requested));
            lemma_front_blocks(first.0, k);
        }
        lemma_submit_once(first.0, cap, k, (n - 1) as nat);
    }
}

/// Bound on entries the network queue may buffer; beyond it the oldest
/// pending address is dropped.
pub const NET_QUEUE_BOUND: usize = 64;

/// What one push leaves in the queue: the address appended as newest,
/// after dropping the oldest entry if the buffer stands at its bound.
pub open spec fn net_queue_after_push(s: Seq<TilePos>, t: TilePos) -> Seq<TilePos> {
    if s.len() >= NET_QUEUE_BOUND {
        s.drop_first().push(t)
    } else {
        s.push(t)
    }
}

/// The buffer between the resolution workers and the network thread:
/// bounded, drained most recent first, so tiles of the current viewport
/// are fetched before stale pan history, and a burst beyond the bound
/// drops the oldest requests rather than growing.
pub struct NetQueue {
    buf: VecDeque<TilePos>,
}

impl NetQueue {
    /// The buffered addresses, oldest first.
    pub closed spec fn view(self) -> Seq<TilePos> {
        self.buf@
    }

    /// The buffer never exceeds its bound.
    pub open spec fn wf(self) -> bool {
        self.view().len() <= NET_QUEUE_BOUND
    }

    /// An empty queue.
    pub fn new() -> (r: Self)
        ensures
            r.wf(),
            r.view() == Seq::<TilePos>::empty(),
    {
        NetQueue { buf: VecDeque::new() }
    }

    /// How many addresses wait.
    pub fn len(&self) -> (n: usize)
        ensures
            n == self.view().len(),
    {
        self.buf.len()
    }

    /// Buffer an address as the newest entry, dropping the oldest when
    /// the buffer stands at its bound.
    pub fn push(&mut self, t: TilePos)
        requires
            old(self).wf(),
        ensures
            final(self).wf(),
            final(self).view() == net_queue_after_push(old(self).view(), t),
    {
        if self.buf.len() >= NET_QUEUE_BOUND {
            let _ = self.buf.pop_front();
        }
        self.buf.push_back(t);
    }

    /// Take the most recently buffered address — the one most likely
    /// still on screen.
    pub fn pop(&mut self) -> (r: Option<TilePos>)
        requires
            old(self).wf(),
        ensures
            final(self).wf(),
            old(self).view().len() == 0 ==> r is None && final(self).view() == old(self).view(),
            old(self).view().len() > 0 ==> r == Some(old(self).view().last())
                && final(self).view() == old(self).view().drop_last(),
    {
        self.buf.pop_back()
    }
}

/// Most-recent-first drain order: pushing three addresses with no drain
/// in between, the last one pushed is the first one fetched, whatever
/// already waits in the queue.
pub proof fn lemma_net_queue_priority(s: Seq<TilePos>, t1: TilePos, t2: TilePos, t3: TilePos)
    ensures
        ({
            let after = net_queue_after_push(
                net_queue_after_push(net_queue_after_push(s, t1), t2),
                t3,
            );
            &&& after.len() > 0
            &&& after.last() == t3
        }),
{
}

/// A worker's bookkeeping once resolution of `requested` finished: an
/// exact tile marks the address resolved; an approximation marks it so
/// and queues the exact tile for the network; a miss of the whole
/// ancestor chain queues the exact tile and leaves the address marked
/// requested.
pub fn record_outcome(
    table: &mut InFlightTable,
    net: &mut NetQueue,
    requested: &TilePos,
    outcome: &TileLoad,
)
    requires
        old(table).wf(),
        old(net).wf(),
        requested.wf(),
    ensures
        final(table).wf(),
        final(net).wf(),
        final(table).capacity() == old(table).capacity(),
        outcome is Loaded ==> final(table).entries() == lru_after_push(
            old(table).entries(),
            old(table).capacity(),
            tile_key64(*requested),
            spec_state_code(InFlightState::Resolved),
        ) && final(net).view() == old(net).view(),
        outcome is Loading ==> final(table).entries() == lru_after_push(
            old(table).entries(),
            old(table).capacity(),
            tile_key64(*requested),
            spec_state_code(InFlightState::ApproximationSent),
        ) && final(net).view() == net_queue_after_push(old(net).view(), *requested),
        outcome is Failed ==> final(table).entries() == old(table).entries() && final(net).view()
            == net_queue_after_push(old(net).view(), *requested),
{
    match outcome {
        TileLoad::Loaded { .. } => {
            table.set(requested, InFlightState::Resolved);
        },
        TileLoad::Loading { .. } => {
            table.set(requested, InFlightState::ApproximationSent);
            net.push(*requested);
        },
        TileLoad::Failed => {
            net.push(*requested);
        },
    }
}

/// Under which address the render loop caches an outcome's texture: the
/// resolved address of an exact tile, the requested (target) address of
/// an approximation — so the stand-in occupies the right cache slot until
/// the exact tile overwrites it — and none for a failure.
pub fn outcome_cache_key(outcome: &TileLoad) -> (r: Option<TilePos>)
    ensures
        outcome matches TileLoad::Loaded { source_tile, .. } ==> r == Some(*source_tile),
        outcome matches TileLoad::Loading { target_tile, .. } ==> r == Some(*target_tile),
        outcome is Failed ==> r is None,
{
    match outcome {
        TileLoad::Loaded { source_tile, .. } => Some(*source_tile),
        TileLoad::Loading { target_tile, .. } => Some(*target_tile),
        TileLoad::Failed => None,
    }
}

} // verus!
