use vstd::prelude::*;

use crate::config;
use crate::matcher::{feed_matches, FeedMatcher, FeedMatchers};
use crate::storage::{key_high, key_low, FeedContent};
use serde_json::Value;
use zstd::bulk::Decompressor;

verus! {

/// The largest decoded frame that the consumer accepts, in bytes.
pub const MAX_MESSAGE_SIZE: usize = 25000;

/// How often the watermark is written to the store, in seconds.
pub const CHECKPOINT_INTERVAL_SECS: u64 = 120;

#[verifier::external_type_specification]
#[verifier::external_body]
pub struct ExDecompressor<'a>(Decompressor<'a>);

/// What zstd's `bulk::Decompressor::decompress_to_buffer` writes for `data` into a buffer of
/// `capacity` bytes, or nothing when it fails.
pub uninterp spec fn zstd_decoded(decompressor: Decompressor<'static>, data: Seq<u8>, capacity: nat) -> Option<Seq<u8>>;

/// Relies on zstd's `bulk::Decompressor::decompress_to_buffer`, into a byte slice of exactly
/// `capacity` bytes: the bytes written depend on the decompressor, the data and the capacity
/// alone, and never exceed the slice.
#[verifier::external_body]
fn decompress(decompressor: &mut Decompressor<'static>, data: &[u8], capacity: usize) -> (r:
    Option<Vec<u8>>)
    ensures
        r matches Some(v) ==> zstd_decoded(*old(decompressor), data@, capacity as nat) == Some(v@),
        r is None ==> zstd_decoded(*old(decompressor), data@, capacity as nat) is None,
        r matches Some(v) ==> v@.len() <= capacity,
{
    let mut buffer = vec![0u8; capacity];
    match decompressor.decompress_to_buffer(data, &mut buffer[..]) {
        Ok(written) => {
            buffer.truncate(written);
            Some(buffer)
        },
        Err(_) => None,
    }
}

/// What the consumer makes of a decompressed frame: the frame when it holds at most
/// `MAX_MESSAGE_SIZE` bytes, else nothing.
pub open spec fn accepted_frame(decoded: Option<Seq<u8>>) -> Option<Seq<u8>> {
    match decoded {
        Some(v) => if v.len() <= MAX_MESSAGE_SIZE {
            Some(v)
        } else {
            None
        },
        None => None,
    }
}

/// A decompressed frame as the consumer accepts it: at most `MAX_MESSAGE_SIZE` bytes.
pub fn bounded_frame(decoded: Option<Vec<u8>>) -> (r: Option<Vec<u8>>)
    ensures
        r == match decoded {
            Some(v) => if v@.len() <= MAX_MESSAGE_SIZE {
                Some(v)
            } else {
                None
            },
            None => None,
        },
{
    match decoded {
        Some(v) => if v.len() > MAX_MESSAGE_SIZE {
            None
        } else {
            Some(v)
        },
        None => None,
    }
}

/// Decompresses one frame, with room for one byte more than `MAX_MESSAGE_SIZE` so that an
/// oversized frame shows; a frame that does not decode, or decodes to more than
/// `MAX_MESSAGE_SIZE` bytes, gives nothing.
pub fn decode_frame(decompressor: &mut Decompressor<'static>, payload: &[u8]) -> (r: Option<
    Vec<u8>,
>)
    ensures
        r matches Some(v) ==> accepted_frame(
            zstd_decoded(*old(decompressor), payload@, (MAX_MESSAGE_SIZE + 1) as nat),
        ) == Some(v@),
        r is None ==> accepted_frame(
            zstd_decoded(*old(decompressor), payload@, (MAX_MESSAGE_SIZE + 1) as nat),
        ) is None,
        r matches Some(v) ==> v@.len() <= MAX_MESSAGE_SIZE,
{
    bounded_frame(decompress(decompressor, payload, MAX_MESSAGE_SIZE + 1))
}

/// What the stream consumer is configured with.
#[derive(Clone, Debug)]
pub struct ConsumerTaskConfig {
    pub user_agent: String,
    pub zstd_dictionary_location: String,
    pub jetstream_hostname: String,
    pub feeds: config::Feeds,
}

/// The change that a commit event carries.
#[derive(Clone, Debug)]
pub enum CommitOp {
    Create { collection: String, rkey: String, cid: String },
    Update { collection: String, rkey: String, cid: String },
    Delete { collection: String, rkey: String },
}

/// An event of the stream, as the consumer reads it.
#[derive(Clone, Debug)]
pub struct CommitEvent {
    pub did: String,
    pub kind: String,
    pub time_us: u64,
    pub commit: Option<CommitOp>,
}

/// `at://{did}/{collection}/{rkey}`.
pub open spec fn post_uri(did: Seq<char>, collection: Seq<char>, rkey: Seq<char>) -> Seq<char> {
    "at://"@ + did + "/"@ + collection + "/"@ + rkey
}

/// The reference (uri and content id) that an event yields: created and updated records
/// yield one, deletions and events without a commit none.
pub open spec fn post_reference(event: CommitEvent) -> Option<(Seq<char>, Seq<char>)> {
    match event.commit {
        Some(CommitOp::Create { collection, rkey, cid }) => Some(
            (post_uri(event.did@, collection@, rkey@), cid@),
        ),
        Some(CommitOp::Update { collection, rkey, cid }) => Some(
            (post_uri(event.did@, collection@, rkey@), cid@),
        ),
        _ => None,
    }
}

fn at_uri(did: &String, collection: &String, rkey: &String) -> (r: String)
    ensures
        r@ == post_uri(did@, collection@, rkey@),
{
    let mut uri = "at://".to_owned();
    uri.append(did.as_str());
    uri.append("/");
    uri.append(collection.as_str());
    uri.append("/");
    uri.append(rkey.as_str());
    uri
}

pub fn to_post_strong_ref(event: &CommitEvent) -> (r: Option<(String, String)>)
    ensures
        r is Some <==> post_reference(*event) is Some,
        r matches Some(p) ==> post_reference(*event) == Some((p.0@, p.1@)),
{
    match &event.commit {
        Some(CommitOp::Create { collection, rkey, cid }) => Some(
            (at_uri(&event.did, collection, rkey), cid.clone()),
        ),
        Some(CommitOp::Update { collection, rkey, cid }) => Some(
            (at_uri(&event.did, collection, rkey), cid.clone()),
        ),
        _ => None,
    }
}

pub open spec fn is_commit(event: CommitEvent) -> bool {
    event.kind@ == "commit"@
}

/// The rows that an event yields for the feeds `matched`: one per feed, in order, each with the
/// event's reference and sort key; none for an event that is not a commit or has no reference.
pub open spec fn rows_for(event: CommitEvent, matched: Seq<Seq<char>>, rows: Seq<FeedContent>) -> bool {
    if is_commit(event) && post_reference(event) is Some {
        let (uri, cid) = post_reference(event)->0;
        &&& rows.len() == matched.len()
        &&& forall|i: int|
            0 <= i < rows.len() ==> {
                let row = #[trigger] rows[i];
                &&& row.feed_id@ == matched[i]
                &&& row.uri@ == uri
                &&& row.cid@ == cid
                &&& row.indexed_at == key_high(event.time_us)
                &&& row.indexed_at_more == key_low(event.time_us)
            }
    } else {
        rows.len() == 0
    }
}

/// The rows to store for an event, given the feeds whose rules it matched.
pub fn plan_rows(event: &CommitEvent, matched: &Vec<String>) -> (r: Vec<FeedContent>)
    ensures
        rows_for(*event, matched@.map_values(|s: String| s@), r@),
{
    let mut rows: Vec<FeedContent> = Vec::new();
    if event.kind != "commit".to_owned() {
        return rows;
    }
    let (uri, cid) = match to_post_strong_ref(event) {
        Some(p) => p,
        None => return rows,
    };
    let ghost m = matched@.map_values(|s: String| s@);
    let mut i: usize = 0;
    while i < matched.len()
        invariant
            i <= matched@.len(),
            m == matched@.map_values(|s: String| s@),
            rows@.len() == i,
            forall|j: int|
                0 <= j < i ==> {
                    let row = #[trigger] rows@[j];
                    &&& row.feed_id@ == m[j]
                    &&& row.uri@ == uri@
                    &&& row.cid@ == cid@
                    &&& row.indexed_at == key_high(event.time_us)
                    &&& row.indexed_at_more == key_low(event.time_us)
                },
        decreases matched.len() - i,
    {
        let row = FeedContent::new(matched[i].clone(), uri.clone(), event.time_us, cid.clone());
        rows.push(row);
        i = i + 1;
    }
    rows
}

/// The uris of the feeds among `matchers` whose rules match the event, in order.
pub open spec fn matched_uris(matchers: Seq<FeedMatcher>, value: Value) -> Seq<Seq<char>>
    decreases matchers.len(),
{
    if matchers.len() == 0 {
        Seq::empty()
    } else {
        let rest = matched_uris(matchers.drop_last(), value);
        if feed_matches(matchers.last(), value) {
            rest.push(matchers.last().feed_view())
        } else {
            rest
        }
    }
}

/// The uris of the feeds whose rules match the event, in configuration order.
pub fn matching_feeds(matchers: &FeedMatchers, value: &Value) -> (r: Vec<String>)
    ensures
        r@.map_values(|s: String| s@) == matched_uris(matchers.0@, *value),
{
    let mut out: Vec<String> = Vec::new();
    let mut i: usize = 0;
    while i < matchers.0.len()
        invariant
            i <= matchers.0@.len(),
            out@.map_values(|s: String| s@) == matched_uris(matchers.0@.take(i as int), *value),
        decreases matchers.0.len() - i,
    {
        assert(matchers.0@.take(i + 1).drop_last() =~= matchers.0@.take(i as int));
        assert(matchers.0@.take(i + 1).last() == matchers.0@[i as int]);
        if matchers.0[i].matches(value) {
            let ghost before = out@;
            out.push(matchers.0[i].feed_uri().clone());
            assert(out@.map_values(|s: String| s@) =~= before.map_values(|s: String| s@).push(
                matchers.0@[i as int].feed_view(),
            ));
        }
        i = i + 1;
    }
    assert(matchers.0@.take(i as int) =~= matchers.0@);
    out
}

pub open spec fn max_u64(a: u64, b: u64) -> u64 {
    if a < b {
        b
    } else {
        a
    }
}

/// The watermark after observing `times` in order, starting from `start`.
pub open spec fn watermark_after(start: u64, times: Seq<u64>) -> u64
    decreases times.len(),
{
    if times.len() == 0 {
        start
    } else {
        max_u64(watermark_after(start, times.drop_last()), times.last())
    }
}

/// The watermark of a run never regresses: after any prefix of the observed times it is at
/// least what it was after any shorter prefix, at least every time observed so far, and
/// equal to the start or to one of those times.
pub proof fn lemma_watermark_run(start: u64, times: Seq<u64>)
    ensures
        watermark_after(start, times) >= start,
        forall|i: int| 0 <= i < times.len() ==> watermark_after(start, times) >= #[trigger] times[i],
        forall|n: int|
            0 <= n <= times.len() ==> watermark_after(start, #[trigger] times.take(n))
                <= watermark_after(start, times),
        watermark_after(start, times) == start || exists|i: int|
            0 <= i < times.len() && watermark_after(start, times) == #[trigger] times[i],
    decreases times.len(),
{
    if times.len() > 0 {
        let rest = times.drop_last();
        lemma_watermark_run(start, rest);
        assert forall|i: int| 0 <= i < times.len() implies watermark_after(start, times)
            >= #[trigger] times[i] by {
            if i < times.len() - 1 {
                assert(times[i] == rest[i]);
            }
        }
        assert forall|n: int| 0 <= n <= times.len() implies watermark_after(
            start,
            #[trigger] times.take(n),
        ) <= watermark_after(start, times) by {
            if n == times.len() {
                assert(times.take(n) =~= times);
            } else {
                assert(times.take(n) =~= rest.take(n));
            }
        }
        if watermark_after(start, rest) != start && watermark_after(start, times) != times.last() {
            let i = choose|i: int|
                0 <= i < rest.len() && watermark_after(start, rest) == #[trigger] rest[i];
            assert(times[i] == rest[i]);
        }
    } else {
        assert forall|n: int| 0 <= n <= times.len() implies watermark_after(
            start,
            #[trigger] times.take(n),
        ) <= watermark_after(start, times) by {
            assert(times.take(n) =~= times);
        }
    }
}

/// What the consumer loop does next.
#[derive(PartialEq, Eq, Structural, Clone, Copy, Debug)]
pub enum ConsumerAction {
    /// Leave the loop without writing the watermark.
    Stop,
    /// Write this watermark as the checkpoint of the source.
    Checkpoint(u64),
}

/// What the consumer loop waits on, other than a frame.
#[derive(PartialEq, Eq, Structural, Clone, Copy, Debug)]
pub enum ConsumerSignal {
    /// The shared shutdown signal fired.
    Cancelled,
    /// The checkpoint interval elapsed.
    FlushDue,
    /// The upstream connection closed.
    Closed,
}

/// The consumer's running state: the largest event time seen so far.
pub struct ConsumerState {
    watermark: u64,
}

impl ConsumerState {
    pub closed spec fn watermark_view(&self) -> u64 {
        self.watermark
    }

    pub fn new() -> (r: Self)
        ensures
            r.watermark_view() == 0,
    {
        ConsumerState { watermark: 0 }
    }

    pub fn watermark(&self) -> (r: u64)
        ensures
            r == self.watermark_view(),
    {
        self.watermark
    }

    /// Takes an event's time into the watermark, which keeps the largest time seen.
    pub fn observe(&mut self, time_us: u64)
        ensures
            final(self).watermark_view() == max_u64(old(self).watermark_view(), time_us),
            final(self).watermark_view() >= old(self).watermark_view(),
    {
        if self.watermark < time_us {
            self.watermark = time_us;
        }
    }

    /// Handles a decoded event: every event moves the watermark; a created or updated record
    /// yields one row for each feed whose rules match the event, and nothing else does.
    pub fn on_event(&mut self, event: &CommitEvent, value: &Value, matchers: &FeedMatchers) -> (r: Vec<FeedContent>)
        ensures
            final(self).watermark_view() == max_u64(old(self).watermark_view(), event.time_us),
            rows_for(*event, matched_uris(matchers.0@, *value), r@),
            !is_commit(*event) ==> r@.len() == 0,
            post_reference(*event) is None ==> r@.len() == 0,
    {
        self.observe(event.time_us);
        if event.kind != "commit".to_owned() {
            return Vec::new();
        }
        let matched = matching_feeds(matchers, value);
        plan_rows(event, &matched)
    }

    /// Decides what a signal means: shutdown and a closed connection end the loop without a
    /// final write; an elapsed interval writes the current watermark.
    pub fn on_signal(&self, signal: ConsumerSignal) -> (r: ConsumerAction)
        ensures
            signal == ConsumerSignal::FlushDue ==> r == ConsumerAction::Checkpoint(
                self.watermark_view(),
            ),
            signal != ConsumerSignal::FlushDue ==> r == ConsumerAction::Stop,
    {
        match signal {
            ConsumerSignal::FlushDue => ConsumerAction::Checkpoint(self.watermark),
            _ => ConsumerAction::Stop,
        }
    }
}

} // verus!
