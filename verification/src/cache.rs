//! Analysis results, and a bounded cache of them that forgets the least recently used.

use vstd::prelude::*;
use crate::error::{ChessError, ChessErrorView};
use crate::fen::{normalize_fen, normalized};
use crate::pv_explain::{captures_view, copy_captures, CaptureEvent, CaptureView, MaterialSwing};
use crate::text::{copy_texts, decimal, texts, words};

verus! {

/// How a score is to be read.
#[derive(Debug, Clone, Copy, PartialEq, Eq, Structural)]
pub enum ScoreKind {
    Cp,
    Mate,
}

/// The engine's judgement: centipawns, or moves to mate.
#[derive(Debug, Clone, Copy, PartialEq, Eq, Structural)]
pub struct Score {
    pub kind: ScoreKind,
    pub cp: Option<i32>,
    pub mate_in: Option<i32>,
}

/// One line of an analysis: a candidate and how the game is expected to go on.
#[derive(Debug, PartialEq, Eq)]
pub struct AnalysisLine {
    pub rank: u32,
    pub score: Score,
    pub pv_uci: Vec<String>,
    pub pv_san: Vec<String>,
    pub captures: Vec<CaptureEvent>,
    pub material_swing: MaterialSwing,
}

/// An analysis of a position.
#[derive(Debug, PartialEq, Eq)]
pub struct AnalysisResult {
    pub schema_version: String,
    pub fen: String,
    pub depth: u32,
    pub multipv: u32,
    pub lines: Vec<AnalysisLine>,
}

/// The contents of an `AnalysisLine`.
pub struct AnalysisLineView {
    pub rank: u32,
    pub score: Score,
    pub pv_uci: Seq<Seq<char>>,
    pub pv_san: Seq<Seq<char>>,
    pub captures: Seq<CaptureView>,
    pub material_swing: MaterialSwing,
}

impl View for AnalysisLine {
    type V = AnalysisLineView;

    open spec fn view(&self) -> AnalysisLineView {
        AnalysisLineView {
            rank: self.rank,
            score: self.score,
            pv_uci: texts(self.pv_uci@),
            pv_san: texts(self.pv_san@),
            captures: captures_view(self.captures@),
            material_swing: self.material_swing,
        }
    }
}

/// The contents of a list of lines.
pub open spec fn lines_view(lines: Seq<AnalysisLine>) -> Seq<AnalysisLineView> {
    lines.map_values(|l: AnalysisLine| l@)
}

/// The contents of an `AnalysisResult`.
pub struct AnalysisResultView {
    pub schema_version: Seq<char>,
    pub fen: Seq<char>,
    pub depth: u32,
    pub multipv: u32,
    pub lines: Seq<AnalysisLineView>,
}

impl View for AnalysisResult {
    type V = AnalysisResultView;

    open spec fn view(&self) -> AnalysisResultView {
        AnalysisResultView {
            schema_version: self.schema_version@,
            fen: self.fen@,
            depth: self.depth,
            multipv: self.multipv,
            lines: lines_view(self.lines@),
        }
    }
}

impl Clone for AnalysisLine {
    fn clone(&self) -> (r: AnalysisLine)
        ensures
            r@ == self@,
    {
        AnalysisLine {
            rank: self.rank,
            score: self.score,
            pv_uci: copy_texts(&self.pv_uci),
            pv_san: copy_texts(&self.pv_san),
            captures: copy_captures(&self.captures),
            material_swing: self.material_swing,
        }
    }
}

/// A copy of a list of lines.
pub fn copy_lines(lines: &Vec<AnalysisLine>) -> (r: Vec<AnalysisLine>)
    ensures
        lines_view(r@) == lines_view(lines@),
{
    let mut out: Vec<AnalysisLine> = Vec::new();
    let mut i: usize = 0;
    while i < lines.len()
        invariant
            i <= lines@.len(),
            lines_view(out@) == lines_view(lines@).take(i as int),
        decreases lines.len() - i,
    {
        let ghost before = lines_view(out@);
        let copy = lines[i].clone();
        out.push(copy);
        assert(lines_view(out@) == before.push(lines_view(lines@)[i as int]));
        i = i + 1;
    }
    assert(lines_view(lines@).take(i as int) == lines_view(lines@));
    out
}

impl Clone for AnalysisResult {
    fn clone(&self) -> (r: AnalysisResult)
        ensures
            r@ == self@,
    {
        AnalysisResult {
            schema_version: self.schema_version.clone(),
            fen: self.fen.clone(),
            depth: self.depth,
            multipv: self.multipv,
            lines: copy_lines(&self.lines),
        }
    }
}

/// The version of the shape of an analysis result.
pub const SCHEMA_VERSION: &'static str = "1.0";

/// What identifies an analysis: the position without its clocks, and the settings.
#[derive(Hash, Eq, PartialEq, Debug)]
pub struct CacheKey {
    pub normalized_fen: String,
    pub depth: u32,
    pub multipv: u32,
}

/// The contents of a `CacheKey`.
pub type KeyView = (Seq<char>, u32, u32);

impl View for CacheKey {
    type V = KeyView;

    open spec fn view(&self) -> KeyView {
        (self.normalized_fen@, self.depth, self.multipv)
    }
}

impl Clone for CacheKey {
    fn clone(&self) -> (r: CacheKey)
        ensures
            r@ == self@,
    {
        CacheKey {
            normalized_fen: self.normalized_fen.clone(),
            depth: self.depth,
            multipv: self.multipv,
        }
    }
}

impl CacheKey {
    pub fn new(fen: &str, depth: u32, multipv: u32) -> (r: Result<CacheKey, ChessError>)
        ensures
            match r {
                Ok(key) => normalized(fen@) == Some(key.normalized_fen@) && key.depth == depth
                    && key.multipv == multipv,
                Err(e) => normalized(fen@) is None && e@ == (ChessErrorView::InvalidFen {
                    message: "FEN must contain at least 4 fields, got "@ + decimal(
                        words(fen@).len(),
                    ),
                    fen: fen@,
                }),
            },
    {
        match normalize_fen(fen) {
            Ok(normalized_fen) => Ok(CacheKey { normalized_fen, depth, multipv }),
            Err(e) => Err(e),
        }
    }
}

/// `lru::LruCache`, known by its entries and its limit.
#[verifier::external_type_specification]
#[verifier::external_body]
#[verifier::reject_recursive_types(K)]
#[verifier::reject_recursive_types(V)]
#[verifier::reject_recursive_types(S)]
pub struct ExLruCache<K, V, S>(lru::LruCache<K, V, S>);

/// `lru::DefaultHasher`, the hasher of an `LruCache`.
#[verifier::external_type_specification]
#[verifier::external_body]
pub struct ExLruDefaultHasher(lru::DefaultHasher);

/// A stored analysis and its key.
pub type Entry = (KeyView, AnalysisResultView);

/// What an `LruCache` holds, the most recently used entry first.
pub uninterp spec fn lru_entries(
    cache: lru::LruCache<(String, u32, u32), AnalysisResult>,
) -> Seq<Entry>;

/// How many entries an `LruCache` was made for.
pub uninterp spec fn lru_limit(
    cache: lru::LruCache<(String, u32, u32), AnalysisResult>,
) -> nat;

/// The value stored under a key.
pub open spec fn stored(entries: Seq<Entry>, key: KeyView) -> Option<AnalysisResultView>
    decreases entries.len(),
{
    if entries.len() == 0 {
        None
    } else if entries[0].0 == key {
        Some(entries[0].1)
    } else {
        stored(entries.skip(1), key)
    }
}

/// The entries other than that of a key, in their order.
pub open spec fn without(entries: Seq<Entry>, key: KeyView) -> Seq<Entry>
    decreases entries.len(),
{
    if entries.len() == 0 {
        seq![]
    } else if entries[0].0 == key {
        without(entries.skip(1), key)
    } else {
        seq![entries[0]] + without(entries.skip(1), key)
    }
}

/// The entries after a key was looked up: its entry, if there is one, is now the first.
pub open spec fn after_get(entries: Seq<Entry>, key: KeyView) -> Seq<Entry> {
    match stored(entries, key) {
        Some(value) => seq![(key, value)] + without(entries, key),
        None => entries,
    }
}

/// The entries after a value was stored: its entry is the first, and where a new key
/// finds the cache full the last entry is gone.
pub open spec fn after_put(
    entries: Seq<Entry>,
    limit: nat,
    key: KeyView,
    value: AnalysisResultView,
) -> Seq<Entry> {
    if stored(entries, key) is Some {
        seq![(key, value)] + without(entries, key)
    } else if entries.len() == limit {
        seq![(key, value)] + entries.drop_last()
    } else {
        seq![(key, value)] + entries
    }
}

/// `LruCache::new`. Its table is allocated at once, so a capacity whose table would not
/// fit into memory addresses is left out.
#[verifier::external_body]
fn lru_new(capacity: usize) -> (r: lru::LruCache<(String, u32, u32), AnalysisResult>)
    requires
        1 <= capacity <= isize::MAX / 64,
    ensures
        lru_entries(r) == Seq::<Entry>::empty(),
        lru_limit(r) == capacity,
{
    lru::LruCache::new(std::num::NonZeroUsize::new(capacity).unwrap())
}

/// `LruCache::len`.
#[verifier::external_body]
fn lru_len(cache: &lru::LruCache<(String, u32, u32), AnalysisResult>) -> (r: usize)
    ensures
        r == lru_entries(*cache).len(),
{
    cache.len()
}

/// `LruCache::is_empty`.
#[verifier::external_body]
fn lru_is_empty(cache: &lru::LruCache<(String, u32, u32), AnalysisResult>) -> (r: bool)
    ensures
        r == (lru_entries(*cache).len() == 0),
{
    cache.is_empty()
}

/// `LruCache::get`, which makes the entry it finds the most recently used.
#[verifier::external_body]
fn lru_get<'a>(
    cache: &'a mut lru::LruCache<(String, u32, u32), AnalysisResult>,
    key: &(String, u32, u32),
) -> (r: Option<&'a AnalysisResult>)
    ensures
        lru_entries(*final(cache)) == after_get(
            lru_entries(*old(cache)),
            (key.0@, key.1, key.2),
        ),
        lru_limit(*final(cache)) == lru_limit(*old(cache)),
        match r {
            Some(value) => stored(lru_entries(*old(cache)), (key.0@, key.1, key.2)) == Some(value@),
            None => stored(lru_entries(*old(cache)), (key.0@, key.1, key.2)) is None,
        },
{
    cache.get(key)
}

/// `LruCache::put`.
#[verifier::external_body]
fn lru_put(
    cache: &mut lru::LruCache<(String, u32, u32), AnalysisResult>,
    key: (String, u32, u32),
    value: AnalysisResult,
)
    ensures
        lru_entries(*final(cache)) == after_put(
            lru_entries(*old(cache)),
            lru_limit(*old(cache)),
            (key.0@, key.1, key.2),
            value@,
        ),
        lru_limit(*final(cache)) == lru_limit(*old(cache)),
{
    cache.put(key, value);
}

/// `LruCache::clear`.
#[verifier::external_body]
fn lru_clear(cache: &mut lru::LruCache<(String, u32, u32), AnalysisResult>)
    ensures
        lru_entries(*final(cache)) == Seq::<Entry>::empty(),
        lru_limit(*final(cache)) == lru_limit(*old(cache)),
{
    cache.clear();
}

/// A bounded cache of analyses that forgets the least recently used.
pub struct AnalysisCache {
    inner: lru::LruCache<(String, u32, u32), AnalysisResult>,
    capacity: usize,
}

/// Whether no two entries have the same key.
pub open spec fn distinct_keys(entries: Seq<Entry>) -> bool {
    forall|i: int, j: int|
        0 <= i < j < entries.len() ==> (#[trigger] entries[i]).0 != (#[trigger] entries[j]).0
}

impl View for AnalysisCache {
    type V = Seq<Entry>;

    /// The entries, the most recently used first.
    closed spec fn view(&self) -> Seq<Entry> {
        lru_entries(self.inner)
    }
}

impl AnalysisCache {
    /// How many entries the cache can hold.
    pub closed spec fn limit(&self) -> nat {
        self.capacity as nat
    }

    /// The cache holds at most as many entries as it is made for, and each key once.
    pub closed spec fn well_formed(&self) -> bool {
        &&& self.capacity >= 1
        &&& lru_limit(self.inner) == self.capacity
        &&& lru_entries(self.inner).len() <= self.capacity
        &&& distinct_keys(lru_entries(self.inner))
    }

    /// A well-formed cache can hold an entry, holds no more than it can, and each key once.
    pub proof fn stays_in_its_limit(&self)
        requires
            self.well_formed(),
        ensures
            self.limit() >= 1,
            self@.len() <= self.limit(),
            distinct_keys(self@),
    {
    }

    /// A cache for `capacity` entries, at least one.
    pub fn new(capacity: usize) -> (r: AnalysisCache)
        requires
            capacity <= isize::MAX / 64,
        ensures
            r.well_formed(),
            r@ == Seq::<Entry>::empty(),
            r.limit() == if capacity < 1 {
                1
            } else {
                capacity as nat
            },
    {
        let cap = if capacity < 1 {
            1
        } else {
            capacity
        };
        AnalysisCache { inner: lru_new(cap), capacity: cap }
    }

    pub fn capacity(&self) -> (r: usize)
        ensures
            r == self.limit(),
    {
        self.capacity
    }

    /// How many entries there are, at most as many as the cache can hold.
    pub fn len(&self) -> (r: usize)
        ensures
            r == self@.len(),
            self.well_formed() ==> r <= self.limit(),
    {
        lru_len(&self.inner)
    }

    pub fn is_empty(&self) -> (r: bool)
        ensures
            r == (self@.len() == 0),
    {
        lru_is_empty(&self.inner)
    }

    /// The analysis stored under a key, which becomes the most recently used.
    pub fn get(&mut self, key: &CacheKey) -> (r: Option<AnalysisResult>)
        requires
            old(self).well_formed(),
        ensures
            final(self).well_formed(),
            final(self).limit() == old(self).limit(),
            final(self)@ == after_get(old(self)@, key@),
            match r {
                Some(value) => stored(old(self)@, key@) == Some(value@),
                None => stored(old(self)@, key@) is None,
            },
    {
        proof {
            get_keeps_the_cache_well_formed(self@, key@);
        }
        let lookup = (key.normalized_fen.clone(), key.depth, key.multipv);
        match lru_get(&mut self.inner, &lookup) {
            Some(value) => Some(value.clone()),
            None => None,
        }
    }

    /// Stores an analysis under a key, which becomes the most recently used.
    pub fn put(&mut self, key: CacheKey, value: AnalysisResult)
        requires
            old(self).well_formed(),
        ensures
            final(self).well_formed(),
            final(self).limit() == old(self).limit(),
            final(self)@ == after_put(old(self)@, old(self).limit(), key@, value@),
    {
        proof {
            put_keeps_the_cache_well_formed(self@, self.limit(), key@, value@);
        }
        lru_put(&mut self.inner, (key.normalized_fen, key.depth, key.multipv), value);
    }

    /// Forgets everything.
    pub fn clear(&mut self)
        requires
            old(self).well_formed(),
        ensures
            final(self).well_formed(),
            final(self).limit() == old(self).limit(),
            final(self)@ == Seq::<Entry>::empty(),
    {
        lru_clear(&mut self.inner);
    }
}

proof fn lemma_stored_none(entries: Seq<Entry>, key: KeyView)
    ensures
        stored(entries, key) is None <==> (forall|i: int|
            0 <= i < entries.len() ==> (#[trigger] entries[i]).0 != key),
    decreases entries.len(),
{
    if entries.len() > 0 {
        let rest = entries.skip(1);
        lemma_stored_none(rest, key);
        if entries[0].0 != key {
            if stored(entries, key) is None {
                assert forall|i: int| 0 <= i < entries.len() implies (#[trigger] entries[i]).0
                    != key by {
                    if i > 0 {
                        assert(entries[i] == rest[i - 1]);
                    }
                }
            } else {
                let i = choose|i: int| 0 <= i < rest.len() && (#[trigger] rest[i]).0 == key;
                assert(entries[i + 1].0 == key);
            }
        }
    }
}

proof fn lemma_without(entries: Seq<Entry>, key: KeyView)
    requires
        distinct_keys(entries),
    ensures
        distinct_keys(without(entries, key)),
        forall|i: int| 0 <= i < without(entries, key).len() ==> (#[trigger] without(entries, key)[i]).0 != key,
        forall|i: int|
            0 <= i < without(entries, key).len() ==> entries.contains(
                #[trigger] without(entries, key)[i],
            ),
        without(entries, key).len() == entries.len() - (if stored(entries, key) is Some {
            1int
        } else {
            0int
        }),
        forall|k: KeyView| k != key ==> #[trigger] stored(without(entries, key), k) == stored(
            entries,
            k,
        ),
    decreases entries.len(),
{
    if entries.len() > 0 {
        let rest = entries.skip(1);
        assert(distinct_keys(rest)) by {
            assert forall|i: int, j: int| 0 <= i < j < rest.len() implies (#[trigger] rest[i]).0
                != (#[trigger] rest[j]).0 by {
                assert(rest[i] == entries[i + 1] && rest[j] == entries[j + 1]);
            }
        }
        lemma_without(rest, key);
        let w = without(entries, key);
        let v = without(rest, key);
        assert forall|i: int| 0 <= i < v.len() implies entries.contains(#[trigger] v[i]) by {
            assert(rest.contains(v[i]));
            let j = choose|j: int| 0 <= j < rest.len() && rest[j] == v[i];
            assert(entries[j + 1] == v[i]);
        }
        if entries[0].0 == key {
            lemma_stored_none(rest, key);
            assert forall|i: int| 0 <= i < rest.len() implies (#[trigger] rest[i]).0 != key by {
                assert(entries[i + 1] == rest[i]);
            }
            assert(w == v);
        } else {
            assert(w == seq![entries[0]] + v);
            assert(w.skip(1) == v);
            assert forall|i: int, j: int| 0 <= i < j < w.len() implies (#[trigger] w[i]).0 != (
            #[trigger] w[j]).0 by {
                assert(w[j] == v[j - 1]);
                if i == 0 {
                    assert(rest.contains(v[j - 1]));
                    let k = choose|k: int| 0 <= k < rest.len() && rest[k] == v[j - 1];
                    assert(entries[k + 1] == rest[k]);
                } else {
                    assert(w[i] == v[i - 1]);
                }
            }
            assert forall|i: int| 0 <= i < w.len() implies entries.contains(#[trigger] w[i]) && w[i].0
                != key by {
                if i == 0 {
                    assert(entries[0] == w[0]);
                } else {
                    assert(w[i] == v[i - 1]);
                }
            }
        }
    }
}

/// Looking a key up keeps the number of entries and the keys distinct.
pub proof fn get_keeps_the_cache_well_formed(entries: Seq<Entry>, key: KeyView)
    requires
        distinct_keys(entries),
    ensures
        distinct_keys(after_get(entries, key)),
        after_get(entries, key).len() == entries.len(),
{
    lemma_without(entries, key);
    lemma_front_is_new(without(entries, key), key, stored(entries, key)->0);
}

proof fn lemma_front_is_new(entries: Seq<Entry>, key: KeyView, value: AnalysisResultView)
    requires
        distinct_keys(entries),
        forall|i: int| 0 <= i < entries.len() ==> (#[trigger] entries[i]).0 != key,
    ensures
        distinct_keys(seq![(key, value)] + entries),
{
    let all = seq![(key, value)] + entries;
    assert forall|i: int, j: int| 0 <= i < j < all.len() implies (#[trigger] all[i]).0 != (
    #[trigger] all[j]).0 by {
        assert(all[j] == entries[j - 1]);
        if i > 0 {
            assert(all[i] == entries[i - 1]);
        }
    }
}

/// Storing a value keeps the cache within its limit and the keys distinct.
pub proof fn put_keeps_the_cache_well_formed(
    entries: Seq<Entry>,
    limit: nat,
    key: KeyView,
    value: AnalysisResultView,
)
    requires
        distinct_keys(entries),
        entries.len() <= limit,
        limit >= 1,
    ensures
        distinct_keys(after_put(entries, limit, key, value)),
        after_put(entries, limit, key, value).len() <= limit,
{
    lemma_without(entries, key);
    lemma_stored_none(entries, key);
    if stored(entries, key) is Some {
        lemma_front_is_new(without(entries, key), key, value);
    } else if entries.len() == limit {
        let kept = entries.drop_last();
        assert(distinct_keys(kept));
        assert forall|i: int| 0 <= i < kept.len() implies (#[trigger] kept[i]).0 != key by {
            assert(kept[i] == entries[i]);
        }
        lemma_front_is_new(kept, key, value);
    } else {
        lemma_front_is_new(entries, key, value);
    }
}

/// What was stored last under a key is what a lookup finds.
pub proof fn put_then_get(
    entries: Seq<Entry>,
    limit: nat,
    key: KeyView,
    value: AnalysisResultView,
)
    ensures
        stored(after_put(entries, limit, key, value), key) == Some(value),
{
}

/// A lookup changes no stored value.
pub proof fn get_changes_no_value(entries: Seq<Entry>, key: KeyView, other: KeyView)
    requires
        distinct_keys(entries),
    ensures
        stored(after_get(entries, key), other) == stored(entries, other),
{
    lemma_without(entries, key);
    if stored(entries, key) is Some {
        let all = after_get(entries, key);
        assert(all[0] == (key, stored(entries, key)->0));
        assert(all.skip(1) == without(entries, key));
        if other != key {
            assert(stored(without(entries, key), other) == stored(entries, other));
        }
    }
}

/// Storing a value leaves every other stored value as it is, except that a new key in a
/// full cache drives out the least recently used entry.
pub proof fn put_evicts_only_the_least_recently_used(
    entries: Seq<Entry>,
    limit: nat,
    key: KeyView,
    value: AnalysisResultView,
    other: KeyView,
)
    requires
        distinct_keys(entries),
        entries.len() <= limit,
        limit >= 1,
        other != key,
    ensures
        stored(after_put(entries, limit, key, value), other) == if stored(entries, key) is None
            && entries.len() == limit && entries.last().0 == other {
            None
        } else {
            stored(entries, other)
        },
{
    lemma_without(entries, key);
    let all = after_put(entries, limit, key, value);
    if stored(entries, key) is Some {
        assert(all.skip(1) == without(entries, key));
    } else if entries.len() == limit {
        assert(all.skip(1) == entries.drop_last());
        lemma_stored_of_drop_last(entries, other);
    } else {
        assert(all.skip(1) == entries);
    }
}

proof fn lemma_stored_of_drop_last(entries: Seq<Entry>, key: KeyView)
    requires
        distinct_keys(entries),
        entries.len() > 0,
    ensures
        stored(entries.drop_last(), key) == if entries.last().0 == key {
            None
        } else {
            stored(entries, key)
        },
    decreases entries.len(),
{
    let kept = entries.drop_last();
    if entries.last().0 == key {
        lemma_stored_none(kept, key);
        assert forall|i: int| 0 <= i < kept.len() implies (#[trigger] kept[i]).0 != key by {
            assert(kept[i] == entries[i]);
        }
    } else if kept.len() == 0 {
        assert(entries.skip(1).len() == 0);
    } else {
        let rest = entries.skip(1);
        assert(distinct_keys(rest)) by {
            assert forall|i: int, j: int| 0 <= i < j < rest.len() implies (#[trigger] rest[i]).0
                != (#[trigger] rest[j]).0 by {
                assert(rest[i] == entries[i + 1] && rest[j] == entries[j + 1]);
            }
        }
        lemma_stored_of_drop_last(rest, key);
        assert(kept.skip(1) == rest.drop_last());
    }
}

/// An entry that was just looked up survives the next store, in a cache for two or more.
pub proof fn get_protects_from_eviction(
    entries: Seq<Entry>,
    limit: nat,
    used: KeyView,
    key: KeyView,
    value: AnalysisResultView,
)
    requires
        distinct_keys(entries),
        entries.len() <= limit,
        limit >= 2,
        stored(entries, used) is Some,
        used != key,
    ensures
        stored(after_put(after_get(entries, used), limit, key, value), used) == stored(
            entries,
            used,
        ),
{
    get_keeps_the_cache_well_formed(entries, used);
    get_changes_no_value(entries, used, used);
    let touched = after_get(entries, used);
    put_evicts_only_the_least_recently_used(touched, limit, key, value, used);
    if touched.len() == limit {
        assert(touched[0].0 == used);
        assert(touched[0].0 != touched[touched.len() - 1].0);
    }
}

/// Two FENs that differ only in their clocks share their keys; different settings, or a
/// difference in the first four fields, do not.
pub proof fn keys_ignore_clocks(
    a: Seq<char>,
    b: Seq<char>,
    depth_a: u32,
    depth_b: u32,
    multipv_a: u32,
    multipv_b: u32,
)
    requires
        words(a).len() >= 4,
        words(b).len() >= 4,
    ensures
        (normalized(a)->0, depth_a, multipv_a) == (normalized(b)->0, depth_b, multipv_b) <==> (
        words(a).take(4) == words(b).take(4) && depth_a == depth_b && multipv_a == multipv_b),
{
    crate::fen::normal_form_is_first_four_fields(a, b);
}

/// What is found under a key is the value of its entry, and nothing is found exactly where
/// no entry has the key.
pub proof fn stored_is_an_entry(entries: Seq<Entry>, key: KeyView)
    requires
        distinct_keys(entries),
    ensures
        stored(entries, key) is None <==> (forall|i: int|
            0 <= i < entries.len() ==> (#[trigger] entries[i]).0 != key),
        forall|i: int|
            0 <= i < entries.len() && (#[trigger] entries[i]).0 == key ==> stored(entries, key)
                == Some(entries[i].1),
    decreases entries.len(),
{
    lemma_stored_none(entries, key);
    if entries.len() > 0 {
        let rest = entries.skip(1);
        assert forall|i: int, j: int| 0 <= i < j < rest.len() implies (#[trigger] rest[i]).0 != (
        #[trigger] rest[j]).0 by {
            assert(rest[i] == entries[i + 1] && rest[j] == entries[j + 1]);
        }
        stored_is_an_entry(rest, key);
        assert forall|i: int| 0 <= i < entries.len() && (#[trigger] entries[i]).0
            == key implies stored(entries, key) == Some(entries[i].1) by {
            if i > 0 {
                assert(entries[0].0 != entries[i].0);
                assert(rest[i - 1] == entries[i]);
            }
        }
    }
}

} // verus!
