//! Small, provider-local cache for web-grounded answers.
//!
//! Web lookup is cached only in memory. This keeps the hot path light, avoids
//! persisting third-party content, and is enough to reuse the professor, lab
//! and paper lookups made during one session or interview preparation window.
//!
//! Times are nanoseconds on the monotonic clock, counted from the moment the
//! cache was created.
use std::time::{Duration, Instant};
use vstd::prelude::*;

use crate::provider::{duplicate_sources, source_views, StreamSource};
use crate::text::{
    is_ws, lead, lead_index, lemma_lead_bounds, lemma_stop_bounds, lower, lower_chars, push_all,
    slice_of, stop, stop_index, string_of, chars_of, Strip,
};

verus! {

#[verifier::external_type_specification]
#[verifier::external_body]
pub struct ExInstant(Instant);

/// Calls `Instant::now`; the reading of the clock is not described.
#[verifier::external_body]
fn instant_now() -> Instant {
    Instant::now()
}

/// Calls `Instant::elapsed`; the time that passed is not described.
#[verifier::external_body]
fn instant_elapsed(origin: &Instant) -> Duration {
    origin.elapsed()
}

/// The whole number of nanoseconds a `Duration` spans, as
/// `Duration::as_nanos` gives it.
pub uninterp spec fn duration_nanos(d: Duration) -> u128;

/// Calls `Duration::as_nanos`; its result is named by `duration_nanos`, a
/// function of the duration alone.
#[verifier::external_body]
fn duration_as_nanos(d: &Duration) -> (r: u128)
    ensures
        r == duration_nanos(*d),
{
    d.as_nanos()
}

const DEFAULT_MAX_ENTRIES: usize = 64;

/// Six hours, in nanoseconds.
const DEFAULT_TTL_NANOS: u128 = 21600000000000;

/// One cached answer.
struct CachedWebAnswer {
    key: String,
    answer: String,
    sources: Vec<StreamSource>,
    stored_at: u128,
    last_accessed: u128,
}

/// What the cache holds for one key: the answer, its sources, when it was
/// stored and when it was last read.
pub type CacheEntryView = (Seq<char>, Seq<(Seq<char>, Seq<char>)>, int, int);

/// Bounded TTL cache for complete web-grounded answers.
pub struct WebAnswerCache {
    entries: Vec<CachedWebAnswer>,
    max_entries: usize,
    ttl: u128,
    origin: Instant,
}

spec fn entry_view(e: CachedWebAnswer) -> CacheEntryView {
    (e.answer@, source_views(e.sources@), e.stored_at as int, e.last_accessed as int)
}

spec fn entries_map(es: Seq<CachedWebAnswer>) -> Map<Seq<char>, CacheEntryView>
    decreases es.len(),
{
    if es.len() == 0 {
        Map::empty()
    } else {
        entries_map(es.drop_last()).insert(es.last().key@, entry_view(es.last()))
    }
}

spec fn unique_keys(es: Seq<CachedWebAnswer>) -> bool {
    forall|i: int, j: int|
        0 <= i < es.len() && 0 <= j < es.len() && i != j ==> es[i].key@ != es[j].key@
}

proof fn lemma_map_dom(es: Seq<CachedWebAnswer>, k: Seq<char>)
    ensures
        entries_map(es).contains_key(k) <==> exists|i: int| 0 <= i < es.len() && es[i].key@ == k,
    decreases es.len(),
{
    if es.len() > 0 {
        lemma_map_dom(es.drop_last(), k);
        if entries_map(es.drop_last()).contains_key(k) {
            let i = choose|i: int| 0 <= i < es.drop_last().len() && es.drop_last()[i].key@ == k;
            assert(es[i].key@ == k);
        }
        if exists|i: int| 0 <= i < es.len() && es[i].key@ == k {
            let i = choose|i: int| 0 <= i < es.len() && es[i].key@ == k;
            if i < es.len() - 1 {
                assert(es.drop_last()[i].key@ == k);
            }
        }
    }
}

proof fn lemma_map_value(es: Seq<CachedWebAnswer>, i: int)
    requires
        unique_keys(es),
        0 <= i < es.len(),
    ensures
        entries_map(es).contains_key(es[i].key@),
        entries_map(es)[es[i].key@] == entry_view(es[i]),
    decreases es.len(),
{
    if i < es.len() - 1 {
        assert(unique_keys(es.drop_last()));
        lemma_map_value(es.drop_last(), i);
        assert(es.drop_last()[i] == es[i]);
    }
}

proof fn lemma_map_remove(es: Seq<CachedWebAnswer>, i: int)
    requires
        unique_keys(es),
        0 <= i < es.len(),
    ensures
        entries_map(es.remove(i)) =~= entries_map(es).remove(es[i].key@),
        unique_keys(es.remove(i)),
    decreases es.len(),
{
    let k = es[i].key@;
    if i == es.len() - 1 {
        assert(es.remove(i) =~= es.drop_last());
        lemma_map_dom(es.drop_last(), k);
        assert(!entries_map(es.drop_last()).contains_key(k));
    } else {
        assert(unique_keys(es.drop_last()));
        lemma_map_remove(es.drop_last(), i);
        assert(es.remove(i).drop_last() =~= es.drop_last().remove(i));
        assert(es.remove(i).last() == es.last());
        assert(es.last().key@ != k);
    }
}

proof fn lemma_map_len(es: Seq<CachedWebAnswer>)
    requires
        unique_keys(es),
    ensures
        entries_map(es).dom().finite(),
        entries_map(es).dom().len() == es.len(),
    decreases es.len(),
{
    if es.len() > 0 {
        assert(unique_keys(es.drop_last()));
        lemma_map_len(es.drop_last());
        lemma_map_dom(es.drop_last(), es.last().key@);
        if entries_map(es.drop_last()).contains_key(es.last().key@) {
            let j = choose|j: int|
                0 <= j < es.drop_last().len() && es.drop_last()[j].key@ == es.last().key@;
            assert(es[j].key@ == es[es.len() - 1].key@);
        }
    }
}

/// Nanoseconds from `earlier` to `later`, or zero when `later` is not after
/// `earlier` (`Instant::duration_since` saturates).
pub open spec fn elapsed(later: int, earlier: int) -> int {
    if later > earlier {
        later - earlier
    } else {
        0
    }
}

/// The words of `s` from position `p` on, joined by single spaces.
pub open spec fn joined_from(s: Seq<char>, p: int, first: bool) -> Seq<char>
    decreases s.len() - p,
{
    if p < 0 || p >= s.len() {
        Seq::empty()
    } else {
        let a = lead(s, Strip::Space, p);
        if a >= s.len() {
            Seq::empty()
        } else {
            let b = stop(s, Strip::Space, a);
            proof {
                lemma_lead_bounds(s, Strip::Space, p);
                lemma_stop_bounds(s, Strip::Space, a + 1);
            }
            (if first {
                Seq::empty()
            } else {
                seq![' ']
            }) + s.subrange(a, b) + joined_from(s, b, false)
        }
    }
}

/// The cache key of a query: its whitespace-separated words joined by single
/// spaces, then ASCII-lower-cased.
pub open spec fn normalize(s: Seq<char>) -> Seq<char> {
    lower(joined_from(s, 0, true))
}

/// Whitespace in `x` is a single space between two other characters.
spec fn canonical(x: Seq<char>) -> bool {
    forall|i: int|
        0 <= i < x.len() && is_ws(#[trigger] x[i]) ==> x[i] == ' ' && 0 < i && i + 1 < x.len()
            && !is_ws(x[i - 1]) && !is_ws(x[i + 1])
}

/// What follows a word in a normalized key: nothing, or a space and a
/// further canonical run of words.
spec fn tail_ok(y: Seq<char>) -> bool {
    y.len() == 0 || (y[0] == ' ' && y.len() > 1 && !is_ws(y[1]) && canonical(y.drop_first()))
}

proof fn lemma_joined_shape(s: Seq<char>, p: int)
    ensures
        tail_ok(joined_from(s, p, false)),
        canonical(joined_from(s, p, true)),
        joined_from(s, p, true).len() > 0 ==> !is_ws(joined_from(s, p, true)[0]),
    decreases s.len() - p,
{
    if 0 <= p < s.len() {
        let a = lead(s, Strip::Space, p);
        lemma_lead_bounds(s, Strip::Space, p);
        if a < s.len() {
            let b = stop(s, Strip::Space, a);
            lemma_stop_bounds(s, Strip::Space, a);
            lemma_stop_bounds(s, Strip::Space, a + 1);
            assert(b > a);
            lemma_joined_shape(s, b);
            let w = s.subrange(a, b);
            let r = joined_from(s, b, false);
            let f = w + r;
            assert(joined_from(s, p, true) =~= f);
            assert(joined_from(s, p, false) =~= seq![' '] + f);
            assert forall|i: int| 0 <= i < f.len() && is_ws(#[trigger] f[i]) implies f[i] == ' '
                && 0 < i && i + 1 < f.len() && !is_ws(f[i - 1]) && !is_ws(f[i + 1]) by {
                if i < w.len() {
                    assert(f[i] == s[a + i]);
                } else {
                    let j = i - w.len();
                    assert(f[i] == r[j]);
                    assert(f[w.len() - 1] == s[b - 1]);
                    if j == 0 {
                        assert(f[i + 1] == r[1]);
                    } else {
                        let d = r.drop_first();
                        assert(d[j - 1] == r[j]);
                        if j == 1 {
                            assert(f[i - 1] == r[0]);
                        } else {
                            assert(f[i - 1] == d[j - 2]);
                        }
                        assert(f[i + 1] == d[j]);
                    }
                }
            }
            assert(f[0] == s[a]);
            let g = seq![' '] + f;
            assert(g.drop_first() =~= f);
            assert(g[1] == f[0]);
        }
    }
}

proof fn lemma_canonical_lower(x: Seq<char>)
    requires
        canonical(x),
    ensures
        canonical(lower(x)),
        lower(lower(x)) == lower(x),
{
    let y = lower(x);
    assert forall|i: int| 0 <= i < y.len() && is_ws(#[trigger] y[i]) implies y[i] == ' ' && 0 < i
        && i + 1 < y.len() && !is_ws(y[i - 1]) && !is_ws(y[i + 1]) by {
        assert(is_ws(x[i]));
    }
    assert(lower(y) =~= y);
}

proof fn lemma_joined_canonical(x: Seq<char>, p: int, first: bool)
    requires
        canonical(x),
        0 <= p <= x.len(),
        first ==> p == 0,
        !first && p < x.len() ==> x[p] == ' ',
    ensures
        joined_from(x, p, first) == x.subrange(p, x.len() as int),
    decreases x.len() - p,
{
    if p < x.len() {
        let a = lead(x, Strip::Space, p);
        lemma_lead_bounds(x, Strip::Space, p);
        if first {
            assert(!is_ws(x[0]));
            assert(a == 0);
        } else {
            assert(is_ws(x[p]));
            assert(!is_ws(x[p + 1]));
            assert(lead(x, Strip::Space, p + 1) == p + 1);
            assert(a == p + 1);
        }
        let b = stop(x, Strip::Space, a);
        lemma_stop_bounds(x, Strip::Space, a);
        lemma_stop_bounds(x, Strip::Space, a + 1);
        if b < x.len() {
            assert(is_ws(x[b]));
            lemma_joined_canonical(x, b, false);
        } else {
            assert(joined_from(x, b, false) =~= x.subrange(b, x.len() as int));
        }
        let sep: Seq<char> = if first {
            Seq::empty()
        } else {
            seq![' ']
        };
        assert(joined_from(x, p, first) == sep + x.subrange(a, b) + joined_from(x, b, false));
        assert(x.subrange(p, a) =~= sep);
        assert(x.subrange(p, x.len() as int) =~= x.subrange(p, a) + x.subrange(a, b) + x.subrange(
            b,
            x.len() as int,
        ));
    } else {
        assert(x.subrange(p, x.len() as int) =~= Seq::<char>::empty());
    }
}

/// Normalizing a normalized key changes nothing: a key and its normal form
/// name the same entry.
pub proof fn law_normalize_is_idempotent(s: Seq<char>)
    ensures
        normalize(normalize(s)) == normalize(s),
{
    let t = joined_from(s, 0, true);
    lemma_joined_shape(s, 0);
    lemma_canonical_lower(t);
    let u = lower(t);
    lemma_joined_canonical(u, 0, true);
    assert(u.subrange(0, u.len() as int) =~= u);
}

/// An answer and its sources.
pub type AnswerView = (Seq<char>, Seq<(Seq<char>, Seq<char>)>);

pub open spec fn answer_view(r: Option<(String, Vec<StreamSource>)>) -> Option<AnswerView> {
    match r {
        Some((a, s)) => Some((a@, source_views(s@))),
        None => None,
    }
}

/// What a lookup of the normalized key `k` at time `now` returns, and the
/// cache it leaves: a miss for an unknown key; a miss that drops the entry
/// when it is older than `ttl`; otherwise the answer, with `now` recorded
/// as its last access.
pub open spec fn lookup(
    m: Map<Seq<char>, CacheEntryView>,
    ttl: int,
    k: Seq<char>,
    now: int,
) -> (Option<AnswerView>, Map<Seq<char>, CacheEntryView>) {
    if k.len() == 0 || !m.contains_key(k) {
        (None, m)
    } else if elapsed(now, m[k].2) > ttl {
        (None, m.remove(k))
    } else {
        (Some((m[k].0, m[k].1)), m.insert(k, (m[k].0, m[k].1, m[k].2, now)))
    }
}

/// Whether `m2` is what storing `v` under the normalized key `k` can leave
/// of `m`: nothing changes for an empty key; a new key in a full cache
/// first evicts an entry with the oldest last access; the entry for `k` is
/// then `v`.
pub open spec fn stored(
    m: Map<Seq<char>, CacheEntryView>,
    cap: int,
    k: Seq<char>,
    v: CacheEntryView,
    m2: Map<Seq<char>, CacheEntryView>,
) -> bool {
    if k.len() == 0 {
        m2 == m
    } else if m.dom().len() >= cap && !m.contains_key(k) {
        exists|victim: Seq<char>|
            {
                &&& #[trigger] m.contains_key(victim)
                &&& forall|o: Seq<char>| #[trigger] m.contains_key(o) ==> m[victim].3 <= m[o].3
                &&& m2 == m.remove(victim).insert(k, v)
            }
    } else {
        m2 == m.insert(k, v)
    }
}

/// Reading an answer by any query with the same normalized key, within its
/// time to live, gives back the answer and sources that were stored.
pub proof fn law_fresh_read_after_store(
    m: Map<Seq<char>, CacheEntryView>,
    cap: int,
    ttl: int,
    k: Seq<char>,
    answer: Seq<char>,
    sources: Seq<(Seq<char>, Seq<char>)>,
    stored_at: int,
    m2: Map<Seq<char>, CacheEntryView>,
    now: int,
)
    requires
        k.len() > 0,
        stored(m, cap, k, (answer, sources, stored_at, stored_at), m2),
        elapsed(now, stored_at) <= ttl,
    ensures
        lookup(m2, ttl, k, now).0 == Some((answer, sources)),
{
    assert(m2.contains_key(k));
    assert(m2[k] == (answer, sources, stored_at, stored_at));
}

/// When a full cache takes a new key, the entry read or stored longest ago
/// (when it is the only one that old) is the one evicted: it is gone and no
/// longer found, every other entry stays as it was, the new answer is found
/// when read at the time it was stored, and the number of entries is
/// unchanged.
pub proof fn law_evicts_least_recently_used(
    m: Map<Seq<char>, CacheEntryView>,
    cap: int,
    k: Seq<char>,
    v: CacheEntryView,
    m2: Map<Seq<char>, CacheEntryView>,
    k0: Seq<char>,
    ttl: int,
    now: int,
)
    requires
        ttl >= 0,
        m.dom().finite(),
        k.len() > 0,
        !m.contains_key(k),
        m.dom().len() >= cap,
        m.contains_key(k0),
        forall|o: Seq<char>| #[trigger] m.contains_key(o) && o != k0 ==> m[k0].3 < m[o].3,
        stored(m, cap, k, v, m2),
    ensures
        !m2.contains_key(k0),
        m2.contains_key(k) && m2[k] == v,
        forall|o: Seq<char>|
            #[trigger] m.contains_key(o) && o != k0 ==> m2.contains_key(o) && m2[o] == m[o],
        m2.dom().len() == m.dom().len(),
        lookup(m2, ttl, k0, now).0 is None,
        lookup(m2, ttl, k, v.2).0 == Some((v.0, v.1)),
{
    let victim = choose|victim: Seq<char>|
        {
            &&& #[trigger] m.contains_key(victim)
            &&& forall|o: Seq<char>| #[trigger] m.contains_key(o) ==> m[victim].3 <= m[o].3
            &&& m2 == m.remove(victim).insert(k, v)
        };
    assert(m[victim].3 <= m[k0].3);
    assert(victim == k0);
    assert(m.remove(k0).dom() =~= m.dom().remove(k0));
    assert(m2.dom() =~= m.dom().remove(k0).insert(k));
    assert(!m.dom().remove(k0).contains(k));
}

/// Storing under a key that is already present replaces its answer and
/// nothing else: no entry is evicted, the keys stay the same, and the new
/// answer is found when read at the time it was stored.
pub proof fn law_store_replaces_present_key(
    m: Map<Seq<char>, CacheEntryView>,
    cap: int,
    k: Seq<char>,
    v: CacheEntryView,
    m2: Map<Seq<char>, CacheEntryView>,
    ttl: int,
)
    requires
        ttl >= 0,
        k.len() > 0,
        m.contains_key(k),
        stored(m, cap, k, v, m2),
    ensures
        m2 == m.insert(k, v),
        m2.dom() == m.dom(),
        lookup(m2, ttl, k, v.2).0 == Some((v.0, v.1)),
{
    assert(m.insert(k, v).dom() =~= m.dom());
}

/// A query whose normalized key is empty is never stored and never found.
pub proof fn law_empty_key_is_ignored(
    m: Map<Seq<char>, CacheEntryView>,
    cap: int,
    v: CacheEntryView,
    m2: Map<Seq<char>, CacheEntryView>,
    ttl: int,
    now: int,
)
    requires
        stored(m, cap, Seq::empty(), v, m2),
    ensures
        m2 == m,
        lookup(m, ttl, Seq::empty(), now) == (None::<AnswerView>, m),
{
}

/// An answer read after its time to live is gone: the lookup misses and
/// removes it.
pub proof fn law_stale_read_misses(
    m: Map<Seq<char>, CacheEntryView>,
    ttl: int,
    k: Seq<char>,
    now: int,
)
    requires
        k.len() > 0,
        m.contains_key(k),
        elapsed(now, m[k].2) > ttl,
    ensures
        lookup(m, ttl, k, now).0 is None,
        !lookup(m, ttl, k, now).1.contains_key(k),
{
}

impl View for WebAnswerCache {
    type V = Map<Seq<char>, CacheEntryView>;

    closed spec fn view(&self) -> Map<Seq<char>, CacheEntryView> {
        entries_map(self.entries@)
    }
}

impl WebAnswerCache {
    /// The internal consistency of the cache: keys are unique, normalized and
    /// non-empty, and the number of entries stays within the capacity.
    pub closed spec fn wf(&self) -> bool {
        &&& unique_keys(self.entries@)
        &&& self.max_entries >= 1
        &&& self.entries@.len() <= self.max_entries
        &&& forall|i: int| 0 <= i < self.entries@.len() ==> (#[trigger] self.entries@[i]).key@.len() > 0
    }

    /// The number of entries that fit.
    pub closed spec fn capacity(&self) -> int {
        self.max_entries as int
    }

    /// How long, in nanoseconds, an answer stays fresh.
    pub closed spec fn ttl_nanos(&self) -> int {
        self.ttl as int
    }

    /// A cache never holds more answers than its capacity, which is at
    /// least one; every key it holds is non-empty, and its time to live is
    /// not negative.
    pub proof fn law_within_capacity(&self)
        requires
            self.wf(),
        ensures
            self@.dom().finite(),
            self@.dom().len() <= self.capacity(),
            self.capacity() >= 1,
            self.ttl_nanos() >= 0,
            forall|k: Seq<char>| #[trigger] self@.contains_key(k) ==> k.len() > 0,
    {
        lemma_map_len(self.entries@);
        assert forall|k: Seq<char>| #[trigger] self@.contains_key(k) implies k.len() > 0 by {
            lemma_map_dom(self.entries@, k);
        }
    }

    /// An empty cache holding at most `max(max_entries, 1)` answers, each
    /// fresh for `ttl`.
    pub fn with_limits(max_entries: usize, ttl: Duration) -> (r: Self)
        ensures
            r.wf(),
            r@ == Map::<Seq<char>, CacheEntryView>::empty(),
            r.capacity() == if max_entries >= 1 {
                max_entries as int
            } else {
                1
            },
            r.ttl_nanos() == duration_nanos(ttl),
    {
        let nanos = duration_as_nanos(&ttl);
        Self::with_limits_nanos(max_entries, nanos)
    }

    /// An empty cache holding at most `max(max_entries, 1)` answers, each
    /// fresh for `ttl_nanos` nanoseconds.
    pub fn with_limits_nanos(max_entries: usize, ttl_nanos: u128) -> (r: Self)
        ensures
            r.wf(),
            r@ == Map::<Seq<char>, CacheEntryView>::empty(),
            r.capacity() == if max_entries >= 1 {
                max_entries as int
            } else {
                1
            },
            r.ttl_nanos() == ttl_nanos,
    {
        let r = WebAnswerCache {
            entries: Vec::new(),
            max_entries: if max_entries >= 1 {
                max_entries
            } else {
                1
            },
            ttl: ttl_nanos,
            origin: instant_now(),
        };
        assert(r@ =~= Map::<Seq<char>, CacheEntryView>::empty());
        r
    }

    /// Normalizes a query so whitespace and casing do not create duplicate
    /// entries. The caller should include model/reasoning in the outer key.
    pub fn normalize_key(value: &str) -> (r: String)
        ensures
            r@ == normalize(value@),
    {
        let s = chars_of(value);
        let mut out: Vec<char> = Vec::new();
        let mut p: usize = 0;
        let mut first = true;
        while p < s.len()
            invariant
                p <= s.len(),
                out@ + joined_from(s@, p as int, first) == joined_from(s@, 0, true),
            ensures
                out@ == joined_from(s@, 0, true),
            decreases s.len() - p,
        {
            let a = lead_index(&s, Strip::Space, p);
            proof {
                lemma_lead_bounds(s@, Strip::Space, p as int);
            }
            if a >= s.len() {
                assert(joined_from(s@, p as int, first) =~= Seq::<char>::empty());
                assert(out@ =~= out@ + joined_from(s@, p as int, first));
                break;
            }
            let b = stop_index(&s, Strip::Space, a);
            proof {
                lemma_stop_bounds(s@, Strip::Space, a as int);
                lemma_stop_bounds(s@, Strip::Space, a + 1);
            }
            let ghost before = out@;
            let ghost sep: Seq<char> = if first {
                Seq::empty()
            } else {
                seq![' ']
            };
            if !first {
                out.push(' ');
            }
            let word = slice_of(&s, a, b);
            push_all(&mut out, &word);
            assert(out@ =~= before + sep + s@.subrange(a as int, b as int));
            assert(joined_from(s@, p as int, first) == sep + s@.subrange(a as int, b as int)
                + joined_from(s@, b as int, false));
            assert(out@ + joined_from(s@, b as int, false) =~= before + joined_from(
                s@,
                p as int,
                first,
            ));
            first = false;
            p = b;
        }
        let lowered = lower_chars(&out);
        string_of(&lowered)
    }

    fn find(&self, key: &String) -> (r: Option<usize>)
        requires
            self.wf(),
        ensures
            match r {
                Some(i) => i < self.entries@.len() && self.entries@[i as int].key@ == key@,
                None => !self@.contains_key(key@),
            },
    {
        let mut i: usize = 0;
        while i < self.entries.len()
            invariant
                i <= self.entries@.len(),
                forall|j: int| 0 <= j < i ==> self.entries@[j].key@ != key@,
            decreases self.entries.len() - i,
        {
            if self.entries[i].key == *key {
                return Some(i);
            }
            i = i + 1;
        }
        proof {
            lemma_map_dom(self.entries@, key@);
        }
        None
    }

    /// Looks up `key` at time `now`. An entry older than the TTL is dropped
    /// and reported as a miss; a hit records `now` as its last access.
    pub fn get_at(&mut self, key: &str, now: u128) -> (r: Option<(String, Vec<StreamSource>)>)
        requires
            old(self).wf(),
        ensures
            final(self).wf(),
            final(self).capacity() == old(self).capacity(),
            final(self).ttl_nanos() == old(self).ttl_nanos(),
            lookup(old(self)@, old(self).ttl_nanos(), normalize(key@), now as int) == (
                answer_view(r),
                final(self)@,
            ),
    {
        let normalized = Self::normalize_key(key);
        if normalized.as_str().is_empty() {
            return None;
        }
        let found = self.find(&normalized);
        match found {
            None => None,
            Some(i) => {
                proof {
                    lemma_map_value(self.entries@, i as int);
                    lemma_map_remove(self.entries@, i as int);
                }
                let ghost es = self.entries@;
                let stored_at = self.entries[i].stored_at;
                let age = if now > stored_at {
                    now - stored_at
                } else {
                    0
                };
                if age > self.ttl {
                    self.entries.remove(i);
                    return None;
                }
                let mut e = self.entries.remove(i);
                e.last_accessed = now;
                let answer = e.answer.clone();
                let sources = duplicate_sources(&e.sources);
                proof {
                    lemma_map_dom(es.remove(i as int), normalized@);
                }
                self.entries.push(e);
                proof {
                    assert(self.entries@.drop_last() =~= es.remove(i as int));
                    assert forall|a: int, b: int|
                        0 <= a < self.entries@.len() && 0 <= b < self.entries@.len() && a != b
                        implies self.entries@[a].key@ != self.entries@[b].key@ by {
                        if a == self.entries@.len() - 1 {
                            assert(self.entries@[b] == es.remove(i as int)[b]);
                        } else if b == self.entries@.len() - 1 {
                            assert(self.entries@[a] == es.remove(i as int)[a]);
                        }
                    }
                    assert(self@ =~= old(self)@.insert(
                        normalized@,
                        (
                            old(self)@[normalized@].0,
                            old(self)@[normalized@].1,
                            old(self)@[normalized@].2,
                            now as int,
                        ),
                    ));
                }
                Some((answer, sources))
            },
        }
    }

    /// Stores `answer` for `key` at time `now`, replacing any previous answer.
    /// When the cache is full and `key` is new, an entry with the oldest last
    /// access is evicted first.
    pub fn insert_at(&mut self, key: &str, answer: String, sources: Vec<StreamSource>, now: u128)
        requires
            old(self).wf(),
        ensures
            final(self).wf(),
            final(self).capacity() == old(self).capacity(),
            final(self).ttl_nanos() == old(self).ttl_nanos(),
            stored(
                old(self)@,
                old(self).capacity(),
                normalize(key@),
                (answer@, source_views(sources@), now as int, now as int),
                final(self)@,
            ),
    {
        let normalized = Self::normalize_key(key);
        if normalized.as_str().is_empty() {
            return;
        }
        proof {
            lemma_map_len(self.entries@);
        }
        let found = self.find(&normalized);
        let ghost m = old(self)@;
        let ghost v = (answer@, source_views(sources@), now as int, now as int);
        let ghost mut victim: Seq<char> = Seq::empty();
        let ghost mut evicted = false;
        match found {
            Some(i) => {
                proof {
                    lemma_map_remove(self.entries@, i as int);
                    lemma_map_value(self.entries@, i as int);
                }
                self.entries.remove(i);
            },
            None => {
                if self.entries.len() >= self.max_entries {
                    let j = self.oldest();
                    proof {
                        lemma_map_value(self.entries@, j as int);
                        lemma_map_remove(self.entries@, j as int);
                        victim = self.entries@[j as int].key@;
                        evicted = true;
                        assert forall|o: Seq<char>| #[trigger]
                            m.contains_key(o) implies m[victim].3 <= m[o].3 by {
                            lemma_map_dom(self.entries@, o);
                            let q = choose|q: int|
                                0 <= q < self.entries@.len() && self.entries@[q].key@ == o;
                            lemma_map_value(self.entries@, q);
                        }
                    }
                    self.entries.remove(j);
                }
            },
        }
        let ghost mid = self.entries@;
        let ghost mid_map = self@;
        proof {
            lemma_map_dom(mid, normalized@);
        }
        let e = CachedWebAnswer {
            key: normalized,
            answer,
            sources,
            stored_at: now,
            last_accessed: now,
        };
        self.entries.push(e);
        proof {
            assert(self.entries@.drop_last() =~= mid);
            assert forall|a: int, b: int|
                0 <= a < self.entries@.len() && 0 <= b < self.entries@.len() && a != b
                implies self.entries@[a].key@ != self.entries@[b].key@ by {
                if a == self.entries@.len() - 1 {
                    assert(self.entries@[b] == mid[b]);
                } else if b == self.entries@.len() - 1 {
                    assert(self.entries@[a] == mid[a]);
                }
            }
            assert(self@ == mid_map.insert(normalized@, v));
            if evicted {
                assert(mid_map == m.remove(victim));
                assert(m.contains_key(victim));
                assert(self@ == m.remove(victim).insert(normalized@, v));
            } else if m.contains_key(normalized@) {
                assert(self@ =~= m.insert(normalized@, v));
            } else {
                assert(mid_map == m);
            }
        }
    }

    /// Index of an entry whose last access is the earliest (the first such).
    fn oldest(&self) -> (j: usize)
        requires
            self.entries@.len() > 0,
        ensures
            j < self.entries@.len(),
            forall|q: int|
                0 <= q < self.entries@.len() ==> self.entries@[j as int].last_accessed
                    <= #[trigger] self.entries@[q].last_accessed,
    {
        let mut j: usize = 0;
        let mut i: usize = 1;
        while i < self.entries.len()
            invariant
                1 <= i <= self.entries@.len(),
                j < i,
                forall|q: int|
                    0 <= q < i ==> self.entries@[j as int].last_accessed
                        <= #[trigger] self.entries@[q].last_accessed,
            decreases self.entries.len() - i,
        {
            if self.entries[i].last_accessed < self.entries[j].last_accessed {
                j = i;
            }
            i = i + 1;
        }
        j
    }

    /// Nanoseconds since the cache was created.
    fn now(&self) -> u128 {
        let d = instant_elapsed(&self.origin);
        duration_as_nanos(&d)
    }

    /// Looks up `key` now; see `get_at`, which this calls with the current
    /// time.
    pub fn get(&mut self, key: &str) -> (r: Option<(String, Vec<StreamSource>)>)
        requires
            old(self).wf(),
        ensures
            final(self).wf(),
            final(self).capacity() == old(self).capacity(),
            final(self).ttl_nanos() == old(self).ttl_nanos(),
            ({
                let k = normalize(key@);
                let m = old(self)@;
                &&& (k.len() == 0 || !m.contains_key(k)) ==> r is None && final(self)@ == m
                &&& r is None && k.len() > 0 && m.contains_key(k) ==> final(self)@ == m.remove(k)
                &&& r is Some ==> {
                    &&& k.len() > 0 && m.contains_key(k)
                    &&& r.unwrap().0@ == m[k].0
                    &&& source_views(r.unwrap().1@) == m[k].1
                    &&& final(self)@.contains_key(k)
                    &&& final(self)@[k].0 == m[k].0
                }
                &&& exists|now: int|
                    0 <= now && #[trigger] lookup(m, old(self).ttl_nanos(), k, now) == (
                        answer_view(r),
                        final(self)@,
                    )
            }),
    {
        let now = self.now();
        let r = self.get_at(key, now);
        assert(lookup(old(self)@, old(self).ttl_nanos(), normalize(key@), now as int) == (
            answer_view(r),
            self@,
        ));
        r
    }

    /// Stores `answer` for `key` now; see `insert_at`, which this calls with
    /// the current time.
    pub fn insert(&mut self, key: &str, answer: String, sources: Vec<StreamSource>)
        requires
            old(self).wf(),
        ensures
            final(self).wf(),
            final(self).capacity() == old(self).capacity(),
            final(self).ttl_nanos() == old(self).ttl_nanos(),
            ({
                let k = normalize(key@);
                let m = old(self)@;
                &&& k.len() == 0 ==> final(self)@ == m
                &&& k.len() > 0 ==> final(self)@.contains_key(k) && final(self)@[k].0 == answer@
                    && final(self)@[k].1 == source_views(sources@)
                    && final(self)@[k].2 == final(self)@[k].3
                &&& exists|now: int|
                    0 <= now && #[trigger] stored(
                        m,
                        old(self).capacity(),
                        k,
                        (answer@, source_views(sources@), now, now),
                        final(self)@,
                    )
            }),
    {
        let now = self.now();
        let ghost a = answer@;
        let ghost sv = source_views(sources@);
        self.insert_at(key, answer, sources, now);
        assert(stored(
            old(self)@,
            old(self).capacity(),
            normalize(key@),
            (a, sv, now as int, now as int),
            self@,
        ));
    }

    /// Drops every cached answer.
    pub fn clear(&mut self)
        requires
            old(self).wf(),
        ensures
            final(self).wf(),
            final(self)@ == Map::<Seq<char>, CacheEntryView>::empty(),
            final(self).capacity() == old(self).capacity(),
            final(self).ttl_nanos() == old(self).ttl_nanos(),
    {
        self.entries.clear();
        assert(self@ =~= Map::<Seq<char>, CacheEntryView>::empty());
    }

    /// The number of cached answers.
    pub fn len(&self) -> (r: usize)
        requires
            self.wf(),
        ensures
            r == self@.dom().len(),
    {
        proof {
            lemma_map_len(self.entries@);
        }
        self.entries.len()
    }
}

impl Default for WebAnswerCache {
    /// At most 64 answers, each fresh for six hours.
    fn default() -> (r: Self)
        ensures
            r.wf(),
            r@ == Map::<Seq<char>, CacheEntryView>::empty(),
            r.capacity() == 64,
            r.ttl_nanos() == 6 * 60 * 60 * 1_000_000_000,
    {
        Self::with_limits_nanos(DEFAULT_MAX_ENTRIES, DEFAULT_TTL_NANOS)
    }
}

} // verus!
