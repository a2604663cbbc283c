use vstd::prelude::*;

verus! {

/// How many requests a source may make per window, and how many sources are tracked.
/// Durations are in milliseconds.
#[derive(Debug, Clone)]
pub struct RateLimitConfig {
    pub max_requests: u32,
    pub window_ms: u64,
    pub enabled: bool,
    pub max_tracked_ips: usize,
}

impl RateLimitConfig {
    /// 100 requests per 60 s, enabled, at most 10000 sources.
    pub fn new() -> (r: RateLimitConfig)
        ensures
            r.max_requests == 100,
            r.window_ms == 60_000,
            r.enabled,
            r.max_tracked_ips == 10000,
    {
        RateLimitConfig { max_requests: 100, window_ms: 60_000, enabled: true, max_tracked_ips: 10000 }
    }

    /// The defaults with limiting switched off.
    pub fn disabled() -> (r: RateLimitConfig)
        ensures
            r.max_requests == 100,
            r.window_ms == 60_000,
            !r.enabled,
            r.max_tracked_ips == 10000,
    {
        let mut c = RateLimitConfig::new();
        c.enabled = false;
        c
    }

    /// 10 requests per 60 s.
    pub fn strict() -> (r: RateLimitConfig)
        ensures
            r.max_requests == 10,
            r.window_ms == 60_000,
            r.enabled,
            r.max_tracked_ips == 10000,
    {
        let mut c = RateLimitConfig::new();
        c.max_requests = 10;
        c
    }

    /// 1000 requests per 60 s.
    pub fn relaxed() -> (r: RateLimitConfig)
        ensures
            r.max_requests == 1000,
            r.window_ms == 60_000,
            r.enabled,
            r.max_tracked_ips == 10000,
    {
        let mut c = RateLimitConfig::new();
        c.max_requests = 1000;
        c
    }

    /// `max_requests` per `window_secs` seconds, otherwise the defaults.
    pub fn custom(max_requests: u32, window_secs: u64) -> (r: RateLimitConfig)
        requires
            window_secs <= u64::MAX / 1000,
        ensures
            r.max_requests == max_requests,
            r.window_ms == window_secs * 1000,
            r.enabled,
            r.max_tracked_ips == 10000,
    {
        let mut c = RateLimitConfig::new();
        c.max_requests = max_requests;
        c.window_ms = window_secs * 1000;
        c
    }
}

impl Default for RateLimitConfig {
    fn default() -> (r: RateLimitConfig)
        ensures
            r.max_requests == 100,
            r.window_ms == 60_000,
            r.enabled,
            r.max_tracked_ips == 10000,
    {
        RateLimitConfig::new()
    }
}

/// The timestamps of `ts` that lie inside the window ending at `now`.
pub open spec fn in_window(ts: Seq<u64>, now: u64, window: u64) -> Seq<u64> {
    ts.filter(|t: u64| t as int > now as int - window as int)
}

/// The wait until the oldest request leaves the window.
pub open spec fn retry_after(ts: Seq<u64>, now: u64, window: u64) -> u64 {
    if ts.len() == 0 {
        window
    } else {
        let elapsed: int = if now >= ts[0] { now - ts[0] } else { 0 };
        if elapsed >= window { 0 } else { (window - elapsed) as u64 }
    }
}

/// The decision on a request, given the source's timestamps still in the window:
/// the number of requests left, or how long to wait.
pub open spec fn decision(kept: Seq<u64>, now: u64, max: u32, window: u64) -> Result<u32, u64> {
    if kept.len() >= max {
        Err(retry_after(kept, now, window))
    } else {
        Ok((max - kept.len() - 1) as u32)
    }
}

/// What the source's record holds after an admitted or refused request.
pub open spec fn next_record(kept: Seq<u64>, now: u64, max: u32) -> Seq<u64> {
    if kept.len() >= max {
        kept
    } else {
        kept.push(now)
    }
}

/// A source's request timestamps.
#[derive(Debug, Clone)]
pub struct SourceRecord {
    pub source: u128,
    pub timestamps: Vec<u64>,
}

pub open spec fn src_at(s: Seq<SourceRecord>, k: u128, i: int) -> bool {
    0 <= i < s.len() && s[i].source == k
}

pub open spec fn has_src(s: Seq<SourceRecord>, k: u128) -> bool {
    exists|i: int| src_at(s, k, i)
}

pub open spec fn srcs_unique(s: Seq<SourceRecord>) -> bool {
    forall|i: int, j: int| 0 <= i < s.len() && 0 <= j < s.len() && i != j ==> s[i].source != s[j].source
}

pub open spec fn record_map(s: Seq<SourceRecord>) -> Map<u128, Seq<u64>> {
    Map::new(|k: u128| has_src(s, k), |k: u128| s[choose|i: int| src_at(s, k, i)].timestamps@)
}

proof fn lemma_rec_at(s: Seq<SourceRecord>, k: u128, i: int)
    requires
        srcs_unique(s),
        src_at(s, k, i),
    ensures
        record_map(s).contains_key(k),
        record_map(s)[k] == s[i].timestamps@,
{
    let j = choose|j: int| src_at(s, k, j);
    assert(src_at(s, k, j));
}

proof fn lemma_rec_len(s: Seq<SourceRecord>)
    requires
        srcs_unique(s),
    ensures
        record_map(s).len() == s.len(),
        record_map(s).dom().finite(),
{
    let keys = Seq::new(s.len(), |i: int| s[i].source);
    assert(keys.no_duplicates());
    assert(record_map(s).dom() =~= keys.to_set()) by {
        assert forall|k: u128| record_map(s).dom().contains(k) <==> keys.to_set().contains(k) by {
            if has_src(s, k) {
                let i = choose|i: int| src_at(s, k, i);
                assert(keys[i] == k);
            }
            if keys.to_set().contains(k) {
                let i = choose|i: int| 0 <= i < keys.len() && keys[i] == k;
                assert(src_at(s, k, i));
            }
        }
    }
    keys.unique_seq_to_set();
}

proof fn lemma_rec_remove(s: Seq<SourceRecord>, i: int)
    requires
        srcs_unique(s),
        0 <= i < s.len(),
    ensures
        srcs_unique(s.remove(i)),
        record_map(s.remove(i)) == record_map(s).remove(s[i].source),
{
    let t = s.remove(i);
    let k = s[i].source;
    assert forall|q: u128| #[trigger] record_map(t).contains_key(q) == record_map(s).remove(k).contains_key(q)
        && (record_map(t).contains_key(q) ==> record_map(t)[q] == record_map(s).remove(k)[q]) by {
        if has_src(t, q) {
            let j = choose|j: int| src_at(t, q, j);
            let oj = if j < i { j } else { j + 1 };
            assert(src_at(s, q, oj));
            lemma_rec_at(t, q, j);
            lemma_rec_at(s, q, oj);
        }
        if q != k && has_src(s, q) {
            let j = choose|j: int| src_at(s, q, j);
            let nj = if j < i { j } else { j - 1 };
            assert(src_at(t, q, nj));
        }
    }
    assert(record_map(t) =~= record_map(s).remove(k));
}

proof fn lemma_rec_update(s: Seq<SourceRecord>, i: int, v: SourceRecord)
    requires
        srcs_unique(s),
        0 <= i < s.len(),
        v.source == s[i].source,
    ensures
        srcs_unique(s.update(i, v)),
        record_map(s.update(i, v)) == record_map(s).insert(v.source, v.timestamps@),
{
    let t = s.update(i, v);
    let k = v.source;
    lemma_rec_at(t, k, i);
    assert forall|q: u128| #[trigger] record_map(t).contains_key(q) == record_map(s).insert(k, v.timestamps@).contains_key(q)
        && (record_map(t).contains_key(q) ==> record_map(t)[q] == record_map(s).insert(k, v.timestamps@)[q]) by {
        if q != k && has_src(t, q) {
            let j = choose|j: int| src_at(t, q, j);
            assert(src_at(s, q, j));
            lemma_rec_at(t, q, j);
            lemma_rec_at(s, q, j);
        }
        if q != k && has_src(s, q) {
            let j = choose|j: int| src_at(s, q, j);
            assert(src_at(t, q, j));
        }
        if q == k {
            assert(src_at(s, k, i));
        }
    }
    assert(record_map(t) =~= record_map(s).insert(k, v.timestamps@));
}

proof fn lemma_rec_push(s: Seq<SourceRecord>, v: SourceRecord)
    requires
        srcs_unique(s),
        !has_src(s, v.source),
    ensures
        srcs_unique(s.push(v)),
        record_map(s.push(v)) == record_map(s).insert(v.source, v.timestamps@),
{
    let t = s.push(v);
    let k = v.source;
    let n = s.len() as int;
    assert(srcs_unique(t)) by {
        assert forall|j: int| 0 <= j < n implies t[j].source != k by {
            assert(!src_at(s, k, j));
        }
    }
    lemma_rec_at(t, k, n);
    assert forall|q: u128| #[trigger] record_map(t).contains_key(q) == record_map(s).insert(k, v.timestamps@).contains_key(q)
        && (record_map(t).contains_key(q) ==> record_map(t)[q] == record_map(s).insert(k, v.timestamps@)[q]) by {
        if q != k && has_src(t, q) {
            let j = choose|j: int| src_at(t, q, j);
            assert(j != n);
            assert(src_at(s, q, j));
            lemma_rec_at(t, q, j);
            lemma_rec_at(s, q, j);
        }
        if q != k && has_src(s, q) {
            let j = choose|j: int| src_at(s, q, j);
            assert(src_at(t, q, j));
        }
    }
    assert(record_map(t) =~= record_map(s).insert(k, v.timestamps@));
}

/// A snapshot of the limiter's settings and load.
#[derive(Debug, Clone)]
pub struct RateLimitStats {
    pub tracked_ips: usize,
    pub max_requests: u32,
    pub window_secs: u64,
    pub enabled: bool,
}

/// Per-source sliding-window limiter. Sources are addresses as 128-bit numbers
/// (IPv4 addresses mapped into the IPv6 space).
#[derive(Debug)]
pub struct RateLimiter {
    records: Vec<SourceRecord>,
    config: RateLimitConfig,
    last_cleanup: u64,
}

/// Whether a compaction is due at `now`.
pub open spec fn compaction_due(last: u64, now: u64, window: u64) -> bool {
    now as int - last as int > 2 * window as int
}

/// The newest timestamp of a record (0 for an empty one).
pub open spec fn newest(ts: Seq<u64>) -> u64 {
    if ts.len() == 0 {
        0
    } else {
        ts.last()
    }
}

impl RateLimiter {
    /// Each tracked source's timestamps.
    pub closed spec fn view(&self) -> Map<u128, Seq<u64>> {
        record_map(self.records@)
    }

    pub closed spec fn config_view(&self) -> RateLimitConfig {
        self.config
    }

    pub closed spec fn last_cleanup_view(&self) -> u64 {
        self.last_cleanup
    }

    pub closed spec fn wf(&self) -> bool {
        srcs_unique(self.records@)
    }

    /// A limiter with nothing tracked; `now` starts the compaction clock.
    pub fn new(config: RateLimitConfig, now: u64) -> (r: RateLimiter)
        ensures
            r.wf(),
            r@ == Map::<u128, Seq<u64>>::empty(),
            r.config_view() == config,
            r.last_cleanup_view() == now,
    {
        let r = RateLimiter { records: Vec::new(), config, last_cleanup: now };
        assert(r@ =~= Map::<u128, Seq<u64>>::empty());
        r
    }

    /// A limiter that admits everything.
    pub fn disabled() -> (r: RateLimiter)
        ensures
            r.wf(),
            r@ == Map::<u128, Seq<u64>>::empty(),
            !r.config_view().enabled,
    {
        RateLimiter::new(RateLimitConfig::disabled(), 0)
    }

    pub fn is_enabled(&self) -> (r: bool)
        ensures
            r == self.config_view().enabled,
    {
        self.config.enabled
    }

    /// The settings and the number of tracked sources.
    pub fn stats(&self) -> (r: RateLimitStats)
        requires
            self.wf(),
        ensures
            r.tracked_ips as nat == self@.len(),
            r.max_requests == self.config_view().max_requests,
            r.window_secs == self.config_view().window_ms / 1000,
            r.enabled == self.config_view().enabled,
    {
        proof {
            lemma_rec_len(self.records@);
        }
        RateLimitStats {
            tracked_ips: self.records.len(),
            max_requests: self.config.max_requests,
            window_secs: self.config.window_ms / 1000,
            enabled: self.config.enabled,
        }
    }

    fn find(&self, src: u128) -> (r: Option<usize>)
        ensures
            r is Some ==> src_at(self.records@, src, r->0 as int),
            r is None ==> !has_src(self.records@, src),
    {
        let mut i: usize = 0;
        while i < self.records.len()
            invariant
                forall|j: int| 0 <= j < i ==> !src_at(self.records@, src, j),
            decreases self.records.len() - i,
        {
            if self.records[i].source == src {
                return Some(i);
            }
            i = i + 1;
        }
        None
    }
}

/// The timestamps of `ts` inside the window ending at `now`.
fn window_filter(ts: &Vec<u64>, now: u64, window: u64) -> (r: Vec<u64>)
    ensures
        r@ == in_window(ts@, now, window),
{
    let mut r: Vec<u64> = Vec::new();
    let mut i: usize = 0;
    while i < ts.len()
        invariant
            i <= ts.len(),
            r@ == in_window(ts@.take(i as int), now, window),
        decreases ts.len() - i,
    {
        proof {
            assert(ts@.take(i + 1).drop_last() =~= ts@.take(i as int));
            reveal(Seq::filter);
        }
        let t = ts[i];
        let inside: bool = if now < window { true } else { t > now - window };
        if inside {
            r.push(t);
        }
        i = i + 1;
    }
    assert(ts@.take(ts.len() as int) =~= ts@);
    r
}

/// The record of `k` in `m`, or none.
pub open spec fn record_or_empty(m: Map<u128, Seq<u64>>, k: u128) -> Seq<u64> {
    if m.contains_key(k) {
        m[k]
    } else {
        Seq::empty()
    }
}

/// The record was active within two windows of `now`.
pub open spec fn fresh(ts: Seq<u64>, now: u64, window: u64) -> bool {
    newest(ts) as int > now as int - 2 * window as int
}

/// `new` is what compaction at `now` may leave of `old`: a part of it, unchanged, holding
/// only records active within two windows and at most `cap` of them; a fresh record
/// goes only when the cap is reached, and then only ones whose newest timestamp is no
/// later than that of any record kept.
pub open spec fn compacted(old: Map<u128, Seq<u64>>, new: Map<u128, Seq<u64>>, now: u64, window: u64, cap: usize) -> bool {
    &&& new.dom().subset_of(old.dom())
    &&& forall|k: u128| #[trigger] new.contains_key(k) ==> new[k] == old[k] && fresh(new[k], now, window)
    &&& new.len() <= cap
    &&& forall|k: u128| #[trigger] old.contains_key(k) && fresh(old[k], now, window) && !new.contains_key(k)
        ==> new.len() == cap && forall|k2: u128| #[trigger] new.contains_key(k2) ==> newest(old[k]) <= newest(new[k2])
}

fn newest_of(ts: &Vec<u64>) -> (r: u64)
    ensures
        r == newest(ts@),
{
    if ts.len() == 0 {
        0
    } else {
        ts[ts.len() - 1]
    }
}

fn is_fresh(ts: &Vec<u64>, now: u64, window: u64) -> (r: bool)
    ensures
        r == fresh(ts@, now, window),
{
    let t = newest_of(ts);
    if now < window {
        true
    } else if now - window < window {
        true
    } else {
        t > now - window - window
    }
}

/// One enabled check: `mid` is `old` after any due compaction, and the result and the
/// new records follow from the source's record in `mid`.
pub open spec fn check_step(
    old: Map<u128, Seq<u64>>,
    mid: Map<u128, Seq<u64>>,
    new: Map<u128, Seq<u64>>,
    r: Result<u32, u64>,
    src: u128,
    now: u64,
    last_cleanup: u64,
    config: RateLimitConfig,
) -> bool {
    &&& (if compaction_due(last_cleanup, now, config.window_ms) {
        compacted(old, mid, now, config.window_ms, config.max_tracked_ips)
    } else {
        mid == old
    })
    &&& r == decision(in_window(record_or_empty(mid, src), now, config.window_ms), now, config.max_requests, config.window_ms)
    &&& new == mid.insert(src, next_record(in_window(record_or_empty(mid, src), now, config.window_ms), now, config.max_requests))
}

impl RateLimiter {
    /// Drops stale records, then the ones least recently active until at most the cap
    /// remain.
    pub fn compact(&mut self, now: u64)
        requires
            old(self).wf(),
        ensures
            final(self).wf(),
            compacted(old(self)@, final(self)@, now, old(self).config_view().window_ms, old(self).config_view().max_tracked_ips),
            final(self).config_view() == old(self).config_view(),
            final(self).last_cleanup_view() == old(self).last_cleanup_view(),
    {
        let window = self.config.window_ms;
        let cap = self.config.max_tracked_ips;
        let ghost start = self@;
        let mut i: usize = 0;
        while i < self.records.len()
            invariant
                self.wf(),
                i <= self.records@.len(),
                self.config.window_ms == window,
                self.config.max_tracked_ips == cap,
                self.config == old(self).config,
                self.last_cleanup == old(self).last_cleanup,
                self@.dom().subset_of(start.dom()),
                forall|k: u128| #[trigger] self@.contains_key(k) ==> self@[k] == start[k],
                forall|j: int| 0 <= j < i ==> fresh(self.records@[j].timestamps@, now, window),
                forall|k: u128| #[trigger] start.contains_key(k) && !self@.contains_key(k) ==> !fresh(start[k], now, window),
            decreases self.records.len() - i,
        {
            if !is_fresh(&self.records[i].timestamps, now, window) {
                let ghost old_s = self.records@;
                proof {
                    lemma_rec_at(old_s, old_s[i as int].source, i as int);
                    lemma_rec_remove(old_s, i as int);
                }
                self.records.remove(i);
                proof {
                    assert(self.records@ =~= old_s.remove(i as int));
                    assert forall|j: int| 0 <= j < i implies fresh(self.records@[j].timestamps@, now, window) by {
                        assert(self.records@[j] == old_s[j]);
                    }
                }
            } else {
                i = i + 1;
            }
        }
        proof {
            lemma_rec_len(self.records@);
            assert forall|k: u128| #[trigger] self@.contains_key(k) implies fresh(self@[k], now, window) by {
                let j = choose|j: int| src_at(self.records@, k, j);
                lemma_rec_at(self.records@, k, j);
            }
        }
        while self.records.len() > cap
            invariant
                self.wf(),
                self.config == old(self).config,
                self.last_cleanup == old(self).last_cleanup,
                self.config.max_tracked_ips == cap,
                self@.dom().subset_of(start.dom()),
                forall|k: u128| #[trigger] self@.contains_key(k) ==> self@[k] == start[k] && fresh(self@[k], now, window),
                forall|k: u128| #[trigger] start.contains_key(k) && !self@.contains_key(k) && fresh(start[k], now, window)
                    ==> self.records@.len() >= cap && forall|k2: u128| #[trigger] self@.contains_key(k2) ==> newest(start[k]) <= newest(self@[k2]),
            decreases self.records.len(),
        {
            let mut m: usize = 0;
            let mut j: usize = 1;
            while j < self.records.len()
                invariant
                    1 <= j <= self.records@.len(),
                    m < self.records@.len(),
                    forall|q: int| 0 <= q < j ==> newest(self.records@[m as int].timestamps@) <= newest(self.records@[q].timestamps@),
                decreases self.records.len() - j,
            {
                if newest_of(&self.records[j].timestamps) < newest_of(&self.records[m].timestamps) {
                    m = j;
                }
                j = j + 1;
            }
            let ghost old_s = self.records@;
            let ghost gone = old_s[m as int];
            proof {
                lemma_rec_at(old_s, gone.source, m as int);
                lemma_rec_remove(old_s, m as int);
                lemma_rec_len(old_s);
            }
            self.records.remove(m);
            proof {
                assert(self.records@ =~= old_s.remove(m as int));
                lemma_rec_len(self.records@);
                assert forall|k2: u128| #[trigger] self@.contains_key(k2) implies newest(gone.timestamps@) <= newest(self@[k2]) by {
                    let q = choose|q: int| src_at(self.records@, k2, q);
                    lemma_rec_at(self.records@, k2, q);
                    let oq = if q < m { q } else { q + 1 };
                    assert(old_s[oq] == self.records@[q]);
                }
            }
        }
        proof {
            lemma_rec_len(self.records@);
        }
    }

    fn count_request(&mut self, src: u128, now: u64) -> (r: Result<u32, u64>)
        requires
            old(self).wf(),
        ensures
            final(self).wf(),
            final(self).config_view() == old(self).config_view(),
            final(self).last_cleanup_view() == old(self).last_cleanup_view(),
            r == decision(
                in_window(record_or_empty(old(self)@, src), now, old(self).config_view().window_ms),
                now,
                old(self).config_view().max_requests,
                old(self).config_view().window_ms,
            ),
            final(self)@ == old(self)@.insert(src, next_record(
                in_window(record_or_empty(old(self)@, src), now, old(self).config_view().window_ms),
                now,
                old(self).config_view().max_requests,
            )),
    {
        let window = self.config.window_ms;
        let max = self.config.max_requests;
        let idx = match self.find(src) {
            Some(i) => {
                proof {
                    lemma_rec_at(self.records@, src, i as int);
                }
                i
            },
            None => {
                let ghost old_s = self.records@;
                let rec = SourceRecord { source: src, timestamps: Vec::new() };
                proof {
                    lemma_rec_push(old_s, rec);
                }
                self.records.push(rec);
                proof {
                    assert(self.records@ =~= old_s.push(rec));
                    lemma_rec_at(self.records@, src, old_s.len() as int);
                    assert(self@ == old(self)@.insert(src, Seq::<u64>::empty()));
                }
                self.records.len() - 1
            },
        };
        let ghost before = self.records@;
        let kept = window_filter(&self.records[idx].timestamps, now, window);
        proof {
            assert(self@[src] == record_or_empty(old(self)@, src));
        }
        let n = kept.len();
        let result: Result<u32, u64>;
        let mut next = kept;
        if n >= max as usize {
            let wait = if next.len() == 0 {
                window
            } else {
                let first = next[0];
                let elapsed = if now >= first { now - first } else { 0 };
                if elapsed >= window { 0 } else { window - elapsed }
            };
            result = Err(wait);
        } else {
            next.push(now);
            result = Ok(max - (n as u32) - 1);
        }
        let rec = SourceRecord { source: src, timestamps: next };
        proof {
            lemma_rec_update(before, idx as int, rec);
        }
        self.records.set(idx, rec);
        proof {
            assert(self.records@ =~= before.update(idx as int, rec));
            assert(self@ =~= old(self)@.insert(src, rec.timestamps@));
        }
        result
    }

    /// The admission decision for a request from `src` at `now`: `Ok` with the requests
    /// left in the window, or `Err` with the milliseconds to wait. A disabled limiter
    /// admits everything and tracks nothing. When two windows have passed since the
    /// last compaction, one runs first.
    pub fn check(&mut self, src: u128, now: u64) -> (r: Result<u32, u64>)
        requires
            old(self).wf(),
        ensures
            final(self).wf(),
            final(self).config_view() == old(self).config_view(),
            final(self).last_cleanup_view() == (if old(self).config_view().enabled && compaction_due(
                old(self).last_cleanup_view(),
                now,
                old(self).config_view().window_ms,
            ) {
                now
            } else {
                old(self).last_cleanup_view()
            }),
            !old(self).config_view().enabled ==> r == Ok::<u32, u64>(old(self).config_view().max_requests)
                && final(self)@ == old(self)@,
            old(self).config_view().enabled ==> exists|mid: Map<u128, Seq<u64>>| #[trigger] check_step(
                old(self)@, mid, final(self)@, r, src, now, old(self).last_cleanup_view(), old(self).config_view()),
    {
        if !self.config.enabled {
            return Ok(self.config.max_requests);
        }
        let window = self.config.window_ms;
        let due = now > self.last_cleanup && now - self.last_cleanup > window && now - self.last_cleanup - window > window;
        if due {
            self.last_cleanup = now;
            self.compact(now);
        }
        assert(due == compaction_due(old(self).last_cleanup_view(), now, window));
        let ghost mid = self@;
        let r = self.count_request(src, now);
        assert(check_step(old(self)@, mid, self@, r, src, now, old(self).last_cleanup, self.config));
        r
    }
}

/// Within one window a source's requests count down: with `n` requests still in the
/// window, the next is admitted with `max - n - 1` left while `n < max`, and refused
/// with a wait of at most one window from then on; requests from other sources are
/// left as they were.
pub proof fn lemma_quota(
    old: Map<u128, Seq<u64>>,
    src: u128,
    other: u128,
    now: u64,
    config: RateLimitConfig,
)
    requires
        config.window_ms > 0,
        src != other,
        forall|i: int| 0 <= i < record_or_empty(old, src).len() ==> (record_or_empty(old, src)[i] as int) > now as int - config.window_ms as int,
    ensures
        ({
            let kept = in_window(record_or_empty(old, src), now, config.window_ms);
            let r = decision(kept, now, config.max_requests, config.window_ms);
            let new = old.insert(src, next_record(kept, now, config.max_requests));
            &&& kept == record_or_empty(old, src)
            &&& kept.len() < config.max_requests ==> r == Ok::<u32, u64>((config.max_requests - kept.len() - 1) as u32)
                && new[src].len() == kept.len() + 1
                && in_window(new[src], now, config.window_ms) == new[src]
            &&& kept.len() >= config.max_requests ==> r is Err && r->Err_0 <= config.window_ms && new[src] == kept
            &&& new.contains_key(other) == old.contains_key(other)
            &&& old.contains_key(other) ==> new[other] == old[other]
        }),
{
    let ts = record_or_empty(old, src);
    let w = config.window_ms;
    lemma_filter_all(ts, now, w);
    let kept = in_window(ts, now, w);
    if kept.len() < config.max_requests {
        lemma_filter_all(kept.push(now), now, w);
    }
}

proof fn lemma_filter_all(ts: Seq<u64>, now: u64, w: u64)
    requires
        forall|i: int| 0 <= i < ts.len() ==> (ts[i] as int) > now as int - w as int,
    ensures
        in_window(ts, now, w) == ts,
    decreases ts.len(),
{
    reveal(Seq::filter);
    if ts.len() > 0 {
        lemma_filter_all(ts.drop_last(), now, w);
        assert(ts.drop_last().push(ts.last()) =~= ts);
    } else {
        assert(ts.filter(|t: u64| t as int > now as int - w as int) =~= ts);
    }
}

} // verus!
