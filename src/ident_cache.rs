//! The bounded cache from channel references to channel ids.
//!
//! Entries are kept most recently used first; when the cache is full a new
//! reference evicts the least recently used one. A snapshot lists the
//! entries least recently used first, so that reloading it in order
//! restores the same recency ranking.

use crate::pending::{content_lines, is_content_line, is_white, non_blank_lines, split_lines, split_lines_acc};
use crate::text::{chars_of, push_char, text_of_chars};
use crate::model::YtApiError;
use crate::patterns::{channel_id_patterns, extract_channel_id, first_capture};
use lru::LruCache;
use vstd::prelude::*;
use vstd::string::*;

verus! {

/// The lru crate's cache of strings by string. Its default hasher type
/// cannot be declared here, so the cache is held opaquely.
#[verifier::external_body]
pub struct LruStore {
    inner: LruCache<String, String>,
}

/// The entries of a cache, most recently used first.
pub uninterp spec fn lru_entries(c: LruStore) -> Seq<(Seq<char>, Seq<char>)>;

/// The number of entries a cache was made to hold.
pub uninterp spec fn lru_capacity(c: LruStore) -> nat;

pub open spec fn key_pred(k: Seq<char>) -> spec_fn((Seq<char>, Seq<char>)) -> bool {
    |e: (Seq<char>, Seq<char>)| e.0 == k
}

/// The position of key `k`.
pub open spec fn key_pos(s: Seq<(Seq<char>, Seq<char>)>, k: Seq<char>) -> Option<int> {
    crate::find::first_match(s, key_pred(k))
}

/// Entry `i` moved to the front.
pub open spec fn promote(s: Seq<(Seq<char>, Seq<char>)>, i: int) -> Seq<(Seq<char>, Seq<char>)> {
    seq![s[i]] + s.remove(i)
}

/// The entries after a lookup of `k`.
pub open spec fn get_spec(s: Seq<(Seq<char>, Seq<char>)>, k: Seq<char>) -> Seq<(Seq<char>, Seq<char>)> {
    match key_pos(s, k) {
        Some(i) => promote(s, i),
        None => s,
    }
}

/// The entries after `k` is put with value `v`: an existing entry of `k`
/// is replaced and moved to the front; a new key goes to the front, and
/// evicts the last entry when the cache is full.
pub open spec fn put_spec(s: Seq<(Seq<char>, Seq<char>)>, cap: nat, k: Seq<char>, v: Seq<char>) -> Seq<(Seq<char>, Seq<char>)> {
    match key_pos(s, k) {
        Some(i) => seq![(k, v)] + s.remove(i),
        None => if s.len() >= cap {
            seq![(k, v)] + s.drop_last()
        } else {
            seq![(k, v)] + s
        },
    }
}

/// Relies on lru's `LruCache::new`: an empty cache that holds at most `cap` entries.
#[verifier::external_body]
fn lru_new(cap: usize) -> (r: LruStore)
    requires
        cap > 0,
    ensures
        lru_entries(r) == Seq::<(Seq<char>, Seq<char>)>::empty(),
        lru_capacity(r) == cap,
{
    LruStore { inner: LruCache::new(std::num::NonZeroUsize::new(cap).unwrap()) }
}

/// Relies on lru's `LruCache::get`: the value of `k`, whose entry becomes the
/// most recently used.
#[verifier::external_body]
fn lru_get(c: &mut LruStore, k: &String) -> (r: Option<String>)
    ensures
        crate::model::opt_text(r) == match key_pos(lru_entries(*old(c)), k@) {
            Some(i) => Some(lru_entries(*old(c))[i].1),
            None => None,
        },
        lru_entries(*final(c)) == get_spec(lru_entries(*old(c)), k@),
        lru_capacity(*final(c)) == lru_capacity(*old(c)),
{
    c.inner.get(k).cloned()
}

/// Relies on lru's `LruCache::put`: stores `v` under `k` as the most recently
/// used entry, evicting the least recently used one when a new key finds the
/// cache full.
#[verifier::external_body]
fn lru_put(c: &mut LruStore, k: String, v: String)
    ensures
        lru_entries(*final(c)) == put_spec(lru_entries(*old(c)), lru_capacity(*old(c)), k@, v@),
        lru_capacity(*final(c)) == lru_capacity(*old(c)),
{
    c.inner.put(k, v);
}

/// Relies on lru's `LruCache::iter` and its reverse: the entries, least
/// recently used first.
#[verifier::external_body]
fn lru_oldest_first(c: &LruStore) -> (r: Vec<(String, String)>)
    ensures
        pair_texts(r@) == rev_pairs(lru_entries(*c)),
{
    c.inner.iter().rev().map(|(k, v)| (k.clone(), v.clone())).collect()
}

pub open spec fn pair_texts(s: Seq<(String, String)>) -> Seq<(Seq<char>, Seq<char>)> {
    s.map_values(|p: (String, String)| (p.0@, p.1@))
}

/// The entries in reverse order.
pub open spec fn rev_pairs(s: Seq<(Seq<char>, Seq<char>)>) -> Seq<(Seq<char>, Seq<char>)>
    decreases s.len(),
{
    if s.len() == 0 {
        s
    } else {
        rev_pairs(s.subrange(1, s.len() as int)).push(s[0])
    }
}

/// No key occurs twice.
pub open spec fn distinct_keys(s: Seq<(Seq<char>, Seq<char>)>) -> bool {
    forall|i: int, j: int| 0 <= i < j < s.len() ==> s[i].0 != s[j].0
}

/// The value the entries give `k`.
pub open spec fn resolves(s: Seq<(Seq<char>, Seq<char>)>, k: Seq<char>) -> Option<Seq<char>> {
    match key_pos(s, k) {
        Some(i) => Some(s[i].1),
        None => None,
    }
}

/// A bounded map from channel references to channel ids.
pub struct IdentifierCache {
    cache: LruStore,
}

impl IdentifierCache {
    /// The entries, most recently used first.
    pub closed spec fn entries(&self) -> Seq<(Seq<char>, Seq<char>)> {
        lru_entries(self.cache)
    }

    /// The most entries the cache holds.
    pub closed spec fn capacity(&self) -> nat {
        lru_capacity(self.cache)
    }

    pub open spec fn wf(&self) -> bool {
        &&& self.capacity() > 0
        &&& self.entries().len() <= self.capacity()
        &&& distinct_keys(self.entries())
    }

    /// An empty cache that holds at most `capacity` entries.
    pub fn new(capacity: usize) -> (r: IdentifierCache)
        requires
            capacity > 0,
        ensures
            r.wf(),
            r.entries().len() == 0,
            r.capacity() == capacity,
    {
        IdentifierCache { cache: lru_new(capacity) }
    }

    /// The id cached for `reference`; a hit makes it the most recently used.
    pub fn lookup(&mut self, reference: &String) -> (r: Option<String>)
        requires
            old(self).wf(),
        ensures
            final(self).wf(),
            crate::model::opt_text(r) == resolves(old(self).entries(), reference@),
            final(self).entries() == get_spec(old(self).entries(), reference@),
            final(self).capacity() == old(self).capacity(),
    {
        let r = lru_get(&mut self.cache, reference);
        proof {
            lemma_get_keeps(old(self).entries(), reference@);
        }
        r
    }

    /// Records that `reference` resolves to `id`, as the most recently used entry.
    pub fn record(&mut self, reference: String, id: String)
        requires
            old(self).wf(),
        ensures
            final(self).wf(),
            final(self).entries() == put_spec(old(self).entries(), old(self).capacity(), reference@, id@),
            final(self).capacity() == old(self).capacity(),
    {
        let ghost k = reference@;
        let ghost v = id@;
        lru_put(&mut self.cache, reference, id);
        proof {
            lemma_put_keeps(old(self).entries(), old(self).capacity(), k, v);
        }
    }
}

pub proof fn lemma_distinct_remove(s: Seq<(Seq<char>, Seq<char>)>, i: int)
    requires
        distinct_keys(s),
        0 <= i < s.len(),
    ensures
        distinct_keys(s.remove(i)),
        forall|j: int| 0 <= j < s.remove(i).len() ==> s.remove(i)[j].0 != s[i].0,
{
    let r = s.remove(i);
    assert forall|a: int, b: int| 0 <= a < b < r.len() implies r[a].0 != r[b].0 by {
        let a2 = if a < i { a } else { a + 1 };
        let b2 = if b < i { b } else { b + 1 };
        assert(r[a] == s[a2] && r[b] == s[b2]);
    }
    assert forall|j: int| 0 <= j < r.len() implies r[j].0 != s[i].0 by {
        let j2 = if j < i { j } else { j + 1 };
        assert(r[j] == s[j2]);
    }
}

pub proof fn lemma_key_pos_some(s: Seq<(Seq<char>, Seq<char>)>, k: Seq<char>)
    requires
        key_pos(s, k) is Some,
    ensures
        crate::find::is_first_match(s, key_pred(k), key_pos(s, k)->Some_0),
{
    assert(exists|i: int| crate::find::is_first_match(s, key_pred(k), i));
}

pub proof fn lemma_key_absent(s: Seq<(Seq<char>, Seq<char>)>, k: Seq<char>)
    requires
        key_pos(s, k) is None,
    ensures
        forall|j: int| 0 <= j < s.len() ==> s[j].0 != k,
{
    assert forall|j: int| 0 <= j < s.len() implies s[j].0 != k by {
        if s[j].0 == k {
            crate::find::lemma_first_match_some(s, key_pred(k), j);
        }
    }
}

/// Putting a front entry before entries that lack its key keeps keys distinct.
proof fn lemma_front_distinct(k: Seq<char>, v: Seq<char>, rest: Seq<(Seq<char>, Seq<char>)>)
    requires
        distinct_keys(rest),
        forall|j: int| 0 <= j < rest.len() ==> rest[j].0 != k,
    ensures
        distinct_keys(seq![(k, v)] + rest),
{
    let t = seq![(k, v)] + rest;
    assert forall|a: int, b: int| 0 <= a < b < t.len() implies t[a].0 != t[b].0 by {
        assert(t[b] == rest[b - 1]);
        if a > 0 {
            assert(t[a] == rest[a - 1]);
        }
    }
}

pub proof fn lemma_get_keeps(s: Seq<(Seq<char>, Seq<char>)>, k: Seq<char>)
    requires
        distinct_keys(s),
    ensures
        distinct_keys(get_spec(s, k)),
        get_spec(s, k).len() == s.len(),
{
    if key_pos(s, k) is Some {
        let i = key_pos(s, k)->Some_0;
        lemma_key_pos_some(s, k);
        lemma_distinct_remove(s, i);
        lemma_front_distinct(s[i].0, s[i].1, s.remove(i));
    }
}

pub proof fn lemma_put_keeps(s: Seq<(Seq<char>, Seq<char>)>, cap: nat, k: Seq<char>, v: Seq<char>)
    requires
        distinct_keys(s),
        0 < cap,
        s.len() <= cap,
    ensures
        distinct_keys(put_spec(s, cap, k, v)),
        put_spec(s, cap, k, v).len() <= cap,
        put_spec(s, cap, k, v)[0] == (k, v),
{
    match key_pos(s, k) {
        Some(i) => {
            lemma_key_pos_some(s, k);
            lemma_distinct_remove(s, i);
            lemma_front_distinct(k, v, s.remove(i));
        },
        None => {
            lemma_key_absent(s, k);
            if s.len() >= cap {
                assert forall|a: int, b: int| 0 <= a < b < s.drop_last().len() implies s.drop_last()[a].0 != s.drop_last()[b].0 by {
                    assert(s.drop_last()[a] == s[a] && s.drop_last()[b] == s[b]);
                }
                lemma_front_distinct(k, v, s.drop_last());
            } else {
                lemma_front_distinct(k, v, s);
            }
        },
    }
}

/// Resolving a reference twice with no other change in between asks
/// upstream at most once: after a reference is recorded, and after any
/// successful lookup, looking it up again hits.
pub proof fn lemma_resolve_idempotent(s: Seq<(Seq<char>, Seq<char>)>, cap: nat, k: Seq<char>, v: Seq<char>)
    requires
        distinct_keys(s),
        0 < cap,
        s.len() <= cap,
    ensures
        resolves(put_spec(s, cap, k, v), k) == Some(v),
        resolves(s, k) is Some ==> resolves(get_spec(s, k), k) == resolves(s, k),
{
    lemma_put_keeps(s, cap, k, v);
    let t = put_spec(s, cap, k, v);
    assert(crate::find::is_first_match(t, key_pred(k), 0));
    crate::find::lemma_first_match_at(t, key_pred(k), 0);
    if resolves(s, k) is Some {
        let i = key_pos(s, k)->Some_0;
        lemma_key_pos_some(s, k);
        let g = get_spec(s, k);
        assert(g[0] == s[i]);
        assert(crate::find::is_first_match(g, key_pred(k), 0));
        crate::find::lemma_first_match_at(g, key_pred(k), 0);
    }
}

/// Lookups of other references, and puts of other references that evict
/// nothing or evict another entry, leave a cached reference resolving as
/// before: resolving it again asks nothing upstream.
pub proof fn lemma_resolution_survives(s: Seq<(Seq<char>, Seq<char>)>, cap: nat, k: Seq<char>, k2: Seq<char>, v2: Seq<char>)
    requires
        distinct_keys(s),
        0 < cap,
        s.len() <= cap,
        resolves(s, k) is Some,
        k2 != k,
    ensures
        resolves(get_spec(s, k2), k) == resolves(s, k),
        (key_pos(s, k2) is Some || s.len() < cap || s.last().0 != k)
            ==> resolves(put_spec(s, cap, k2, v2), k) == resolves(s, k),
{
    let i = key_pos(s, k)->Some_0;
    lemma_key_pos_some(s, k);
    // where k sits in a sequence of distinct keys, it resolves to that entry
    assert forall|t: Seq<(Seq<char>, Seq<char>)>, q: int|
        distinct_keys(t) && 0 <= q < t.len() && #[trigger] t[q] == s[i] implies resolves(t, k) == Some(s[i].1) by {
        assert forall|j: int| 0 <= j < q implies !(key_pred(k))(#[trigger] t[j]) by {
            assert(t[j].0 != t[q].0);
        }
        assert(crate::find::is_first_match(t, key_pred(k), q));
        crate::find::lemma_first_match_at(t, key_pred(k), q);
    }
    lemma_get_keeps(s, k2);
    match key_pos(s, k2) {
        Some(m) => {
            lemma_key_pos_some(s, k2);
            assert(m != i);
            let g = get_spec(s, k2);
            let q = if i < m { i + 1 } else { i };
            assert(g[q] == s[i]);
            lemma_put_keeps(s, cap, k2, v2);
            let t = put_spec(s, cap, k2, v2);
            assert(t[q] == s[i]);
        },
        None => {
            assert(get_spec(s, k2) == s);
            lemma_put_keeps(s, cap, k2, v2);
            let t = put_spec(s, cap, k2, v2);
            if s.len() < cap || s.last().0 != k {
                if s.len() >= cap {
                    assert(i != s.len() - 1);
                }
                assert(t[i + 1] == s[i]);
            }
        },
    }
}

/// A full cache that takes a new reference evicts exactly its least
/// recently used entry, which then no longer resolves.
pub proof fn lemma_full_cache_evicts_oldest(s: Seq<(Seq<char>, Seq<char>)>, cap: nat, k: Seq<char>, v: Seq<char>)
    requires
        distinct_keys(s),
        0 < cap,
        s.len() == cap,
        key_pos(s, k) is None,
    ensures
        put_spec(s, cap, k, v) == seq![(k, v)] + s.drop_last(),
        resolves(put_spec(s, cap, k, v), s.last().0) is None,
        forall|j: int| 0 <= j < s.len() - 1 ==> resolves(put_spec(s, cap, k, v), #[trigger] s[j].0) == Some(s[j].1),
{
    let t = put_spec(s, cap, k, v);
    lemma_key_absent(s, k);
    lemma_put_keeps(s, cap, k, v);
    assert forall|j: int| 0 <= j < t.len() implies t[j].0 != s.last().0 by {
        if j > 0 {
            assert(t[j] == s[j - 1]);
            assert(s[j - 1].0 != s[s.len() - 1].0);
        } else {
            assert(s[s.len() - 1].0 != k);
        }
    }
    crate::find::lemma_first_match_none(t, key_pred(s.last().0));
    assert forall|j: int| 0 <= j < s.len() - 1 implies resolves(t, #[trigger] s[j].0) == Some(s[j].1) by {
        assert(t[j + 1] == s[j]);
        assert forall|q: int| 0 <= q < j + 1 implies !(key_pred(s[j].0))(#[trigger] t[q]) by {
            if q > 0 {
                assert(t[q] == s[q - 1]);
            }
        }
        assert(crate::find::is_first_match(t, key_pred(s[j].0), j + 1));
        crate::find::lemma_first_match_at(t, key_pred(s[j].0), j + 1);
    }
}

/// A snapshot's text: one `reference id` line per entry, in order.
pub open spec fn render_pairs(ps: Seq<(Seq<char>, Seq<char>)>) -> Seq<char>
    decreases ps.len(),
{
    if ps.len() == 0 {
        Seq::empty()
    } else {
        render_pairs(ps.drop_last()) + ps.last().0 + seq![' '] + ps.last().1 + seq!['\n']
    }
}

/// The line without one trailing carriage return.
pub open spec fn drop_cr(line: Seq<char>) -> Seq<char> {
    if line.len() > 0 && line.last() == '\r' {
        line.drop_last()
    } else {
        line
    }
}

pub open spec fn space_pred() -> spec_fn(char) -> bool {
    |c: char| c == ' '
}

/// The text up to its first space.
pub open spec fn first_word(t: Seq<char>) -> Seq<char> {
    match crate::find::first_match(t, space_pred()) {
        Some(q) => t.take(q),
        None => t,
    }
}

/// The reference and id a snapshot line holds: its first two
/// space-separated words; `None` for a line with no space.
pub open spec fn parse_pair(line: Seq<char>) -> Option<(Seq<char>, Seq<char>)> {
    let l = drop_cr(line);
    match crate::find::first_match(l, space_pred()) {
        Some(p) => Some((l.take(p), first_word(l.skip(p + 1)))),
        None => None,
    }
}

/// The entries a snapshot's lines give, in order.
pub open spec fn parsed_pairs(lines: Seq<Seq<char>>) -> Seq<(Seq<char>, Seq<char>)>
    decreases lines.len(),
{
    if lines.len() == 0 {
        Seq::empty()
    } else {
        match parse_pair(lines.last()) {
            Some(pr) => parsed_pairs(lines.drop_last()).push(pr),
            None => parsed_pairs(lines.drop_last()),
        }
    }
}

/// The entries after each pair is put in order.
pub open spec fn put_all(s: Seq<(Seq<char>, Seq<char>)>, cap: nat, ps: Seq<(Seq<char>, Seq<char>)>) -> Seq<(Seq<char>, Seq<char>)>
    decreases ps.len(),
{
    if ps.len() == 0 {
        s
    } else {
        put_spec(put_all(s, cap, ps.drop_last()), cap, ps.last().0, ps.last().1)
    }
}

/// The position of the first space of `t` at or after `from`.
fn find_space(t: &Vec<char>, from: usize) -> (r: Option<usize>)
    requires
        from <= t.len(),
    ensures
        match r {
            Some(q) => from <= q < t.len() && crate::find::first_match(t@.skip(from as int), space_pred()) == Some(q - from),
            None => crate::find::first_match(t@.skip(from as int), space_pred()) is None,
        },
{
    let ghost u = t@.skip(from as int);
    let mut i: usize = from;
    while i < t.len()
        invariant
            from <= i <= t.len(),
            u == t@.skip(from as int),
            forall|j: int| 0 <= j < i - from ==> !(space_pred())(#[trigger] u[j]),
        decreases t.len() - i,
    {
        if t[i] == ' ' {
            proof {
                assert(u[i - from] == t@[i as int]);
                assert(crate::find::is_first_match(u, space_pred(), i - from));
                crate::find::lemma_first_match_at(u, space_pred(), i - from);
            }
            return Some(i);
        }
        assert(u[i - from] == t@[i as int]);
        i = i + 1;
    }
    proof {
        crate::find::lemma_first_match_none(u, space_pred());
    }
    None
}

/// The characters of `t` from `a` to `b`.
fn slice_text(t: &Vec<char>, a: usize, b: usize) -> (r: String)
    requires
        a <= b <= t.len(),
    ensures
        r@ == t@.subrange(a as int, b as int),
{
    let mut out: Vec<char> = Vec::new();
    let mut k: usize = a;
    while k < b
        invariant
            a <= k <= b <= t.len(),
            out@ == t@.subrange(a as int, k as int),
        decreases b - k,
    {
        out.push(t[k]);
        k = k + 1;
        assert(out@ =~= t@.subrange(a as int, k as int));
    }
    text_of_chars(&out)
}

/// The reference and id a snapshot line holds.
pub fn parse_cache_line(line: &str) -> (r: Option<(String, String)>)
    ensures
        match r {
            Some(pr) => parse_pair(line@) == Some((pr.0@, pr.1@)),
            None => parse_pair(line@) is None,
        },
{
    let mut l = chars_of(line);
    if l.len() > 0 && l[l.len() - 1] == '\r' {
        l.pop();
    }
    assert(l@ == drop_cr(line@));
    assert(l@.skip(0) =~= l@);
    match find_space(&l, 0) {
        None => None,
        Some(p) => {
            let key = slice_text(&l, 0, p);
            assert(l@.subrange(0, p as int) =~= l@.take(p as int));
            let end = match find_space(&l, p + 1) {
                Some(q) => q,
                None => l.len(),
            };
            let value = slice_text(&l, p + 1, end);
            proof {
                let rest = l@.skip(p + 1);
                match crate::find::first_match(rest, space_pred()) {
                    Some(q) => {
                        assert(l@.subrange(p + 1, end as int) =~= rest.take(q));
                    },
                    None => {
                        assert(l@.subrange(p + 1, end as int) =~= rest);
                    },
                }
            }
            Some((key, value))
        },
    }
}

impl IdentifierCache {
    /// Records the channel id that a fetched channel page gives for
    /// `reference`, and returns it; `NotFound` when the page gives none.
    pub fn record_from_page(&mut self, reference: String, page: &str) -> (r: Result<String, YtApiError>)
        requires
            old(self).wf(),
        ensures
            final(self).wf(),
            final(self).capacity() == old(self).capacity(),
            match first_capture(channel_id_patterns(), page@) {
                Some(id) => r is Ok && r->Ok_0@ == id
                    && final(self).entries() == put_spec(old(self).entries(), old(self).capacity(), reference@, id),
                None => r == Err::<String, YtApiError>(YtApiError::NotFound) && final(self).entries() == old(self).entries(),
            },
    {
        match extract_channel_id(page) {
            Some(id) => {
                self.record(reference, id.clone());
                Ok(id)
            },
            None => Err(YtApiError::NotFound),
        }
    }

    /// The snapshot text: one `reference id` line per entry, least
    /// recently used first.
    pub fn snapshot(&self) -> (r: String)
        ensures
            r@ == render_pairs(rev_pairs(self.entries())),
    {
        let pairs = lru_oldest_first(&self.cache);
        let ghost pv = pair_texts(pairs@);
        let mut out = String::new();
        let mut i: usize = 0;
        assert(pv.take(0) =~= Seq::<(Seq<char>, Seq<char>)>::empty());
        while i < pairs.len()
            invariant
                i <= pairs.len(),
                pv == pair_texts(pairs@),
                out@ == render_pairs(pv.take(i as int)),
            decreases pairs.len() - i,
        {
            assert(pv.take(i + 1).drop_last() =~= pv.take(i as int));
            assert(pv.take(i + 1).last() == (pairs@[i as int].0@, pairs@[i as int].1@));
            out.append(pairs[i].0.as_str());
            push_char(&mut out, ' ');
            out.append(pairs[i].1.as_str());
            push_char(&mut out, '\n');
            i = i + 1;
            assert(out@ =~= render_pairs(pv.take(i as int)));
        }
        assert(pv.take(i as int) =~= pv);
        out
    }

    /// A cache of `capacity` entries filled from a snapshot's text, each
    /// non-blank line put in order; lines without a space are skipped.
    pub fn restore(text: &str, capacity: usize) -> (r: IdentifierCache)
        requires
            capacity > 0,
        ensures
            r.wf(),
            r.capacity() == capacity,
            r.entries() == put_all(Seq::empty(), capacity as nat, parsed_pairs(content_lines(split_lines(text@)))),
    {
        let mut c = IdentifierCache::new(capacity);
        let lines = non_blank_lines(text);
        let ghost lv = crate::pending::texts(lines@);
        let ghost pending_pairs: Seq<(Seq<char>, Seq<char>)> = Seq::empty();
        let mut i: usize = 0;
        assert(lv.take(0) =~= Seq::<Seq<char>>::empty());
        while i < lines.len()
            invariant
                i <= lines.len(),
                lv == crate::pending::texts(lines@),
                lv == content_lines(split_lines(text@)),
                c.wf(),
                c.capacity() == capacity,
                c.entries() == put_all(Seq::empty(), capacity as nat, parsed_pairs(lv.take(i as int))),
            decreases lines.len() - i,
        {
            assert(lv.take(i + 1).drop_last() =~= lv.take(i as int));
            assert(lv.take(i + 1).last() == lines@[i as int]@);
            match parse_cache_line(lines[i].as_str()) {
                Some((k, v)) => {
                    proof {
                        let pp = parsed_pairs(lv.take(i as int));
                        assert(pp.push((k@, v@)).drop_last() =~= pp);
                    }
                    c.record(k, v);
                },
                None => {},
            }
            i = i + 1;
        }
        assert(lv.take(i as int) =~= lv);
        c
    }
}

/// Free of white space.
pub open spec fn clean_text(t: Seq<char>) -> bool {
    forall|i: int| 0 <= i < t.len() ==> !is_white(#[trigger] t[i])
}

/// Every reference and id is free of white space, and no entry has both
/// empty (its line would be blank).
pub open spec fn all_clean(s: Seq<(Seq<char>, Seq<char>)>) -> bool {
    forall|i: int| 0 <= i < s.len() ==> clean_text(#[trigger] s[i].0) && clean_text(s[i].1)
        && (s[i].0.len() > 0 || s[i].1.len() > 0)
}

/// The snapshot line of an entry, without its line break.
pub open spec fn pair_line(p: (Seq<char>, Seq<char>)) -> Seq<char> {
    p.0 + seq![' '] + p.1
}

pub open spec fn pair_lines(ps: Seq<(Seq<char>, Seq<char>)>) -> Seq<Seq<char>> {
    ps.map_values(|p: (Seq<char>, Seq<char>)| pair_line(p))
}

proof fn lemma_split_no_break(a: Seq<char>, b: Seq<char>)
    requires
        forall|i: int| 0 <= i < b.len() ==> b[i] != '\n',
    ensures
        split_lines_acc(a + b) == (split_lines_acc(a).0, split_lines_acc(a).1 + b),
    decreases b.len(),
{
    if b.len() == 0 {
        assert(a + b =~= a);
        assert(split_lines_acc(a).1 + b =~= split_lines_acc(a).1);
    } else {
        lemma_split_no_break(a, b.drop_last());
        assert((a + b).drop_last() =~= a + b.drop_last());
        assert((a + b).last() == b.last());
        assert((split_lines_acc(a).1 + b.drop_last()).push(b.last()) =~= split_lines_acc(a).1 + b);
    }
}

proof fn lemma_split_rendered(ps: Seq<(Seq<char>, Seq<char>)>)
    requires
        all_clean(ps),
    ensures
        split_lines_acc(render_pairs(ps)) == (pair_lines(ps), Seq::<char>::empty()),
    decreases ps.len(),
{
    if ps.len() == 0 {
        assert(pair_lines(ps) =~= Seq::<Seq<char>>::empty());
    } else {
        let dl = ps.drop_last();
        assert(all_clean(dl)) by {
            assert forall|i: int| 0 <= i < dl.len() implies clean_text(#[trigger] dl[i].0) && clean_text(dl[i].1) && (dl[i].0.len() > 0 || dl[i].1.len() > 0) by {
                assert(dl[i] == ps[i]);
            }
        }
        lemma_split_rendered(dl);
        let last = ps.last();
        assert(clean_text(ps[ps.len() - 1].0));
        let line = pair_line(last);
        assert forall|i: int| 0 <= i < line.len() implies line[i] != '\n' by {
            if i < last.0.len() {
                assert(line[i] == last.0[i]);
                assert(!is_white(last.0[i]));
            } else if i > last.0.len() {
                assert(line[i] == last.1[i - last.0.len() - 1]);
                assert(!is_white(last.1[i - last.0.len() - 1]));
            }
        }
        let pre = render_pairs(dl);
        lemma_split_no_break(pre, line);
        assert(render_pairs(ps) =~= (pre + line).push('\n'));
        assert((pre + line).push('\n').drop_last() =~= pre + line);
        assert(Seq::<char>::empty() + line =~= line);
        assert(pair_lines(ps) =~= pair_lines(dl).push(line));
    }
}

proof fn lemma_parse_line(p: (Seq<char>, Seq<char>))
    requires
        clean_text(p.0),
        clean_text(p.1),
        p.0.len() > 0 || p.1.len() > 0,
    ensures
        parse_pair(pair_line(p)) == Some(p),
        is_content_line(pair_line(p)),
{
    let line = pair_line(p);
    let k = p.0;
    let v = p.1;
    if v.len() > 0 {
        assert(line.last() == v.last());
        assert(!is_white(v[v.len() - 1]));
        assert(line[line.len() - 1] == v[v.len() - 1]);
    } else {
        assert(line.last() == ' ');
    }
    assert(drop_cr(line) == line);
    assert forall|j: int| 0 <= j < k.len() implies !(space_pred())(#[trigger] line[j]) by {
        assert(line[j] == k[j]);
        assert(!is_white(k[j]));
    }
    assert(line[k.len() as int] == ' ');
    assert(crate::find::is_first_match(line, space_pred(), k.len() as int));
    crate::find::lemma_first_match_at(line, space_pred(), k.len() as int);
    assert(line.take(k.len() as int) =~= k);
    assert(line.skip(k.len() as int + 1) =~= v);
    assert forall|j: int| 0 <= j < v.len() implies !(space_pred())(#[trigger] v[j]) by {
        assert(!is_white(v[j]));
    }
    crate::find::lemma_first_match_none(v, space_pred());
    if k.len() > 0 {
        assert(line[0] == k[0]);
        assert(!is_white(line[0]));
    } else {
        assert(line[1] == v[0]);
        assert(!is_white(line[1]));
    }
}

proof fn lemma_parse_lines(ps: Seq<(Seq<char>, Seq<char>)>)
    requires
        all_clean(ps),
    ensures
        parsed_pairs(content_lines(pair_lines(ps))) == ps,
        content_lines(pair_lines(ps)) == pair_lines(ps),
    decreases ps.len(),
{
    if ps.len() > 0 {
        let dl = ps.drop_last();
        assert(all_clean(dl)) by {
            assert forall|i: int| 0 <= i < dl.len() implies clean_text(#[trigger] dl[i].0) && clean_text(dl[i].1) && (dl[i].0.len() > 0 || dl[i].1.len() > 0) by {
                assert(dl[i] == ps[i]);
            }
        }
        lemma_parse_lines(dl);
        assert(clean_text(ps[ps.len() - 1].0));
        lemma_parse_line(ps.last());
        assert(pair_lines(ps).drop_last() =~= pair_lines(dl));
        assert(pair_lines(ps).last() == pair_line(ps.last()));
        assert(content_lines(pair_lines(ps)) =~= pair_lines(dl).push(pair_line(ps.last())));
        let y = pair_lines(dl).push(pair_line(ps.last()));
        assert(y.drop_last() =~= pair_lines(dl));
        assert(y.last() == pair_line(ps.last()));
        assert(parsed_pairs(y) == parsed_pairs(pair_lines(dl)).push(ps.last()));
        assert(ps =~= dl.push(ps.last()));
    } else {
        assert(pair_lines(ps) =~= Seq::<Seq<char>>::empty());
    }
}

proof fn lemma_rev_clean(s: Seq<(Seq<char>, Seq<char>)>)
    requires
        all_clean(s),
    ensures
        all_clean(rev_pairs(s)),
    decreases s.len(),
{
    if s.len() > 0 {
        let t = s.subrange(1, s.len() as int);
        assert(all_clean(t)) by {
            assert forall|i: int| 0 <= i < t.len() implies clean_text(#[trigger] t[i].0) && clean_text(t[i].1) && (t[i].0.len() > 0 || t[i].1.len() > 0) by {
                assert(t[i] == s[i + 1]);
            }
        }
        lemma_rev_clean(t);
        let r = rev_pairs(s);
        assert forall|i: int| 0 <= i < r.len() implies clean_text(#[trigger] r[i].0) && clean_text(r[i].1) && (r[i].0.len() > 0 || r[i].1.len() > 0) by {
            if i < r.len() - 1 {
                assert(r[i] == rev_pairs(t)[i]);
            } else {
                assert(r[i] == s[0]);
            }
        }
    }
}

proof fn lemma_put_all_rev(s: Seq<(Seq<char>, Seq<char>)>, cap: nat)
    requires
        distinct_keys(s),
        s.len() <= cap,
    ensures
        put_all(Seq::empty(), cap, rev_pairs(s)) == s,
    decreases s.len(),
{
    if s.len() > 0 {
        let t = s.subrange(1, s.len() as int);
        assert(distinct_keys(t)) by {
            assert forall|a: int, b: int| 0 <= a < b < t.len() implies t[a].0 != t[b].0 by {
                assert(t[a] == s[a + 1] && t[b] == s[b + 1]);
            }
        }
        lemma_put_all_rev(t, cap);
        let r = rev_pairs(s);
        assert(r.drop_last() =~= rev_pairs(t));
        assert(r.last() == s[0]);
        assert forall|j: int| 0 <= j < t.len() implies !(key_pred(s[0].0))(#[trigger] t[j]) by {
            assert(t[j] == s[j + 1]);
        }
        crate::find::lemma_first_match_none(t, key_pred(s[0].0));
        assert(seq![(s[0].0, s[0].1)] + t =~= s);
    }
}

/// Saving a cache and loading the snapshot into a cache of the same
/// capacity gives back the same entries in the same recency order, when
/// every reference and id is free of white space and no entry has both
/// empty.
pub proof fn lemma_snapshot_round_trip(s: Seq<(Seq<char>, Seq<char>)>, cap: nat)
    requires
        distinct_keys(s),
        s.len() <= cap,
        all_clean(s),
    ensures
        put_all(Seq::empty(), cap, parsed_pairs(content_lines(split_lines(render_pairs(rev_pairs(s)))))) == s,
{
    let ps = rev_pairs(s);
    lemma_rev_clean(s);
    lemma_split_rendered(ps);
    let lines = pair_lines(ps);
    assert(split_lines(render_pairs(ps)) == lines.push(Seq::<char>::empty()));
    assert(lines.push(Seq::<char>::empty()).drop_last() =~= lines);
    assert(!is_content_line(Seq::<char>::empty()));
    lemma_parse_lines(ps);
    lemma_put_all_rev(s, cap);
}

} // verus!
