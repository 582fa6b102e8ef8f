//! Sync keys: named channel lists that clients share between devices.

use crate::find::{first_match, is_first_match, keep, lemma_first_match_at, lemma_first_match_none};
use vstd::string::*;
use crate::pending::{dedup, push_text, texts};
use vstd::prelude::*;

verus! {

/// How long an unused key is kept, in milliseconds (thirty days).
pub const MAX_KEEP_MILLIS: i64 = 2_592_000_000;

/// The channel lists saved under one key.
pub struct KeySave {
    pub key: u128,
    pub last_used: i64,
    pub yt_channels: Vec<String>,
    pub tw_channels: Vec<String>,
}

pub open spec fn key_is(key: u128) -> spec_fn(KeySave) -> bool {
    |s: KeySave| s.key == key
}

pub open spec fn fresh(now: i64) -> spec_fn(KeySave) -> bool {
    |s: KeySave| !(now - s.last_used > MAX_KEEP_MILLIS)
}

/// The non-empty texts of `s`, without repeats.
pub open spec fn channel_set(s: Seq<Seq<char>>) -> Seq<Seq<char>> {
    dedup(keep(s, |t: Seq<char>| t.len() > 0))
}

/// All saved keys.
pub struct SyncKeys {
    pub saves: Vec<KeySave>,
}

pub open spec fn save_key() -> spec_fn(KeySave) -> u128 {
    |s: KeySave| s.key
}

/// No key is saved twice.
pub open spec fn distinct_save_keys(saves: Seq<KeySave>) -> bool {
    forall|i: int, j: int| 0 <= i < j < saves.len() ==> saves[i].key != saves[j].key
}

/// Replacing a save by one with the same key keeps keys distinct.
pub proof fn lemma_same_key_update(saves: Seq<KeySave>, i: int, s: KeySave)
    requires
        distinct_save_keys(saves),
        0 <= i < saves.len(),
        s.key == saves[i].key,
    ensures
        distinct_save_keys(saves.update(i, s)),
{
    let t = saves.update(i, s);
    assert forall|a: int, b: int| 0 <= a < b < t.len() implies t[a].key != t[b].key by {
        assert(t[a].key == saves[a].key && t[b].key == saves[b].key);
    }
}

impl SyncKeys {
    pub open spec fn wf(&self) -> bool {
        distinct_save_keys(self.saves@)
    }

    /// No keys.
    pub fn new() -> (r: SyncKeys)
        ensures
            r.wf(),
            r.saves@.len() == 0,
    {
        SyncKeys { saves: Vec::new() }
    }

    /// The position of `key`.
    pub fn position(&self, key: u128) -> (r: Option<usize>)
        ensures
            match r {
                Some(i) => first_match(self.saves@, key_is(key)) == Some(i as int),
                None => first_match(self.saves@, key_is(key)) is None,
            },
    {
        let mut i: usize = 0;
        while i < self.saves.len()
            invariant
                i <= self.saves.len(),
                forall|j: int| 0 <= j < i ==> !(key_is(key))(#[trigger] self.saves@[j]),
            decreases self.saves.len() - i,
        {
            if self.saves[i].key == key {
                proof {
                    assert(is_first_match(self.saves@, key_is(key), i as int));
                    lemma_first_match_at(self.saves@, key_is(key), i as int);
                }
                return Some(i);
            }
            i = i + 1;
        }
        proof {
            lemma_first_match_none(self.saves@, key_is(key));
        }
        None
    }

    /// Adds a new key, with empty lists, used at `now`; returns false, and
    /// adds nothing, when the key is already saved.
    pub fn add_key(&mut self, key: u128, now: i64) -> (r: bool)
        requires
            old(self).wf(),
        ensures
            final(self).wf(),
            r == (first_match(old(self).saves@, key_is(key)) is None),
            !r ==> final(self).saves@ == old(self).saves@,
            r ==> final(self).saves@.len() == old(self).saves@.len() + 1
                && final(self).saves@.drop_last() == old(self).saves@
                && final(self).saves@.last().key == key
                && final(self).saves@.last().last_used == now
                && final(self).saves@.last().yt_channels@.len() == 0
                && final(self).saves@.last().tw_channels@.len() == 0,
    {
        match self.position(key) {
            Some(_) => {
                return false;
            },
            None => {},
        }
        self.saves.push(KeySave { key, last_used: now, yt_channels: Vec::new(), tw_channels: Vec::new() });
        assert(self.saves@.drop_last() =~= old(self).saves@);
        assert forall|a: int, b: int| 0 <= a < b < self.saves@.len() implies self.saves@[a].key != self.saves@[b].key by {
            if b == old(self).saves@.len() {
                if self.saves@[a].key == key {
                    crate::find::lemma_first_match_some(old(self).saves@, key_is(key), a);
                }
            } else {
                assert(self.saves@[a] == old(self).saves@[a] && self.saves@[b] == old(self).saves@[b]);
            }
        }
        true
    }

    /// The platform-A channels saved under `key`, marking it used at `now`.
    pub fn get_yt_channel(&mut self, key: u128, now: i64) -> (r: Option<Vec<String>>)
        requires
            old(self).wf(),
        ensures
            final(self).wf(),
            final(self).saves@.len() == old(self).saves@.len(),
            match first_match(old(self).saves@, key_is(key)) {
                Some(i) => r is Some && texts(r->Some_0@) == texts(old(self).saves@[i].yt_channels@)
                    && final(self).saves@ == old(self).saves@.update(i, KeySave { last_used: now, ..old(self).saves@[i] }),
                None => r is None && final(self).saves@ == old(self).saves@,
            },
    {
        match self.position(key) {
            Some(i) => {
                let mut s = self.saves.remove(i);
                s.last_used = now;
                let r = copy_texts(&s.yt_channels);
                let ghost sv = s;
                self.saves.insert(i, s);
                proof {
                    assert(self.saves@ =~= old(self).saves@.update(i as int, sv));
                    lemma_same_key_update(old(self).saves@, i as int, sv);
                }
                Some(r)
            },
            None => None,
        }
    }

    /// The platform-B channels saved under `key`, marking it used at `now`.
    pub fn get_tw_channel(&mut self, key: u128, now: i64) -> (r: Option<Vec<String>>)
        requires
            old(self).wf(),
        ensures
            final(self).wf(),
            final(self).saves@.len() == old(self).saves@.len(),
            match first_match(old(self).saves@, key_is(key)) {
                Some(i) => r is Some && texts(r->Some_0@) == texts(old(self).saves@[i].tw_channels@)
                    && final(self).saves@ == old(self).saves@.update(i, KeySave { last_used: now, ..old(self).saves@[i] }),
                None => r is None && final(self).saves@ == old(self).saves@,
            },
    {
        match self.position(key) {
            Some(i) => {
                let mut s = self.saves.remove(i);
                s.last_used = now;
                let r = copy_texts(&s.tw_channels);
                let ghost sv = s;
                self.saves.insert(i, s);
                proof {
                    assert(self.saves@ =~= old(self).saves@.update(i as int, sv));
                    lemma_same_key_update(old(self).saves@, i as int, sv);
                }
                Some(r)
            },
            None => None,
        }
    }

    /// Replaces the platform-A channels saved under `key` by the non-empty
    /// entries of `channels`, without repeats; `Err` when the key is unknown.
    pub fn set_yt_channels(&mut self, key: u128, channels: &Vec<String>, now: i64) -> (r: Result<(), ()>)
        requires
            old(self).wf(),
        ensures
            final(self).wf(),
            final(self).saves@.len() == old(self).saves@.len(),
            match first_match(old(self).saves@, key_is(key)) {
                Some(i) => r is Ok && texts(final(self).saves@[i].yt_channels@) == channel_set(texts(channels@))
                    && final(self).saves@[i].last_used == now
                    && final(self).saves@[i].key == key
                    && final(self).saves@[i].tw_channels == old(self).saves@[i].tw_channels
                    && forall|j: int| 0 <= j < old(self).saves@.len() && j != i ==> #[trigger] final(self).saves@[j] == old(self).saves@[j],
                None => r is Err && final(self).saves@ == old(self).saves@,
            },
    {
        match self.position(key) {
            Some(i) => {
                let mut s = self.saves.remove(i);
                s.last_used = now;
                s.yt_channels = channel_list(channels);
                let ghost sv = s;
                self.saves.insert(i, s);
                proof {
                    assert(self.saves@ =~= old(self).saves@.update(i as int, sv));
                    lemma_same_key_update(old(self).saves@, i as int, sv);
                }
                Ok(())
            },
            None => Err(()),
        }
    }

    /// Replaces the platform-B channels saved under `key` by the non-empty
    /// entries of `channels`, without repeats; `Err` when the key is unknown.
    pub fn set_tw_channels(&mut self, key: u128, channels: &Vec<String>, now: i64) -> (r: Result<(), ()>)
        requires
            old(self).wf(),
        ensures
            final(self).wf(),
            final(self).saves@.len() == old(self).saves@.len(),
            match first_match(old(self).saves@, key_is(key)) {
                Some(i) => r is Ok && texts(final(self).saves@[i].tw_channels@) == channel_set(texts(channels@))
                    && final(self).saves@[i].last_used == now
                    && final(self).saves@[i].key == key
                    && final(self).saves@[i].yt_channels == old(self).saves@[i].yt_channels
                    && forall|j: int| 0 <= j < old(self).saves@.len() && j != i ==> #[trigger] final(self).saves@[j] == old(self).saves@[j],
                None => r is Err && final(self).saves@ == old(self).saves@,
            },
    {
        match self.position(key) {
            Some(i) => {
                let mut s = self.saves.remove(i);
                s.last_used = now;
                s.tw_channels = channel_list(channels);
                let ghost sv = s;
                self.saves.insert(i, s);
                proof {
                    assert(self.saves@ =~= old(self).saves@.update(i as int, sv));
                    lemma_same_key_update(old(self).saves@, i as int, sv);
                }
                Ok(())
            },
            None => Err(()),
        }
    }

    /// Drops the keys unused for longer than thirty days.
    pub fn trim(&mut self, now: i64)
        requires
            old(self).wf(),
        ensures
            final(self).wf(),
            final(self).saves@ == keep(old(self).saves@, fresh(now)),
    {
        let mut all = Vec::new();
        std::mem::swap(&mut all, &mut self.saves);
        let n = all.len();
        let ghost orig = all@;
        let mut kept: Vec<KeySave> = Vec::new();
        let mut k: usize = 0;
        assert(orig.skip(0) =~= orig);
        while all.len() > 0
            invariant
                orig == old(self).saves@,
                k <= orig.len(),
                k + all@.len() == orig.len(),
                orig.len() <= usize::MAX,
                all@ == orig.skip(k as int),
                kept@ == keep(orig.take(k as int), fresh(now)),
            decreases all.len(),
        {
            let s = all.remove(0);
            proof {
                assert(s == orig[k as int]);
                assert(all@ =~= orig.skip(k + 1));
                assert(orig.take(k + 1).drop_last() =~= orig.take(k as int));
            }
            if !((now as i128) - (s.last_used as i128) > MAX_KEEP_MILLIS as i128) {
                kept.push(s);
            }
            k = k + 1;
        }
        assert(orig.take(k as int) =~= orig);
        proof {
            assert forall|a: int, b: int| 0 <= a < b < orig.len() implies (save_key())(orig[a]) != (save_key())(orig[b]) by {}
            crate::registry::lemma_filter_distinct(orig, save_key(), fresh(now));
            assert forall|a: int, b: int| 0 <= a < b < kept@.len() implies kept@[a].key != kept@[b].key by {
                assert((save_key())(kept@[a]) != (save_key())(kept@[b]));
            }
        }
        self.saves = kept;
    }
}

/// A copy of a list of strings.
fn copy_texts(v: &Vec<String>) -> (r: Vec<String>)
    ensures
        texts(r@) == texts(v@),
{
    let mut out: Vec<String> = Vec::new();
    let mut i: usize = 0;
    while i < v.len()
        invariant
            i <= v.len(),
            texts(out@) == texts(v@).take(i as int),
        decreases v.len() - i,
    {
        let c = v[i].clone();
        assert(c@ == v@[i as int]@);
        let ghost before = out@;
        out.push(c);
        assert(out@ == before.push(c));
        assert(texts(out@) =~= texts(before).push(c@));
        assert(texts(v@).take(i + 1) =~= texts(v@).take(i as int).push(v@[i as int]@));
        i = i + 1;
    }
    assert(texts(v@).take(i as int) =~= texts(v@));
    out
}

/// The non-empty entries of `channels`, without repeats, in order.
pub fn channel_list(channels: &Vec<String>) -> (r: Vec<String>)
    ensures
        texts(r@) == channel_set(texts(channels@)),
{
    let mut out: Vec<String> = Vec::new();
    let ghost mut src: Seq<Seq<char>> = Seq::empty();
    let mut i: usize = 0;
    assert(texts(channels@).take(0) =~= Seq::<Seq<char>>::empty());
    while i < channels.len()
        invariant
            i <= channels.len(),
            src == keep(texts(channels@).take(i as int), |t: Seq<char>| t.len() > 0),
            texts(out@) == dedup(src),
        decreases channels.len() - i,
    {
        assert(texts(channels@).take(i + 1).drop_last() =~= texts(channels@).take(i as int));
        if channels[i].as_str().unicode_len() > 0 {
            proof {
                assert(src.push(channels@[i as int]@).drop_last() =~= src);
                src = src.push(channels@[i as int]@);
            }
            push_text(&mut out, channels[i].clone());
        }
        i = i + 1;
    }
    assert(texts(channels@).take(i as int) =~= texts(channels@));
    out
}

} // verus!
