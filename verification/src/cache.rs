//! The cache of scratch chains, with eviction of what has not been used for a while.

use vstd::prelude::*;

use crate::algorithm::PingPongKey;

verus! {

/// A cached chain: its key, and the frame it was last used in.
#[derive(Clone, Copy, Debug)]
pub struct ChainStamp {
    /// What the chain is keyed by.
    pub key: PingPongKey,
    /// The frame of its last use.
    pub last_used_frame: u64,
}

/// How many frames ago `last` was, on a frame counter that wraps.
pub open spec fn age(now: u64, last: u64) -> int {
    if now >= last {
        now - last
    } else {
        now - last + 0x1_0000_0000_0000_0000
    }
}

/// The stamps as a map from key to frame.
pub open spec fn stamp_map(stamps: Seq<ChainStamp>) -> Map<PingPongKey, u64>
    decreases stamps.len(),
{
    if stamps.len() == 0 {
        Map::empty()
    } else {
        stamp_map(stamps.drop_last()).insert(stamps.last().key, stamps.last().last_used_frame)
    }
}

/// No key occurs twice.
pub open spec fn keys_distinct(stamps: Seq<ChainStamp>) -> bool {
    forall|i: int, j: int| 0 <= i < j < stamps.len() ==> stamps[i].key != stamps[j].key
}

/// The entries of `m` that were used within the last `retention` frames.
pub open spec fn fresh(m: Map<PingPongKey, u64>, now: u64, retention: u64) -> Map<PingPongKey, u64> {
    Map::new(|k: PingPongKey| m.contains_key(k) && age(now, m[k]) <= retention, |k: PingPongKey| m[k])
}

/// A key is in the map exactly if a stamp has it, and the map holds that stamp's frame.
proof fn lemma_stamp_map(stamps: Seq<ChainStamp>)
    requires
        keys_distinct(stamps),
    ensures
        forall|i: int|
            0 <= i < stamps.len() ==> stamp_map(stamps).contains_key((#[trigger] stamps[i]).key) && stamp_map(
                stamps,
            )[stamps[i].key] == stamps[i].last_used_frame,
        forall|k: PingPongKey| #[trigger]
            stamp_map(stamps).contains_key(k) ==> exists|i: int| 0 <= i < stamps.len() && stamps[i].key == k,
        stamp_map(stamps).dom().finite(),
        stamp_map(stamps).dom().len() == stamps.len(),
    decreases stamps.len(),
{
    if stamps.len() > 0 {
        let rest = stamps.drop_last();
        lemma_stamp_map(rest);
        assert(!stamp_map(rest).contains_key(stamps.last().key));
        assert forall|i: int| 0 <= i < stamps.len() implies stamp_map(stamps).contains_key(
            (#[trigger] stamps[i]).key,
        ) && stamp_map(stamps)[stamps[i].key] == stamps[i].last_used_frame by {
            if i < rest.len() {
                assert(rest[i] == stamps[i]);
            }
        }
        assert forall|k: PingPongKey| #[trigger] stamp_map(stamps).contains_key(k) implies exists|i: int|
            0 <= i < stamps.len() && stamps[i].key == k by {
            if k == stamps.last().key {
                assert(stamps[stamps.len() - 1].key == k);
            } else {
                assert(stamp_map(rest).contains_key(k));
                let i = choose|i: int| 0 <= i < rest.len() && rest[i].key == k;
                assert(stamps[i].key == k);
            }
        }
    } else {
        assert(stamp_map(stamps).dom() =~= Set::empty());
    }
}

/// Restamping one entry is a map insertion.
proof fn lemma_restamp(stamps: Seq<ChainStamp>, i: int, frame: u64)
    requires
        keys_distinct(stamps),
        0 <= i < stamps.len(),
    ensures
        stamp_map(stamps.update(i, ChainStamp { key: stamps[i].key, last_used_frame: frame })) == stamp_map(
            stamps,
        ).insert(stamps[i].key, frame),
    decreases stamps.len(),
{
    let stamp = ChainStamp { key: stamps[i].key, last_used_frame: frame };
    let updated = stamps.update(i, stamp);
    let rest = stamps.drop_last();
    if i == stamps.len() - 1 {
        assert(updated.drop_last() =~= rest);
    } else {
        lemma_restamp(rest, i, frame);
        assert(updated.drop_last() =~= rest.update(i, stamp));
        assert(updated.last() == stamps.last());
        assert(stamps.last().key != stamps[i].key);
    }
    assert(stamp_map(updated) =~= stamp_map(stamps).insert(stamps[i].key, frame));
}

/// The keys among `stamps` not used within the last `retention` frames, in order.
pub open spec fn stale_keys(stamps: Seq<ChainStamp>, now: u64, retention: u64) -> Seq<PingPongKey>
    decreases stamps.len(),
{
    if stamps.len() == 0 {
        seq![]
    } else if age(now, stamps.last().last_used_frame) > retention {
        stale_keys(stamps.drop_last(), now, retention).push(stamps.last().key)
    } else {
        stale_keys(stamps.drop_last(), now, retention)
    }
}

/// Decides which chains to drop: those last used more than `retention` frames ago.
pub fn evict_decision(stamps: &Vec<ChainStamp>, now: u64, retention: u64) -> (r: Vec<PingPongKey>)
    ensures
        r@ == stale_keys(stamps@, now, retention),
{
    let mut stale: Vec<PingPongKey> = Vec::new();
    let mut i: usize = 0;
    while i < stamps.len()
        invariant
            i <= stamps.len(),
            stale@ == stale_keys(stamps@.take(i as int), now, retention),
        decreases stamps.len() - i,
    {
        let stamp = stamps[i];
        if now.wrapping_sub(stamp.last_used_frame) > retention {
            stale.push(stamp.key);
        }
        assert(stamps@.take(i + 1).drop_last() =~= stamps@.take(i as int));
        i = i + 1;
    }
    assert(stamps@.take(i as int) =~= stamps@);
    stale
}

/// A stale key is the key of a stale stamp, and the other way round.
proof fn lemma_stale_keys(stamps: Seq<ChainStamp>, now: u64, retention: u64)
    ensures
        forall|k: PingPongKey| #[trigger]
            stale_keys(stamps, now, retention).contains(k) <==> exists|i: int|
                0 <= i < stamps.len() && stamps[i].key == k && age(now, (#[trigger] stamps[i]).last_used_frame)
                    > retention,
    decreases stamps.len(),
{
    if stamps.len() > 0 {
        let rest = stamps.drop_last();
        lemma_stale_keys(rest, now, retention);
        let all = stale_keys(stamps, now, retention);
        let some = stale_keys(rest, now, retention);
        assert forall|k: PingPongKey| #[trigger] all.contains(k) <==> exists|i: int|
            0 <= i < stamps.len() && stamps[i].key == k && age(now, (#[trigger] stamps[i]).last_used_frame)
                > retention by {
            let here = k == stamps.last().key && age(now, stamps.last().last_used_frame) > retention;
            assert(all.contains(k) <==> some.contains(k) || here) by {
                if some.contains(k) {
                    let i = some.index_of(k);
                    assert(all[i] == k);
                }
                if here {
                    assert(all[all.len() - 1] == k);
                }
                if all.contains(k) {
                    let i = all.index_of(k);
                    if i < some.len() {
                        assert(some[i] == k);
                    }
                }
            }
            if some.contains(k) {
                let i = choose|i: int|
                    0 <= i < rest.len() && rest[i].key == k && age(now, (#[trigger] rest[i]).last_used_frame)
                        > retention;
                assert(stamps[i].key == k);
            }
            if here {
                assert(stamps[stamps.len() - 1].key == k);
            }
            if exists|i: int|
                0 <= i < stamps.len() && stamps[i].key == k && age(now, (#[trigger] stamps[i]).last_used_frame)
                    > retention {
                let i = choose|i: int|
                    0 <= i < stamps.len() && stamps[i].key == k && age(
                        now,
                        (#[trigger] stamps[i]).last_used_frame,
                    ) > retention;
                if i < rest.len() {
                    assert(rest[i] == stamps[i]);
                }
            }
        }
    }
}

/// The cached chains of one algorithm.
#[derive(Debug)]
pub struct ChainCache {
    stamps: Vec<ChainStamp>,
}

impl View for ChainCache {
    type V = Map<PingPongKey, u64>;

    /// Each cached key with the frame of its last use.
    closed spec fn view(&self) -> Map<PingPongKey, u64> {
        stamp_map(self.stamps@)
    }
}

impl ChainCache {
    /// No key is cached twice.
    pub closed spec fn wf(self) -> bool {
        keys_distinct(self.stamps@)
    }

    /// An empty cache.
    pub fn new() -> (r: ChainCache)
        ensures
            r.wf(),
            r@ == Map::<PingPongKey, u64>::empty(),
    {
        ChainCache { stamps: Vec::new() }
    }

    /// How many chains are cached.
    pub fn len(&self) -> (r: usize)
        requires
            self.wf(),
        ensures
            r == self@.dom().len(),
            self@.dom().finite(),
    {
        proof {
            lemma_stamp_map(self.stamps@);
        }
        self.stamps.len()
    }

    /// Where a key stands.
    fn find(&self, key: &PingPongKey) -> (r: Option<usize>)
        requires
            self.wf(),
        ensures
            r is Some <==> self@.contains_key(*key),
            r matches Some(i) ==> i < self.stamps@.len() && self.stamps@[i as int].key == *key,
    {
        proof {
            lemma_stamp_map(self.stamps@);
        }
        let mut i: usize = 0;
        while i < self.stamps.len()
            invariant
                i <= self.stamps@.len(),
                self.wf(),
                forall|j: int| 0 <= j < i ==> self.stamps@[j].key != *key,
            decreases self.stamps@.len() - i,
        {
            if self.stamps[i].key.same(key) {
                proof {
                    lemma_stamp_map(self.stamps@);
                    assert(self@.contains_key(self.stamps@[i as int].key));
                }
                return Some(i);
            }
            i = i + 1;
        }
        None
    }

    /// Whether a chain is cached.
    pub fn contains(&self, key: &PingPongKey) -> (r: bool)
        requires
            self.wf(),
        ensures
            r == self@.contains_key(*key),
    {
        match self.find(key) {
            Some(_) => true,
            None => false,
        }
    }

    /// Marks a chain as used in `frame`, caching it if it is not.
    pub fn touch(&mut self, key: PingPongKey, frame: u64)
        requires
            old(self).wf(),
        ensures
            final(self).wf(),
            final(self)@ == old(self)@.insert(key, frame),
    {
        match self.find(&key) {
            Some(i) => {
                proof {
                    lemma_restamp(self.stamps@, i as int, frame);
                }
                self.stamps.set(i, ChainStamp { key, last_used_frame: frame });
            },
            None => {
                let ghost before = self.stamps@;
                proof {
                    lemma_stamp_map(before);
                    assert forall|j: int| 0 <= j < before.len() implies before[j].key != key by {
                        assert(self@.contains_key(before[j].key));
                    }
                }
                self.stamps.push(ChainStamp { key, last_used_frame: frame });
                assert(self.stamps@.drop_last() =~= before);
            },
        }
    }

    /// Drops every chain last used more than `retention` frames ago.
    pub fn evict(&mut self, now: u64, retention: u64)
        requires
            old(self).wf(),
        ensures
            final(self).wf(),
            final(self)@ == fresh(old(self)@, now, retention),
    {
        let stale = evict_decision(&self.stamps, now, retention);
        let ghost before = self.stamps@;
        proof {
            lemma_stale_keys(before, now, retention);
        }
        let mut kept: Vec<ChainStamp> = Vec::new();
        let mut i: usize = 0;
        proof {
            assert(stamp_map(before.take(0)) =~= Map::empty());
            assert(stamp_map(kept@) =~= fresh(stamp_map(before.take(0)), now, retention));
        }
        while i < self.stamps.len()
            invariant
                i <= before.len(),
                self.stamps@ == before,
                keys_distinct(before),
                stale@ == stale_keys(before, now, retention),
                forall|k: PingPongKey| #[trigger]
                    stale@.contains(k) <==> exists|j: int|
                        0 <= j < before.len() && before[j].key == k && age(
                            now,
                            (#[trigger] before[j]).last_used_frame,
                        ) > retention,
                keys_distinct(kept@),
                forall|j: int| 0 <= j < kept@.len() ==> exists|m: int| 0 <= m < i && before[m] == #[trigger] kept@[j],
                stamp_map(kept@) == fresh(stamp_map(before.take(i as int)), now, retention),
            decreases before.len() - i,
        {
            let stamp = self.stamps[i];
            let mut dropped: bool = false;
            let mut j: usize = 0;
            while j < stale.len()
                invariant
                    j <= stale.len(),
                    dropped <==> exists|m: int| 0 <= m < j && stale@[m] == stamp.key,
                decreases stale.len() - j,
            {
                if stale[j].same(&stamp.key) {
                    dropped = true;
                }
                j = j + 1;
            }
            let ghost earlier = before.take(i as int);
            let ghost kept_before = kept@;
            proof {
                assert(before.take(i + 1).drop_last() =~= earlier);
                assert(before.take(i + 1).last() == stamp);
                assert(keys_distinct(earlier));
                lemma_stamp_map(earlier);
                assert(!stamp_map(earlier).contains_key(stamp.key));
                assert(dropped <==> stale@.contains(stamp.key));
                assert(dropped <==> age(now, stamp.last_used_frame) > retention) by {
                    assert(before[i as int] == stamp);
                    if dropped {
                        let m = choose|m: int|
                            0 <= m < before.len() && before[m].key == stamp.key && age(
                                now,
                                (#[trigger] before[m]).last_used_frame,
                            ) > retention;
                        assert(m == i);
                    }
                }
            }
            if !dropped {
                proof {
                    assert forall|m: int| 0 <= m < kept@.len() implies kept@[m].key != stamp.key by {
                        let n = choose|n: int| 0 <= n < i && before[n] == kept@[m];
                        assert(before[n].key != before[i as int].key);
                    }
                }
                kept.push(stamp);
                proof {
                    assert(kept@.drop_last() =~= kept_before);
                    assert forall|m: int| 0 <= m < kept@.len() implies exists|n: int|
                        0 <= n < i + 1 && before[n] == #[trigger] kept@[m] by {
                        if m < kept_before.len() {
                            assert(kept@[m] == kept_before[m]);
                        } else {
                            assert(before[i as int] == kept@[m]);
                        }
                    }
                }
            }
            proof {
                assert(stamp_map(kept@) =~= fresh(stamp_map(before.take(i + 1)), now, retention));
            }
            i = i + 1;
        }
        assert(before.take(i as int) =~= before);
        self.stamps = kept;
    }
}

} // verus!
