//! The watcher registry: per video slot, a mapping from viewer address to a
//! progress record, with report / snapshot / prune operations.

use vstd::prelude::*;

verus! {

/// One viewer's progress: percent complete and the time of the last report.
#[derive(Clone, Copy, PartialEq, Eq, Structural, Debug)]
pub struct Watcher {
    pub percent: u8,
    pub when: i64,
}

/// Why a registry operation was refused.
#[derive(Clone, Copy, PartialEq, Eq, Structural, Debug)]
pub enum RegistryError {
    /// The slot index is outside the configured video list.
    InvalidSlot,
    /// The registry could not be reached this instant; retry later.
    Unavailable,
}

/// The watchers of a single video slot, keyed by viewer address.
/// Kept as an association list whose keys are unique by content.
pub struct VideoMetrics {
    pub watchers: Vec<(String, Watcher)>,
}

/// The whole registry: one watcher table per configured video slot.
pub struct SiteMetrics {
    pub videos: Vec<VideoMetrics>,
}

/// The keys of `s` are pairwise distinct by character content.
pub open spec fn keys_unique(s: Seq<(String, Watcher)>) -> bool {
    forall|i: int, j: int| 0 <= i < j < s.len() ==> s[i].0@ != s[j].0@
}

/// The record stored under key `ip`, if any (first match).
pub open spec fn lookup(s: Seq<(String, Watcher)>, ip: Seq<char>) -> Option<Watcher>
    decreases s.len(),
{
    if s.len() == 0 {
        None
    } else if s[0].0@ == ip {
        Some(s[0].1)
    } else {
        lookup(s.drop_first(), ip)
    }
}

impl VideoMetrics {
    /// The slot's well-formedness: at most one record per viewer address.
    pub open spec fn wf(self) -> bool {
        keys_unique(self.watchers@)
    }
}

/// `lookup(s, k)` is `None` exactly when no entry of `s` bears the key `k`.
proof fn lemma_lookup_absent(s: Seq<(String, Watcher)>, k: Seq<char>)
    ensures
        lookup(s, k) is None <==> (forall|i: int| 0 <= i < s.len() ==> (#[trigger] s[i]).0@ != k),
    decreases s.len(),
{
    if s.len() == 0 {
    } else if s[0].0@ == k {
        assert(lookup(s, k) == Some(s[0].1));
    } else {
        lemma_lookup_absent(s.drop_first(), k);
        assert(lookup(s, k) == lookup(s.drop_first(), k));
        if lookup(s, k) is None {
            assert forall|i: int| 0 <= i < s.len() implies (#[trigger] s[i]).0@ != k by {
                if i > 0 {
                    assert(s.drop_first()[i - 1] == s[i]);
                }
            }
        } else {
            let i0 = choose|i: int|
                0 <= i < s.drop_first().len() && (#[trigger] s.drop_first()[i]).0@ == k;
            assert(s[i0 + 1].0@ == k);
        }
    }
}

/// Replacing the entry at `i` by one with the same key rewrites that key's
/// record and leaves every other key's record alone.
proof fn lemma_lookup_update(s: Seq<(String, Watcher)>, i: int, e: (String, Watcher))
    requires
        keys_unique(s),
        0 <= i < s.len(),
        e.0@ == s[i].0@,
    ensures
        keys_unique(s.update(i, e)),
        forall|k: Seq<char>|
            #![trigger lookup(s.update(i, e), k)]
            lookup(s.update(i, e), k) == (if k == e.0@ {
                Some(e.1)
            } else {
                lookup(s, k)
            }),
    decreases s.len(),
{
    let t = s.update(i, e);
    assert(forall|q: int| 0 <= q < s.len() ==> (#[trigger] t[q]).0@ == s[q].0@);
    assert(keys_unique(t));
    if i == 0 {
        assert(t[0] == e);
        assert(t.drop_first() =~= s.drop_first());
        assert forall|k: Seq<char>|
            lookup(t, k) == (if k == e.0@ {
                Some(e.1)
            } else {
                lookup(s, k)
            }) by {
            if k != e.0@ {
                assert(lookup(t, k) == lookup(t.drop_first(), k));
                assert(lookup(s, k) == lookup(s.drop_first(), k));
            }
        }
    } else {
        assert(t[0] == s[0]);
        assert(t.drop_first() =~= s.drop_first().update(i - 1, e));
        assert(forall|a: int, b: int|
            0 <= a < b < s.drop_first().len() ==> (#[trigger] s.drop_first()[a]).0@ != (
            #[trigger] s.drop_first()[b]).0@);
        assert(s.drop_first()[i - 1] == s[i]);
        lemma_lookup_update(s.drop_first(), i - 1, e);
        assert forall|k: Seq<char>|
            lookup(t, k) == (if k == e.0@ {
                Some(e.1)
            } else {
                lookup(s, k)
            }) by {
            if k == s[0].0@ {
                assert(k != e.0@);
            } else {
                assert(lookup(t, k) == lookup(t.drop_first(), k));
                assert(lookup(s, k) == lookup(s.drop_first(), k));
            }
        }
    }
}

/// Appending an entry under a key not yet present adds exactly that record
/// and leaves every other key's record alone.
proof fn lemma_lookup_push(s: Seq<(String, Watcher)>, e: (String, Watcher))
    requires
        keys_unique(s),
        forall|i: int| 0 <= i < s.len() ==> s[i].0@ != e.0@,
    ensures
        keys_unique(s.push(e)),
        forall|k: Seq<char>|
            #![trigger lookup(s.push(e), k)]
            lookup(s.push(e), k) == (if k == e.0@ {
                Some(e.1)
            } else {
                lookup(s, k)
            }),
    decreases s.len(),
{
    let t = s.push(e);
    assert(keys_unique(t));
    if s.len() == 0 {
        assert(t[0] == e);
        assert(t.drop_first() =~= Seq::<(String, Watcher)>::empty());
        assert forall|k: Seq<char>|
            lookup(t, k) == (if k == e.0@ {
                Some(e.1)
            } else {
                lookup(s, k)
            }) by {
            if k != e.0@ {
                assert(lookup(t.drop_first(), k) is None);
            }
        }
    } else {
        assert(t[0] == s[0]);
        assert(t.drop_first() =~= s.drop_first().push(e));
        assert(forall|a: int, b: int|
            0 <= a < b < s.drop_first().len() ==> (#[trigger] s.drop_first()[a]).0@ != (
            #[trigger] s.drop_first()[b]).0@);
        assert(forall|i: int|
            0 <= i < s.drop_first().len() ==> (#[trigger] s.drop_first()[i]).0@ != e.0@);
        lemma_lookup_push(s.drop_first(), e);
        assert forall|k: Seq<char>|
            lookup(t, k) == (if k == e.0@ {
                Some(e.1)
            } else {
                lookup(s, k)
            }) by {
            assert(s[0].0@ != e.0@);
            if k == s[0].0@ {
                assert(lookup(t, k) == Some(s[0].1));
                assert(lookup(s, k) == Some(s[0].1));
            } else {
                assert(lookup(t, k) == lookup(t.drop_first(), k));
                assert(lookup(s, k) == lookup(s.drop_first(), k));
            }
        }
    }
}

/// A record stamped `w.when` is still fresh at time `now` under threshold
/// `stale_after`: its age does not exceed the threshold.
pub open spec fn fresh_at(w: Watcher, now: i64, stale_after: i64) -> bool {
    now - w.when <= stale_after
}

/// What remains of one slot's table after a prune pass at time `now`:
/// exactly the fresh entries, in their original order.
pub open spec fn prune_model(
    s: Seq<(String, Watcher)>,
    now: i64,
    stale_after: i64,
) -> Seq<(String, Watcher)>
    decreases s.len(),
{
    if s.len() == 0 {
        Seq::empty()
    } else if fresh_at(s[0].1, now, stale_after) {
        seq![s[0]] + prune_model(s.drop_first(), now, stale_after)
    } else {
        prune_model(s.drop_first(), now, stale_after)
    }
}

/// Appending an entry commutes with pruning: the entry survives at the end
/// exactly when it is fresh.
proof fn lemma_prune_push(s: Seq<(String, Watcher)>, e: (String, Watcher), now: i64, stale_after: i64)
    ensures
        prune_model(s.push(e), now, stale_after) == prune_model(s, now, stale_after) + (if fresh_at(
            e.1,
            now,
            stale_after,
        ) {
            seq![e]
        } else {
            Seq::<(String, Watcher)>::empty()
        }),
    decreases s.len(),
{
    let t = s.push(e);
    let tail = if fresh_at(e.1, now, stale_after) {
        seq![e]
    } else {
        Seq::<(String, Watcher)>::empty()
    };
    if s.len() == 0 {
        assert(t[0] == e);
        assert(t.drop_first() =~= Seq::<(String, Watcher)>::empty());
        assert(prune_model(t.drop_first(), now, stale_after) == Seq::<(String, Watcher)>::empty());
        assert(prune_model(t, now, stale_after) =~= prune_model(s, now, stale_after) + tail);
    } else {
        assert(t[0] == s[0]);
        assert(t.drop_first() =~= s.drop_first().push(e));
        lemma_prune_push(s.drop_first(), e, now, stale_after);
        if fresh_at(s[0].1, now, stale_after) {
            assert(prune_model(t, now, stale_after) == seq![s[0]] + (prune_model(
                s.drop_first(),
                now,
                stale_after,
            ) + tail));
            assert(seq![s[0]] + (prune_model(s.drop_first(), now, stale_after) + tail) =~= (
            seq![s[0]] + prune_model(s.drop_first(), now, stale_after)) + tail);
        }
    }
}

/// Pruning keeps keys duplicate-free and keeps exactly the fresh records:
/// after the pass, `k` maps to `w` exactly when it did before and `w` was
/// still fresh at `now`.
pub proof fn lemma_prune_removes_exactly_stale(s: Seq<(String, Watcher)>, now: i64, stale_after: i64)
    requires
        keys_unique(s),
    ensures
        keys_unique(prune_model(s, now, stale_after)),
        forall|k: Seq<char>|
            #![trigger lookup(prune_model(s, now, stale_after), k)]
            lookup(prune_model(s, now, stale_after), k) == (match lookup(s, k) {
                Some(w) => if fresh_at(w, now, stale_after) {
                    Some(w)
                } else {
                    None::<Watcher>
                },
                None => None::<Watcher>,
            }),
    decreases s.len(),
{
    let p = prune_model(s, now, stale_after);
    if s.len() == 0 {
    } else {
        let rest = s.drop_first();
        assert(forall|a: int, b: int|
            0 <= a < b < rest.len() ==> (#[trigger] rest[a]).0@ != (#[trigger] rest[b]).0@);
        lemma_prune_removes_exactly_stale(rest, now, stale_after);
        let pr = prune_model(rest, now, stale_after);
        // the head's key is absent from the pruned tail
        assert(forall|i: int| 0 <= i < rest.len() ==> (#[trigger] rest[i]).0@ != s[0].0@);
        lemma_lookup_absent(rest, s[0].0@);
        assert(lookup(pr, s[0].0@) is None);
        lemma_lookup_absent(pr, s[0].0@);
        if fresh_at(s[0].1, now, stale_after) {
            assert(p == seq![s[0]] + pr);
            assert(p[0] == s[0]);
            assert(p.drop_first() =~= pr);
            assert forall|q: int| 0 <= q < p.len() implies (#[trigger] p[q]).0@ != s[0].0@ || q
                == 0 by {
                if q > 0 {
                    assert(p[q] == pr[q - 1]);
                }
            }
            assert(keys_unique(p)) by {
                assert forall|a: int, b: int| 0 <= a < b < p.len() implies (#[trigger] p[a]).0@ != (
                #[trigger] p[b]).0@ by {
                    if a == 0 {
                        assert(p[b] == pr[b - 1]);
                    } else {
                        assert(p[a] == pr[a - 1]);
                        assert(p[b] == pr[b - 1]);
                    }
                }
            }
            assert forall|k: Seq<char>|
                lookup(p, k) == (match lookup(s, k) {
                    Some(w) => if fresh_at(w, now, stale_after) {
                        Some(w)
                    } else {
                        None::<Watcher>
                    },
                    None => None::<Watcher>,
                }) by {
                if k == s[0].0@ {
                    assert(lookup(p, k) == Some(s[0].1));
                    assert(lookup(s, k) == Some(s[0].1));
                } else {
                    assert(lookup(p, k) == lookup(p.drop_first(), k));
                    assert(lookup(s, k) == lookup(rest, k));
                }
            }
        } else {
            assert(p == pr);
            assert forall|k: Seq<char>|
                lookup(p, k) == (match lookup(s, k) {
                    Some(w) => if fresh_at(w, now, stale_after) {
                        Some(w)
                    } else {
                        None::<Watcher>
                    },
                    None => None::<Watcher>,
                }) by {
                if k == s[0].0@ {
                    assert(lookup(s, k) == Some(s[0].1));
                    assert(lookup(p, k) is None);
                } else {
                    assert(lookup(s, k) == lookup(rest, k));
                }
            }
        }
    }
}

/// Every record that survives a prune pass is fresh at that pass's `now`.
proof fn lemma_prune_all_fresh(s: Seq<(String, Watcher)>, now: i64, stale_after: i64)
    ensures
        forall|i: int|
            0 <= i < prune_model(s, now, stale_after).len() ==> fresh_at(
                (#[trigger] prune_model(s, now, stale_after)[i]).1,
                now,
                stale_after,
            ),
    decreases s.len(),
{
    let p = prune_model(s, now, stale_after);
    if s.len() == 0 {
    } else {
        lemma_prune_all_fresh(s.drop_first(), now, stale_after);
        let pr = prune_model(s.drop_first(), now, stale_after);
        if fresh_at(s[0].1, now, stale_after) {
            assert forall|i: int| 0 <= i < p.len() implies fresh_at(
                (#[trigger] p[i]).1,
                now,
                stale_after,
            ) by {
                if i > 0 {
                    assert(p[i] == pr[i - 1]);
                }
            }
        }
    }
}

/// Pruning a table whose records are all fresh changes nothing.
proof fn lemma_prune_of_fresh(s: Seq<(String, Watcher)>, now: i64, stale_after: i64)
    requires
        forall|i: int| 0 <= i < s.len() ==> fresh_at((#[trigger] s[i]).1, now, stale_after),
    ensures
        prune_model(s, now, stale_after) == s,
    decreases s.len(),
{
    if s.len() == 0 {
        assert(prune_model(s, now, stale_after) =~= s);
    } else {
        assert(forall|i: int|
            0 <= i < s.drop_first().len() ==> fresh_at(
                (#[trigger] s.drop_first()[i]).1,
                now,
                stale_after,
            ));
        lemma_prune_of_fresh(s.drop_first(), now, stale_after);
        assert(prune_model(s, now, stale_after) =~= s);
    }
}

/// One registry step of `report`: slot `slot` now maps `ip` to `w`, every
/// other key and every other slot keep their prior records.
pub open spec fn report_applied(
    pre: SiteMetrics,
    post: SiteMetrics,
    slot: int,
    ip: Seq<char>,
    w: Watcher,
) -> bool {
    &&& 0 <= slot < pre.videos@.len()
    &&& post.videos@.len() == pre.videos@.len()
    &&& forall|j: int|
        0 <= j < pre.videos@.len() && j != slot ==> (#[trigger] post.videos@[j]).watchers@
            == pre.videos@[j].watchers@
    &&& forall|k: Seq<char>|
        #![trigger lookup(post.videos@[slot].watchers@, k)]
        lookup(post.videos@[slot].watchers@, k) == (if k == ip {
            Some(w)
        } else {
            lookup(pre.videos@[slot].watchers@, k)
        })
}

/// One registry step of `pruneStale`: every slot keeps exactly its fresh
/// records, in order.
pub open spec fn prune_applied(
    pre: SiteMetrics,
    post: SiteMetrics,
    now: i64,
    stale_after: i64,
) -> bool {
    &&& post.videos@.len() == pre.videos@.len()
    &&& forall|i: int|
        0 <= i < pre.videos@.len() ==> (#[trigger] post.videos@[i]).watchers@ == prune_model(
            pre.videos@[i].watchers@,
            now,
            stale_after,
        )
}

impl SiteMetrics {
    /// Registry well-formedness: every slot's key set is duplicate-free.
    pub open spec fn wf(self) -> bool {
        forall|i: int| 0 <= i < self.videos@.len() ==> (#[trigger] self.videos@[i]).wf()
    }

    /// A fresh registry with `video_count` empty slots.
    pub fn new(video_count: usize) -> (out: SiteMetrics)
        ensures
            out.wf(),
            out.videos@.len() == video_count,
            forall|i: int| 0 <= i < video_count ==> (#[trigger] out.videos@[i]).watchers@.len() == 0,
    {
        let mut out = SiteMetrics { videos: Vec::new() };
        for _index in 0..video_count
            invariant
                out.videos@.len() == _index,
                forall|i: int| 0 <= i < _index ==> (#[trigger] out.videos@[i]).watchers@.len() == 0,
        {
            out.videos.push(VideoMetrics { watchers: Vec::new() });
        }
        assert(out.wf());
        out
    }

    /// Insert or refresh the record for `ip` in slot `video_index`, stamping
    /// it with the caller-supplied time `now`.  An out-of-range slot is
    /// rejected and leaves the registry untouched.
    pub fn report_at(
        &mut self,
        ip: String,
        video_index: usize,
        percent: u8,
        now: i64,
    ) -> (r: Result<(), RegistryError>)
        requires
            old(self).wf(),
        ensures
            final(self).wf(),
            video_index >= old(self).videos@.len() ==> r == Err::<(), RegistryError>(
                RegistryError::InvalidSlot,
            ) && *final(self) == *old(self),
            video_index < old(self).videos@.len() ==> r == Ok::<(), RegistryError>(())
                && report_applied(
                *old(self),
                *final(self),
                video_index as int,
                ip@,
                Watcher { percent, when: now },
            ),
    {
        if video_index >= self.videos.len() {
            return Err(RegistryError::InvalidSlot);
        }
        let w = Watcher { percent, when: now };
        let ghost s: Seq<(String, Watcher)> = self.videos@[video_index as int].watchers@;
        let n = self.videos[video_index].watchers.len();
        let mut kept: Vec<(String, Watcher)> = Vec::new();
        let mut found = false;
        let mut j: usize = 0;
        while j < n
            invariant
                video_index < self.videos@.len(),
                s == self.videos@[video_index as int].watchers@,
                n == s.len(),
                j <= n,
                kept@.len() == j,
                forall|q: int|
                    0 <= q < j ==> #[trigger] kept@[q] == (if s[q].0@ == ip@ {
                        (s[q].0, w)
                    } else {
                        s[q]
                    }),
                found <==> exists|q: int| 0 <= q < j && (#[trigger] s[q]).0@ == ip@,
            decreases n - j,
        {
            let e = &self.videos[video_index].watchers[j];
            if e.0 == ip {
                kept.push((e.0.clone(), w));
                found = true;
            } else {
                kept.push((e.0.clone(), e.1));
            }
            j += 1;
        }
        if !found {
            kept.push((ip, w));
            proof {
                assert(kept@.drop_last() =~= s);
                lemma_lookup_push(s, kept@.last());
                assert(kept@ =~= s.push(kept@.last()));
            }
        } else {
            proof {
                let qm = choose|q: int| 0 <= q < s.len() && (#[trigger] s[q]).0@ == ip@;
                assert(kept@ =~= s.update(qm, (s[qm].0, w)));
                lemma_lookup_update(s, qm, (s[qm].0, w));
            }
        }
        self.videos[video_index] = VideoMetrics { watchers: kept };
        assert(self.wf());
        Ok(())
    }

    /// Insert or refresh the record for `ip` in slot `video_index`, stamped
    /// with the current wall-clock time.
    pub fn report(&mut self, ip: String, video_index: usize, percent: u8) -> (r: Result<
        (),
        RegistryError,
    >)
        requires
            old(self).wf(),
        ensures
            final(self).wf(),
            video_index >= old(self).videos@.len() ==> r == Err::<(), RegistryError>(
                RegistryError::InvalidSlot,
            ) && *final(self) == *old(self),
            video_index < old(self).videos@.len() ==> r == Ok::<(), RegistryError>(()) && exists|
                t: i64,
            |
                report_applied(
                    *old(self),
                    *final(self),
                    video_index as int,
                    ip@,
                    Watcher { percent, when: t },
                ),
    {
        if video_index >= self.videos.len() {
            return Err(RegistryError::InvalidSlot);
        }
        let ghost ip_view = ip@;
        let now = now_seconds();
        let r = self.report_at(ip, video_index, percent, now);
        proof {
            if video_index < old(self).videos@.len() {
                assert(report_applied(
                    *old(self),
                    *self,
                    video_index as int,
                    ip_view,
                    Watcher { percent, when: now },
                ));
            }
        }
        r
    }

    /// Remove every record whose age at `now` exceeds `stale_after` seconds;
    /// every other record, and the slot order, are left untouched.
    pub fn prune_stale(&mut self, now: i64, stale_after: i64)
        requires
            old(self).wf(),
        ensures
            final(self).wf(),
            prune_applied(*old(self), *final(self), now, stale_after),
    {
        let n = self.videos.len();
        let mut new_videos: Vec<VideoMetrics> = Vec::new();
        let mut i: usize = 0;
        while i < n
            invariant
                self == old(self),
                self.wf(),
                n == self.videos@.len(),
                i <= n,
                new_videos@.len() == i,
                forall|q: int|
                    0 <= q < i ==> (#[trigger] new_videos@[q]).watchers@ == prune_model(
                        self.videos@[q].watchers@,
                        now,
                        stale_after,
                    ),
            decreases n - i,
        {
            let ghost s: Seq<(String, Watcher)> = self.videos@[i as int].watchers@;
            let m = self.videos[i].watchers.len();
            let mut kept: Vec<(String, Watcher)> = Vec::new();
            let mut j: usize = 0;
            while j < m
                invariant
                    i < self.videos@.len(),
                    s == self.videos@[i as int].watchers@,
                    m == s.len(),
                    j <= m,
                    kept@ == prune_model(s.take(j as int), now, stale_after),
                decreases m - j,
            {
                let e = &self.videos[i].watchers[j];
                proof {
                    assert(s.take(j + 1).drop_last() =~= s.take(j as int));
                    assert(s.take(j + 1) =~= s.take(j as int).push(s[j as int]));
                    lemma_prune_push(s.take(j as int), s[j as int], now, stale_after);
                }
                if (now as i128) - (e.1.when as i128) <= (stale_after as i128) {
                    kept.push((e.0.clone(), e.1));
                    proof {
                        assert(kept@ =~= prune_model(s.take(j as int), now, stale_after) + seq![
                            s[j as int],
                        ]);
                    }
                } else {
                    proof {
                        assert(kept@ =~= prune_model(s.take(j as int), now, stale_after)
                            + Seq::<(String, Watcher)>::empty());
                    }
                }
                j += 1;
            }
            proof {
                assert(s.take(m as int) =~= s);
            }
            new_videos.push(VideoMetrics { watchers: kept });
            i += 1;
        }
        proof {
            assert forall|q: int| 0 <= q < n implies keys_unique(
                (#[trigger] new_videos@[q]).watchers@,
            ) by {
                lemma_prune_removes_exactly_stale(
                    old(self).videos@[q].watchers@,
                    now,
                    stale_after,
                );
            }
        }
        self.videos = new_videos;
    }

    /// A point-in-time copy of the whole registry, slot for slot and record
    /// for record, in slot order.
    pub fn snapshot(&self) -> (out: SiteMetrics)
        ensures
            out.videos@.len() == self.videos@.len(),
            forall|i: int|
                0 <= i < self.videos@.len() ==> (#[trigger] out.videos@[i]).watchers@
                    == self.videos@[i].watchers@,
            self.wf() ==> out.wf(),
    {
        let n = self.videos.len();
        let mut new_videos: Vec<VideoMetrics> = Vec::new();
        let mut i: usize = 0;
        while i < n
            invariant
                n == self.videos@.len(),
                i <= n,
                new_videos@.len() == i,
                forall|q: int|
                    0 <= q < i ==> (#[trigger] new_videos@[q]).watchers@
                        == self.videos@[q].watchers@,
            decreases n - i,
        {
            let ghost s: Seq<(String, Watcher)> = self.videos@[i as int].watchers@;
            let m = self.videos[i].watchers.len();
            let mut copied: Vec<(String, Watcher)> = Vec::new();
            let mut j: usize = 0;
            while j < m
                invariant
                    i < self.videos@.len(),
                    s == self.videos@[i as int].watchers@,
                    m == s.len(),
                    j <= m,
                    copied@ == s.take(j as int),
                decreases m - j,
            {
                let e = &self.videos[i].watchers[j];
                copied.push((e.0.clone(), e.1));
                proof {
                    assert(copied@ =~= s.take(j + 1));
                }
                j += 1;
            }
            proof {
                assert(s.take(m as int) =~= s);
            }
            new_videos.push(VideoMetrics { watchers: copied });
            i += 1;
        }
        let out = SiteMetrics { videos: new_videos };
        assert(self.wf() ==> out.wf());
        out
    }
}

/// Relies on std's `SystemTime::now` and `SystemTime::duration_since` with
/// the `UNIX_EPOCH` anchor: the machine clock's distance from the Unix epoch
/// in whole seconds, `Ok` for a clock on or after the epoch and `Err` for one
/// before it.  Both arms of `duration_since` are passed on as they come, so
/// the call returns normally whatever the clock holds; the value depends on
/// that clock, so nothing is promised of it.
#[verifier::external_body]
fn clock_since_epoch() -> Result<u64, u64> {
    match std::time::SystemTime::now().duration_since(std::time::UNIX_EPOCH) {
        Ok(d) => Ok(d.as_secs()),
        Err(e) => Err(e.duration().as_secs()),
    }
}

/// The machine clock as signed Unix seconds: nonnegative on or after the
/// epoch, negative before it, saturating at the `i64` range.  Callers state
/// what holds whatever time comes back.
pub(crate) fn now_seconds() -> i64 {
    match clock_since_epoch() {
        Ok(s) => {
            if s > i64::MAX as u64 {
                i64::MAX
            } else {
                s as i64
            }
        },
        Err(s) => {
            if s > i64::MAX as u64 {
                i64::MIN
            } else {
                -(s as i64)
            }
        },
    }
}

/// Law: repeated reports for the same slot and identity converge to the last
/// write; every other identity and every other slot keeps the records it had
/// before either report.
pub proof fn lemma_report_last_writer_wins(
    m0: SiteMetrics,
    m1: SiteMetrics,
    m2: SiteMetrics,
    slot: int,
    ip: Seq<char>,
    w1: Watcher,
    w2: Watcher,
)
    requires
        report_applied(m0, m1, slot, ip, w1),
        report_applied(m1, m2, slot, ip, w2),
    ensures
        lookup(m2.videos@[slot].watchers@, ip) == Some(w2),
        forall|k: Seq<char>|
            k != ip ==> #[trigger] lookup(m2.videos@[slot].watchers@, k) == lookup(
                m0.videos@[slot].watchers@,
                k,
            ),
        forall|j: int|
            0 <= j < m0.videos@.len() && j != slot ==> (#[trigger] m2.videos@[j]).watchers@
                == m0.videos@[j].watchers@,
{
}

/// Law: a record refreshed before a prune pass, and still fresh at that
/// pass's `now`, survives the pass with the refreshed contents.
pub proof fn lemma_refreshed_record_survives_prune(
    m0: SiteMetrics,
    m1: SiteMetrics,
    m2: SiteMetrics,
    slot: int,
    ip: Seq<char>,
    w: Watcher,
    now: i64,
    stale_after: i64,
)
    requires
        m1.wf(),
        report_applied(m0, m1, slot, ip, w),
        prune_applied(m1, m2, now, stale_after),
        now - w.when <= stale_after,
    ensures
        lookup(m2.videos@[slot].watchers@, ip) == Some(w),
{
    lemma_prune_removes_exactly_stale(m1.videos@[slot].watchers@, now, stale_after);
}

/// Law: a second prune pass whose staleness cutoff is no later than the
/// first one's removes nothing more; with equal arguments it is a no-op.
pub proof fn lemma_prune_twice_noop(
    m0: SiteMetrics,
    m1: SiteMetrics,
    m2: SiteMetrics,
    now1: i64,
    stale_after1: i64,
    now2: i64,
    stale_after2: i64,
)
    requires
        prune_applied(m0, m1, now1, stale_after1),
        prune_applied(m1, m2, now2, stale_after2),
        now2 - stale_after2 <= now1 - stale_after1,
    ensures
        m2.videos@.len() == m1.videos@.len(),
        forall|i: int|
            0 <= i < m1.videos@.len() ==> (#[trigger] m2.videos@[i]).watchers@
                == m1.videos@[i].watchers@,
{
    assert forall|i: int| 0 <= i < m1.videos@.len() implies (#[trigger] m2.videos@[i]).watchers@
        == m1.videos@[i].watchers@ by {
        let s1 = m1.videos@[i].watchers@;
        lemma_prune_all_fresh(m0.videos@[i].watchers@, now1, stale_after1);
        assert(forall|q: int|
            0 <= q < s1.len() ==> fresh_at((#[trigger] s1[q]).1, now2, stale_after2));
        lemma_prune_of_fresh(s1, now2, stale_after2);
    }
}

} // verus!
