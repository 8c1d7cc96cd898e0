//! Reassembly of payloads split across multiple frames.
//!
//! Frames that exceeded the path MTU arrive as fragments sharing a
//! compound id.  A group is released exactly once all its declared
//! fragments are present, concatenated in fragment order regardless of
//! arrival order; a non-split frame passes through untouched.  Groups
//! that outlive a bounded age are evicted to bound memory, fragment loss
//! being masked by the reliability layer's own retransmission.

use vstd::prelude::*;

use crate::frame::{frame_valid, Frame};
use crate::recovery::{clone_bytes, lemma_filter_subset};

verus! {

/// Most fragments one split payload may declare; a bound on the memory
/// a single compound group can claim.
pub const MAX_COMPOUND_FRAGMENTS: u32 = 512;

/// Ghost model of one partially reassembled group.
#[verifier::ext_equal]
pub ghost struct GroupModel {
    pub id: u16,
    pub size: u32,
    pub fragments: Map<u32, Seq<u8>>,
    pub first_seen: u64,
}

/// One partially reassembled split payload.
struct CompoundGroup {
    id: u16,
    size: u32,
    fragments: Vec<Option<Vec<u8>>>,
    first_seen: u64,
}

impl View for CompoundGroup {
    type V = GroupModel;

    closed spec fn view(&self) -> GroupModel {
        GroupModel {
            id: self.id,
            size: self.size,
            fragments: Map::new(
                |k: u32| k < self.size && self.fragments@[k as int] is Some,
                |k: u32| self.fragments@[k as int].unwrap()@,
            ),
            first_seen: self.first_seen,
        }
    }
}

impl DeepView for CompoundGroup {
    type V = GroupModel;

    closed spec fn deep_view(&self) -> GroupModel {
        self.view()
    }
}

/// A group holds a fragment for every index below its size.
pub open spec fn group_complete(g: GroupModel) -> bool {
    forall|k: u32| k < g.size ==> g.fragments.contains_key(k)
}

/// The reassembled payload: the fragments below `k`, concatenated in
/// fragment order.
pub open spec fn concat_frags(frags: Map<u32, Seq<u8>>, k: int) -> Seq<u8>
    decreases k,
{
    if k <= 0 {
        Seq::<u8>::empty()
    } else {
        concat_frags(frags, k - 1) + frags[(k - 1) as u32]
    }
}

/// Some group in the list carries this compound id.
pub open spec fn has_group(gs: Seq<GroupModel>, id: u16) -> bool {
    exists|i: int| 0 <= i < gs.len() && (#[trigger] gs[i]).id == id
}

/// The index of the group carrying this compound id.
pub open spec fn group_index(gs: Seq<GroupModel>, id: u16) -> int {
    choose|i: int| 0 <= i < gs.len() && (#[trigger] gs[i]).id == id
}

/// A group has aged out at `now`.
pub open spec fn group_stale(g: GroupModel, now: u64, max_age: u64) -> bool {
    now > g.first_seen && now - g.first_seen > max_age
}

/// Ghost model of the [`CompoundCollector`].
#[verifier::ext_equal]
pub ghost struct CompoundCollectorModel {
    pub groups: Seq<GroupModel>,
    pub max_age: u64,
}

/// The fragment reassembly state of one session.
pub struct CompoundCollector {
    groups: Vec<CompoundGroup>,
    max_age: u64,
}

impl View for CompoundCollector {
    type V = CompoundCollectorModel;

    closed spec fn view(&self) -> CompoundCollectorModel {
        CompoundCollectorModel { groups: self.groups.deep_view(), max_age: self.max_age }
    }
}

/// Group ids are distinct, and every group is consistent: a sane size,
/// one slot per fragment, and no group already complete.
pub open spec fn groups_wf(gs: Seq<GroupModel>) -> bool {
    &&& forall|i: int, j: int|
        0 <= i < j < gs.len() ==> (#[trigger] gs[i]).id != (#[trigger] gs[j]).id
    &&& forall|i: int|
        0 <= i < gs.len() ==> {
            &&& 2 <= (#[trigger] gs[i]).size <= MAX_COMPOUND_FRAGMENTS
            &&& forall|k: u32| gs[i].fragments.contains_key(k) ==> k < gs[i].size
            &&& !group_complete(gs[i])
        }
}


/// What inserting one frame does to the collector: the new state and
/// the payload released, if any.
pub open spec fn spec_collector_insert(
    m: CompoundCollectorModel,
    f: crate::frame::FrameModel,
    now: u64,
) -> (CompoundCollectorModel, Option<Seq<u8>>) {
    if f.compound_size <= 1 {
        (m, Some(f.payload))
    } else if f.compound_size > MAX_COMPOUND_FRAGMENTS {
        (m, None)
    } else if !has_group(m.groups, f.compound_id) {
        (
            CompoundCollectorModel {
                groups: m.groups.push(
                    GroupModel {
                        id: f.compound_id,
                        size: f.compound_size,
                        fragments: Map::<u32, Seq<u8>>::empty().insert(f.compound_index, f.payload),
                        first_seen: now,
                    },
                ),
                ..m
            },
            None,
        )
    } else {
        let gi = group_index(m.groups, f.compound_id);
        let g = m.groups[gi];
        if g.size != f.compound_size || g.fragments.contains_key(f.compound_index) {
            (m, None)
        } else {
            let g1 = GroupModel { fragments: g.fragments.insert(f.compound_index, f.payload), ..g };
            if !group_complete(g1) {
                (CompoundCollectorModel { groups: m.groups.update(gi, g1), ..m }, None)
            } else {
                (
                    CompoundCollectorModel { groups: m.groups.remove(gi), ..m },
                    Some(concat_frags(g1.fragments, g.size as int)),
                )
            }
        }
    }
}

impl CompoundCollector {
    /// The collector's groups are well formed, each with one slot per
    /// declared fragment.
    pub closed spec fn wf(self) -> bool {
        &&& groups_wf(self@.groups)
        &&& forall|i: int| 0 <= i < self.groups@.len() ==> (#[trigger] self.groups@[i]).inv()
    }

    /// An empty collector evicting groups older than `max_age`.
    pub fn new(max_age: u64) -> (r: CompoundCollector)
        ensures
            r.wf(),
            r@ == (CompoundCollectorModel { groups: Seq::<GroupModel>::empty(), max_age }),
    {
        let r = CompoundCollector { groups: Vec::new(), max_age };
        proof {
            assert(r@.groups =~= Seq::<GroupModel>::empty());
            assert(r@ =~= (CompoundCollectorModel { groups: Seq::<GroupModel>::empty(), max_age }));
        }
        r
    }


    /// Routes one frame through reassembly.
    ///
    /// A non-split frame passes through unchanged.  A fragment joins its
    /// group — created on first sight, stamped with `now` — and once
    /// every declared fragment is present the group is released as the
    /// fragments concatenated in index order, and forgotten.  A fragment
    /// whose declared count disagrees with its group, a duplicate
    /// fragment, and a fragment declaring more than
    /// [`MAX_COMPOUND_FRAGMENTS`] are dropped without a trace.
    #[verifier::rlimit(100)]
    pub fn insert(&mut self, frame: Frame, now: u64) -> (r: Option<Vec<u8>>)
        requires
            old(self).wf(),
            frame_valid(frame@),
        ensures
            final(self).wf(),
            final(self)@.max_age == old(self)@.max_age,
            frame@.compound_size <= 1 ==> r is Some && r.unwrap()@ == frame@.payload && final(self)@ == old(self)@,
            frame@.compound_size > MAX_COMPOUND_FRAGMENTS ==> r is None && final(self)@ == old(
                self,
            )@,
            frame@.compound_size > 1 && frame@.compound_size <= MAX_COMPOUND_FRAGMENTS
                && !has_group(old(self)@.groups, frame@.compound_id) ==> r is None && final(self)@.groups == old(self)@.groups.push(
                GroupModel {
                    id: frame@.compound_id,
                    size: frame@.compound_size,
                    fragments: Map::<u32, Seq<u8>>::empty().insert(
                        frame@.compound_index,
                        frame@.payload,
                    ),
                    first_seen: now,
                },
            ),
            frame@.compound_size > 1 && frame@.compound_size <= MAX_COMPOUND_FRAGMENTS
                && has_group(old(self)@.groups, frame@.compound_id) ==> {
                let gi = group_index(old(self)@.groups, frame@.compound_id);
                let g = old(self)@.groups[gi];
                &&& (g.size != frame@.compound_size ==> r is None && final(self)@ == old(self)@)
                &&& (g.size == frame@.compound_size && g.fragments.contains_key(
                    frame@.compound_index,
                ) ==> r is None && final(self)@ == old(self)@)
                &&& (g.size == frame@.compound_size && !g.fragments.contains_key(
                    frame@.compound_index,
                ) && !group_complete(
                    GroupModel {
                        fragments: g.fragments.insert(frame@.compound_index, frame@.payload),
                        ..g
                    },
                ) ==> r is None && final(self)@.groups == old(self)@.groups.update(
                    gi,
                    GroupModel {
                        fragments: g.fragments.insert(frame@.compound_index, frame@.payload),
                        ..g
                    },
                ))
                &&& (g.size == frame@.compound_size && !g.fragments.contains_key(
                    frame@.compound_index,
                ) && group_complete(
                    GroupModel {
                        fragments: g.fragments.insert(frame@.compound_index, frame@.payload),
                        ..g
                    },
                ) ==> r is Some && r.unwrap()@ == concat_frags(
                    g.fragments.insert(frame@.compound_index, frame@.payload),
                    g.size as int,
                ) && final(self)@.groups == old(self)@.groups.remove(gi))
            },
            final(self)@ == spec_collector_insert(old(self)@, frame@, now).0,
            (match r {
                Some(v) => Some(v@),
                None => None,
            }) == spec_collector_insert(old(self)@, frame@, now).1,
    {
        if frame.compound_size <= 1 {
            proof {
                assert(self@ == spec_collector_insert(old(self)@, frame@, now).0);
            }
            return Some(frame.payload);
        }
        if frame.compound_size > MAX_COMPOUND_FRAGMENTS {
            proof {
                assert(self@ == spec_collector_insert(old(self)@, frame@, now).0);
            }
            return None;
        }
        let id = frame.compound_id;
        let idx = frame.compound_index;
        // Look for the frame's group.
        let mut gi: usize = 0;
        while gi < self.groups.len() && self.groups[gi].id != id
            invariant
                gi <= self.groups@.len(),
                self == old(self),
                forall|k: int| 0 <= k < gi ==> (#[trigger] self@.groups[k]).id != id,
            decreases self.groups@.len() - gi,
        {
            gi = gi + 1;
        }
        if gi == self.groups.len() {
            // First fragment of a new group.
            proof {
                assert(!has_group(self@.groups, id));
            }
            let mut fragments: Vec<Option<Vec<u8>>> = Vec::new();
            let mut k: usize = 0;
            while k < frame.compound_size as usize
                invariant
                    k <= frame.compound_size as usize,
                    fragments@.len() == k,
                    forall|j: int| 0 <= j < k ==> (#[trigger] fragments@[j]) is None,
                decreases frame.compound_size as usize - k,
            {
                fragments.push(None);
                k = k + 1;
            }
            fragments.set(idx as usize, Some(frame.payload));
            let g = CompoundGroup { id, size: frame.compound_size, fragments, first_seen: now };
            proof {
                assert(g.inv());
                assert(g@.fragments =~= Map::<u32, Seq<u8>>::empty().insert(
                    frame@.compound_index,
                    frame@.payload,
                ));
                assert(!group_complete(g@)) by {
                    let w: u32 = if idx == 0 {
                        1
                    } else {
                        0
                    };
                    assert(!g@.fragments.contains_key(w));
                }
            }
            let ghost gs0 = self@.groups;
            let ghost gm = g@;
            self.groups.push(g);
            proof {
                assert(self@.groups =~= gs0.push(gm));
                assert(self@ =~= spec_collector_insert(old(self)@, frame@, now).0);
            }
            return None;
        }
        proof {
            assert(self@.groups[gi as int].id == id);
            assert(has_group(self@.groups, id));
            assert(group_index(self@.groups, id) == gi) by {
                let w = group_index(self@.groups, id);
                assert(self@.groups[w].id == id);
                if w != gi {
                    assert(self@.groups[w].id != self@.groups[gi as int].id);
                }
            }
        }
        let ghost gs0 = self@.groups;
        let ghost g0 = self@.groups[gi as int];
        let mut g = self.groups.remove(gi);
        if g.size != frame.compound_size {
            self.groups.insert(gi, g);
            proof {
                assert(self@.groups =~= gs0);
                assert(self@ =~= old(self)@);
                assert(self@ == spec_collector_insert(old(self)@, frame@, now).0);
            }
            return None;
        }
        let have = match &g.fragments[frame.compound_index as usize] {
            Some(_) => true,
            None => false,
        };
        proof {
            assert(have == g0.fragments.contains_key(frame@.compound_index));
        }
        if have {
            self.groups.insert(gi, g);
            proof {
                assert(self@.groups =~= gs0);
                assert(self@ =~= old(self)@);
                assert(self@ == spec_collector_insert(old(self)@, frame@, now).0);
            }
            return None;
        }
        g.fragments.set(frame.compound_index as usize, Some(frame.payload));
        let ghost g1 = GroupModel {
            fragments: g0.fragments.insert(frame@.compound_index, frame@.payload),
            ..g0
        };
        proof {
            assert(g@ =~= g1);
        }
        // Is the group complete now?
        let mut k: usize = 0;
        let mut complete = true;
        while k < g.fragments.len() && complete
            invariant
                k <= g.fragments@.len(),
                g.inv(),
                g@ == g1,
                complete <==> (forall|j: u32| (j as int) < k ==> g@.fragments.contains_key(j)),
            decreases g.fragments@.len() - k,
        {
            let filled = match &g.fragments[k] {
                Some(_) => true,
                None => false,
            };
            proof {
                assert(filled == g@.fragments.contains_key(k as u32));
            }
            if !filled {
                complete = false;
            }
            k = k + 1;
        }
        proof {
            assert(complete == group_complete(g1)) by {
                if complete {
                    assert(k == g.fragments@.len());
                    assert(forall|j: u32| j < g1.size ==> g1.fragments.contains_key(j));
                }
            }
        }
        if !complete {
            self.groups.insert(gi, g);
            proof {
                assert(self@.groups =~= gs0.update(gi as int, g1));
                assert(self@ =~= spec_collector_insert(old(self)@, frame@, now).0);
            }
            return None;
        }
        // Reassemble in fragment order.
        let mut assembled: Vec<u8> = Vec::new();
        let mut k2: usize = 0;
        proof {
            assert(assembled@ =~= concat_frags(g1.fragments, 0));
        }
        while k2 < g.fragments.len()
            invariant
                k2 <= g.fragments@.len(),
                g.inv(),
                g@ == g1,
                group_complete(g1),
                assembled@ == concat_frags(g1.fragments, k2 as int),
            decreases g.fragments@.len() - k2,
        {
            let ghost a0 = assembled@;
            match &g.fragments[k2] {
                Some(b) => {
                    let mut j: usize = 0;
                    while j < b.len()
                        invariant
                            j <= b@.len(),
                            assembled@ == a0 + b@.subrange(0, j as int),
                        decreases b@.len() - j,
                    {
                        let byte = b[j];
                        assembled.push(byte);
                        j = j + 1;
                        proof {
                            assert(assembled@ =~= a0 + b@.subrange(0, j as int));
                        }
                    }
                    proof {
                        assert(b@.subrange(0, b@.len() as int) =~= b@);
                        assert(g1.fragments[k2 as u32] == b@);
                    }
                },
                None => {
                    proof {
                        assert(g1.fragments.contains_key(k2 as u32));
                        assert(false);
                    }
                },
            }
            k2 = k2 + 1;
        }
        proof {
            assert(self@.groups =~= gs0.remove(gi as int));
            assert(g.fragments@.len() == g1.size as int);
            assert(self@ =~= spec_collector_insert(old(self)@, frame@, now).0);
            assert(assembled@ == spec_collector_insert(old(self)@, frame@, now).1.unwrap());
        }
        Some(assembled)
    }

    /// Evicts every group that has aged out at `now`.
    pub fn evict_stale(&mut self, now: u64)
        requires
            old(self).wf(),
        ensures
            final(self).wf(),
            final(self)@.max_age == old(self)@.max_age,
            final(self)@.groups == old(self)@.groups.filter(
                |g: GroupModel| !group_stale(g, now, old(self)@.max_age),
            ),
    {
        let ghost pred = |g: GroupModel| !group_stale(g, now, old(self)@.max_age);
        let mut kept: Vec<CompoundGroup> = Vec::new();
        let mut i: usize = 0;
        proof {
            assert(kept.deep_view() =~= old(self)@.groups.subrange(0, 0).filter(pred));
        }
        while i < self.groups.len()
            invariant
                i <= self.groups@.len(),
                self == old(self),
                pred == (|g: GroupModel| !group_stale(g, now, old(self)@.max_age)),
                old(self).wf(),
                kept.deep_view() == old(self)@.groups.subrange(0, i as int).filter(pred),
                forall|k: int| 0 <= k < kept@.len() ==> (#[trigger] kept@[k]).inv(),
            decreases self.groups@.len() - i,
        {
            let ghost sub = old(self)@.groups.subrange(0, i as int);
            let ghost kd = kept.deep_view();
            let stale = now > self.groups[i].first_seen && now - self.groups[i].first_seen
                > self.max_age;
            if !stale {
                let g = self.groups[i].clone_group();
                kept.push(g);
                proof {
                    assert(kept.deep_view() =~= kd.push(self@.groups[i as int]));
                }
            }
            i = i + 1;
            proof {
                crate::compound::lemma_group_filter_push(sub, old(self)@.groups[i - 1], pred);
                assert(old(self)@.groups.subrange(0, i as int) =~= sub.push(
                    old(self)@.groups[i - 1],
                ));
            }
        }
        proof {
            assert(old(self)@.groups.subrange(0, old(self)@.groups.len() as int) =~= old(
                self,
            )@.groups);
        }
        self.groups = kept;
        proof {
            lemma_groups_wf_filter(old(self)@.groups, pred);
        }
    }
}

impl CompoundGroup {
    /// One slot per declared fragment.
    closed spec fn inv(self) -> bool {
        self.fragments@.len() == self.size as int
    }

    /// A copy whose model equals this group's.
    fn clone_group(&self) -> (r: CompoundGroup)
        requires
            self.inv(),
        ensures
            r@ == self@,
            r.inv(),
    {
        let mut fragments: Vec<Option<Vec<u8>>> = Vec::new();
        let mut i: usize = 0;
        while i < self.fragments.len()
            invariant
                i <= self.fragments@.len(),
                fragments@.len() == i,
                forall|k: int|
                    0 <= k < i ==> ((#[trigger] fragments@[k]) is Some <==> self.fragments@[k]
                        is Some),
                forall|k: int|
                    0 <= k < i ==> ((#[trigger] fragments@[k]) is Some
                        ==> fragments@[k].unwrap()@ == self.fragments@[k].unwrap()@),
            decreases self.fragments@.len() - i,
        {
            match &self.fragments[i] {
                Some(b) => {
                    fragments.push(Some(clone_bytes(b)));
                },
                None => {
                    fragments.push(None);
                },
            }
            i = i + 1;
        }
        let r = CompoundGroup {
            id: self.id,
            size: self.size,
            fragments,
            first_seen: self.first_seen,
        };
        proof {
            assert(r@.fragments =~= self@.fragments);
            assert(r@ =~= self@);
        }
        r
    }
}

/// Splitting off the last element of a filtered group list.
proof fn lemma_group_filter_push(s: Seq<GroupModel>, x: GroupModel, pred: spec_fn(GroupModel) -> bool)
    ensures
        s.push(x).filter(pred) == if pred(x) {
            s.filter(pred).push(x)
        } else {
            s.filter(pred)
        },
{
    reveal(Seq::filter);
    assert(s.push(x).drop_last() =~= s);
    assert(s.push(x).last() == x);
}

/// Filtering a well-formed group list keeps it well formed.
proof fn lemma_groups_wf_filter(s: Seq<GroupModel>, pred: spec_fn(GroupModel) -> bool)
    requires
        groups_wf(s),
    ensures
        groups_wf(s.filter(pred)),
    decreases s.len(),
{
    reveal(Seq::filter);
    lemma_filter_subset(s, pred);
    assert forall|i: int|
        0 <= i < s.filter(pred).len() implies {
        &&& 2 <= (#[trigger] s.filter(pred)[i]).size <= MAX_COMPOUND_FRAGMENTS
        &&& forall|k: u32| s.filter(pred)[i].fragments.contains_key(k) ==> k < s.filter(pred)[i].size
        &&& !group_complete(s.filter(pred)[i])
    } by {
        assert(s.contains(s.filter(pred)[i]));
        let w = choose|w: int| 0 <= w < s.len() && s[w] == s.filter(pred)[i];
    }
    if s.len() > 0 {
        let d = s.drop_last();
        assert(groups_wf(d)) by {
            assert(forall|i: int| 0 <= i < d.len() ==> d[i] == s[i]);
        }
        lemma_groups_wf_filter(d, pred);
        lemma_filter_subset(d, pred);
        if pred(s.last()) {
            assert(s.filter(pred) == d.filter(pred).push(s.last()));
            assert forall|i: int, j: int|
                0 <= i < j < s.filter(pred).len() implies (#[trigger] s.filter(pred)[i]).id != (
            #[trigger] s.filter(pred)[j]).id by {
                if j < s.filter(pred).len() - 1 {
                    assert(s.filter(pred)[i] == d.filter(pred)[i]);
                    assert(s.filter(pred)[j] == d.filter(pred)[j]);
                } else {
                    assert(s.filter(pred)[j] == s.last());
                    assert(s.filter(pred)[i] == d.filter(pred)[i]);
                    assert(d.contains(d.filter(pred)[i]));
                    let w = choose|w: int| 0 <= w < d.len() && d[w] == d.filter(pred)[i];
                    assert(s[w] == d[w]);
                    assert(s[w].id != s[s.len() - 1].id);
                }
            }
        } else {
            assert(s.filter(pred) == d.filter(pred));
        }
    }
}

} // verus!
