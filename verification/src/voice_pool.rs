//! A bounded pool of voices, shared by every sound generator.

use vstd::prelude::*;

verus! {

/// What the pool needs to know of a voice: whether it has stopped sounding.
pub trait Voice {
    spec fn ended(&self) -> bool;

    fn is_ended(&self) -> (b: bool)
        ensures
            b == self.ended(),
    ;
}

/// The voices of one sound generator.  Those that sound stand in
/// `sounding`, the spare ones in `idle`; a voice only ever moves between
/// the two, so their number never changes.
pub struct VoicePool<V: Voice> {
    pub sounding: Vec<V>,
    pub idle: Vec<V>,
    pub limit: usize,
}

/// `s` without its `i`-th voice, the last one taking its place.
pub open spec fn swap_removed<V>(s: Seq<V>, i: int) -> Seq<V> {
    s.update(i, s.last()).drop_last()
}

/// What is left of `s` once every ended voice from index `i` on has been
/// taken out by a swap with the last voice.
pub open spec fn compacted<V: Voice>(s: Seq<V>, i: int) -> Seq<V>
    decreases s.len() - i,
{
    if i < 0 || i >= s.len() {
        s
    } else if s[i].ended() {
        compacted(swap_removed(s, i), i)
    } else {
        compacted(s, i + 1)
    }
}

/// The voices that `compacted` takes out of `s`, in the order in which it
/// takes them.
pub open spec fn retired<V: Voice>(s: Seq<V>, i: int) -> Seq<V>
    decreases s.len() - i,
{
    if i < 0 || i >= s.len() {
        Seq::empty()
    } else if s[i].ended() {
        seq![s[i]] + retired(swap_removed(s, i), i)
    } else {
        retired(s, i + 1)
    }
}

/// Compaction sorts the voices into those that sound and those that have
/// ended, and loses none: from index `i` on no voice that is kept has
/// ended, every voice taken out has, and both together are the voices of
/// `s`.
pub proof fn lemma_compacted<V: Voice>(s: Seq<V>, i: int)
    requires
        0 <= i <= s.len(),
    ensures
        i <= compacted(s, i).len() <= s.len(),
        compacted(s, i).len() + retired(s, i).len() == s.len(),
        forall|j: int| 0 <= j < i ==> compacted(s, i)[j] == s[j],
        forall|j: int| i <= j < compacted(s, i).len() ==> !(#[trigger] compacted(s, i)[j]).ended(),
        forall|j: int| 0 <= j < retired(s, i).len() ==> (#[trigger] retired(s, i)[j]).ended(),
        compacted(s, i).to_multiset().add(retired(s, i).to_multiset()) == s.to_multiset(),
    decreases s.len() - i,
{
    broadcast use vstd::multiset::group_multiset_axioms;

    if i >= s.len() {
        vstd::seq_lib::lemma_multiset_commutative(s, Seq::<V>::empty());
        assert(s + Seq::<V>::empty() =~= s);
    } else if s[i].ended() {
        let rest = swap_removed(s, i);
        lemma_compacted(rest, i);
        lemma_swap_removed(s, i);
        let gone = retired(rest, i);
        assert(retired(s, i) == seq![s[i]] + gone);
        assert forall|j: int| 0 <= j < retired(s, i).len() implies (#[trigger] retired(
            s,
            i,
        )[j]).ended() by {
            if j > 0 {
                assert(retired(s, i)[j] == gone[j - 1]);
            }
        }
        assert forall|j: int| 0 <= j < i implies compacted(s, i)[j] == s[j] by {
            assert(rest[j] == s[j]);
        }
        assert((seq![s[i]] + gone).to_multiset() =~= gone.to_multiset().insert(s[i])) by {
            assert(seq![s[i]] + gone =~= gone.insert(0, s[i]));
            vstd::seq_lib::to_multiset_insert(gone, 0, s[i]);
        }
        assert(compacted(s, i).to_multiset().add(retired(s, i).to_multiset()) =~= s.to_multiset());
    } else {
        lemma_compacted(s, i + 1);
    }
}

/// Taking a voice out by a swap removes that voice and no other.
pub proof fn lemma_swap_removed<V>(s: Seq<V>, i: int)
    requires
        0 <= i < s.len(),
    ensures
        swap_removed(s, i).len() == s.len() - 1,
        swap_removed(s, i).to_multiset().insert(s[i]) == s.to_multiset(),
{
    broadcast use vstd::multiset::group_multiset_axioms;

    let last = s.len() - 1;
    let t = s.update(i, s.last());
    vstd::seq_lib::to_multiset_update(s, i, s.last());
    assert(t.drop_last() =~= t.remove(last));
    vstd::seq_lib::to_multiset_remove(t, last);
    vstd::seq_lib::to_multiset_contains(s, s[i]);
    vstd::seq_lib::to_multiset_contains(s, s.last());
    assert(s.contains(s[i]) && s.contains(s[last]));
    assert(swap_removed(s, i).to_multiset().insert(s[i]) =~= s.to_multiset());
}

/// What a generator that plays one note at a time does with a new note:
/// it bends the voice that sounds to the new note rather than start
/// another.
pub fn mono_action(is_mono: bool, first_sounds: bool) -> (retarget: bool)
    ensures
        retarget == (is_mono && first_sounds),
{
    is_mono && first_sounds
}

impl<V: Voice> VoicePool<V> {
    /// The first of the sounding voices is there and has not ended.
    pub open spec fn spec_first_sounds(&self) -> bool {
        self.sounding@.len() > 0 && !self.sounding@[0].ended()
    }

    /// Whether the first of the sounding voices is there and has not ended.
    pub fn first_sounds(&self) -> (b: bool)
        ensures
            b == self.spec_first_sounds(),
    {
        self.sounding.len() > 0 && !self.sounding[0].is_ended()
    }

    /// No more voices sound than the limit allows.
    pub open spec fn wf(&self) -> bool {
        self.sounding@.len() <= self.limit
    }

    /// Number of voices of the pool, sounding or not.
    pub open spec fn capacity(&self) -> int {
        (self.sounding@.len() + self.idle@.len()) as int
    }

    /// A pool of the given voices, none of them sounding, of which at most
    /// `limit` may sound at once.
    pub fn new(voices: Vec<V>, limit: usize) -> (pool: VoicePool<V>)
        ensures
            pool.wf(),
            pool.sounding@ == Seq::<V>::empty(),
            pool.idle@ == voices@,
            pool.limit == limit,
    {
        VoicePool { sounding: Vec::new(), idle: voices, limit }
    }

    /// Number of voices that sound.
    pub fn nb_actives_notes(&self) -> (n: usize)
        ensures
            n == self.sounding@.len(),
    {
        self.sounding.len()
    }

    /// Takes a spare voice into use, if the limit allows one more and one is
    /// left.  The voice goes to the end of `sounding`; its index comes back.
    pub fn allocate(&mut self) -> (slot: Option<usize>)
        requires
            old(self).wf(),
        ensures
            final(self).wf(),
            final(self).limit == old(self).limit,
            slot.is_some() <==> old(self).sounding@.len() < old(self).limit && old(self).idle@.len()
                > 0,
            slot.is_some() ==> {
                &&& slot.unwrap() == old(self).sounding@.len()
                &&& final(self).sounding@ == old(self).sounding@.push(old(self).idle@.last())
                &&& final(self).idle@ == old(self).idle@.drop_last()
            },
            slot.is_none() ==> final(self).sounding@ == old(self).sounding@ && final(self).idle@
                == old(self).idle@,
    {
        if self.sounding.len() < self.limit {
            match self.idle.pop() {
                Some(voice) => {
                    let slot = self.sounding.len();
                    self.sounding.push(voice);
                    Some(slot)
                },
                None => None,
            }
        } else {
            None
        }
    }

    /// Puts aside every voice that has ended, each by a swap with the last
    /// sounding voice.
    pub fn compact(&mut self)
        ensures
            final(self).limit == old(self).limit,
            final(self).sounding@ == compacted(old(self).sounding@, 0),
            final(self).idle@ == old(self).idle@ + retired(old(self).sounding@, 0),
            final(self).capacity() == old(self).capacity(),
            old(self).wf() ==> final(self).wf(),
    {
        let mut i: usize = 0;
        proof {
            lemma_compacted(self.sounding@, 0);
            assert(self.idle@ + Seq::<V>::empty() =~= self.idle@);
        }
        while i < self.sounding.len()
            invariant
                self.limit == old(self).limit,
                i <= self.sounding@.len() <= old(self).sounding@.len(),
                compacted(self.sounding@, i as int) == compacted(old(self).sounding@, 0),
                self.idle@ + retired(self.sounding@, i as int) == old(self).idle@ + retired(
                    old(self).sounding@,
                    0,
                ),
            decreases self.sounding@.len() - i,
        {
            if self.sounding[i].is_ended() {
                let ghost before = self.sounding@;
                let ghost spare = self.idle@;
                let voice = self.sounding.swap_remove(i);
                self.idle.push(voice);
                proof {
                    assert(self.sounding@ == swap_removed(before, i as int));
                    assert(self.idle@ + retired(self.sounding@, i as int) =~= spare + retired(
                        before,
                        i as int,
                    ));
                }
            } else {
                i += 1;
            }
        }
        proof {
            assert(self.idle@ + Seq::<V>::empty() =~= self.idle@);
            lemma_compacted(old(self).sounding@, 0);
        }
    }
}

/// The voices that sound in a list of pools, all together.
pub open spec fn total_sounding<V: Voice>(pools: Seq<VoicePool<V>>) -> int
    decreases pools.len(),
{
    if pools.len() == 0 {
        0
    } else {
        total_sounding(pools.drop_last()) + pools.last().sounding@.len() as int
    }
}

/// The voices of a list of pools, all together.
pub open spec fn total_capacity<V: Voice>(pools: Seq<VoicePool<V>>) -> int
    decreases pools.len(),
{
    if pools.len() == 0 {
        0
    } else {
        total_capacity(pools.drop_last()) + pools.last().capacity()
    }
}

/// The limits of a list of pools, all together.
pub open spec fn total_limit<V: Voice>(pools: Seq<VoicePool<V>>) -> int
    decreases pools.len(),
{
    if pools.len() == 0 {
        0
    } else {
        total_limit(pools.drop_last()) + pools.last().limit as int
    }
}

/// Over any list of pools, no more voices sound than the pools hold, nor,
/// where each pool keeps to its limit, than the limits allow.
pub proof fn lemma_total_sounding<V: Voice>(pools: Seq<VoicePool<V>>)
    ensures
        0 <= total_sounding(pools) <= total_capacity(pools),
        (forall|i: int| 0 <= i < pools.len() ==> (#[trigger] pools[i]).wf()) ==> total_sounding(
            pools,
        ) <= total_limit(pools),
    decreases pools.len(),
{
    if pools.len() > 0 {
        let rest = pools.drop_last();
        lemma_total_sounding(rest);
        if forall|i: int| 0 <= i < pools.len() ==> (#[trigger] pools[i]).wf() {
            assert forall|i: int| 0 <= i < rest.len() implies (#[trigger] rest[i]).wf() by {
                assert(rest[i] == pools[i]);
            }
            assert(pools[pools.len() - 1].wf());
        }
    }
}

} // verus!
