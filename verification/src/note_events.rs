//! Operations on the list of notes recorded for one instrument.

use vstd::prelude::*;
use crate::midimessage::NoteEvent;
use crate::sequencer_data::END_WINDOW;

verus! {

/// Where an event with start `key` goes in `s`: behind every event that
/// starts at or before it, counted from the end of the list.
pub open spec fn insertion_point(s: Seq<NoteEvent>, key: int) -> int
    decreases s.len(),
{
    if s.len() == 0 || s.last().tick_on <= key {
        s.len() as int
    } else {
        insertion_point(s.drop_last(), key)
    }
}

/// `s` with `e` put in at its insertion point.
pub open spec fn insert_by_start(s: Seq<NoteEvent>, e: NoteEvent) -> Seq<NoteEvent> {
    s.insert(insertion_point(s, e.tick_on as int), e)
}

/// The events of `s` ordered by `tick_on`, events with the same start in
/// the order they had in `s`.
pub open spec fn sorted_by_start(s: Seq<NoteEvent>) -> Seq<NoteEvent>
    decreases s.len(),
{
    if s.len() == 0 {
        s
    } else {
        insert_by_start(sorted_by_start(s.drop_last()), s.last())
    }
}

/// No event starts before one that precedes it.
pub open spec fn is_sorted_by_start(s: Seq<NoteEvent>) -> bool {
    forall|i: int, j: int| 0 <= i <= j < s.len() ==> s[i].tick_on <= s[j].tick_on
}

/// The insertion point lies in the list, everything from it on starts
/// later, and what stands just before it does not.
pub proof fn lemma_insertion_point(s: Seq<NoteEvent>, key: int)
    ensures
        0 <= insertion_point(s, key) <= s.len(),
        forall|j: int| insertion_point(s, key) <= j < s.len() ==> s[j].tick_on > key,
        insertion_point(s, key) > 0 ==> s[insertion_point(s, key) - 1].tick_on <= key,
    decreases s.len(),
{
    if !(s.len() == 0 || s.last().tick_on <= key) {
        let rest = s.drop_last();
        lemma_insertion_point(rest, key);
        assert forall|j: int| insertion_point(s, key) <= j < s.len() implies s[j].tick_on
            > key by {
            if j < rest.len() {
                assert(rest[j] == s[j]);
            }
        }
        if insertion_point(s, key) > 0 {
            assert(rest[insertion_point(s, key) - 1] == s[insertion_point(s, key) - 1]);
        }
    }
}

/// Inserting into a sorted list keeps it sorted and adds exactly the new
/// event.
pub proof fn lemma_insert_by_start(s: Seq<NoteEvent>, e: NoteEvent)
    requires
        is_sorted_by_start(s),
    ensures
        is_sorted_by_start(insert_by_start(s, e)),
        insert_by_start(s, e).to_multiset() == s.to_multiset().insert(e),
        insert_by_start(s, e).len() == s.len() + 1,
{
    let p = insertion_point(s, e.tick_on as int);
    lemma_insertion_point(s, e.tick_on as int);
    let out = insert_by_start(s, e);
    assert forall|i: int, j: int| 0 <= i <= j < out.len() implies out[i].tick_on
        <= out[j].tick_on by {
        if p > 0 {
            assert(s[p - 1].tick_on <= e.tick_on);
        }
        let oi = if i < p { i } else { i - 1 };
        let oj = if j < p { j } else { j - 1 };
        if i != p && j != p {
            assert(out[i] == s[oi] && out[j] == s[oj]);
        } else if i == p && j != p {
            assert(out[j] == s[oj]);
        } else if j == p && i != p {
            assert(out[i] == s[oi]);
            assert(s[oi].tick_on <= s[p - 1].tick_on);
        }
    }
    vstd::seq_lib::to_multiset_insert(s, p, e);
}

/// Sorting yields a sorted list of the same events.
pub proof fn lemma_sorted_by_start(s: Seq<NoteEvent>)
    ensures
        is_sorted_by_start(sorted_by_start(s)),
        sorted_by_start(s).to_multiset() == s.to_multiset(),
        sorted_by_start(s).len() == s.len(),
    decreases s.len(),
{
    if s.len() > 0 {
        lemma_sorted_by_start(s.drop_last());
        lemma_insert_by_start(sorted_by_start(s.drop_last()), s.last());
        assert(s.drop_last().push(s.last()) =~= s);
        vstd::seq_lib::to_multiset_build(s.drop_last(), s.last());
    } else {
        assert(s.to_multiset() =~= sorted_by_start(s).to_multiset());
    }
}

/// Sorting a sorted list changes nothing.
pub proof fn lemma_sorted_is_fixed(s: Seq<NoteEvent>)
    requires
        is_sorted_by_start(s),
    ensures
        sorted_by_start(s) == s,
    decreases s.len(),
{
    if s.len() > 0 {
        let rest = s.drop_last();
        assert(is_sorted_by_start(rest));
        lemma_sorted_is_fixed(rest);
        assert(rest.len() == 0 || rest.last().tick_on <= s.last().tick_on);
        assert(insertion_point(rest, s.last().tick_on as int) == rest.len());
        assert(rest.insert(rest.len() as int, s.last()) =~= s);
    }
}

/// Orders the events by `tick_on`, keeping events with the same start in
/// the order in which they stand.
pub fn sort_by_tick_on(events: &mut Vec<NoteEvent>)
    ensures
        final(events)@ == sorted_by_start(old(events)@),
{
    let n = events.len();
    let mut i: usize = 0;
    proof {
        assert(events@.take(0) =~= Seq::empty());
    }
    while i < n
        invariant
            n == events@.len(),
            n == old(events)@.len(),
            i <= n,
            events@.take(i as int) == sorted_by_start(old(events)@.take(i as int)),
            events@.skip(i as int) == old(events)@.skip(i as int),
        decreases n - i,
    {
        let ghost before = events@;
        let ghost prefix = events@.take(i as int);
        let e = events[i];
        assert(e == old(events)@.skip(i as int)[0]);
        let mut p: usize = i;
        assert(prefix.take(i as int) =~= prefix);
        while p > 0 && events[p - 1].tick_on > e.tick_on
            invariant
                p <= i < n,
                n == events@.len(),
                events@ == before,
                prefix == before.take(i as int),
                insertion_point(prefix, e.tick_on as int) == insertion_point(
                    prefix.take(p as int),
                    e.tick_on as int,
                ),
            decreases p,
        {
            proof {
                assert(prefix.take(p as int).last() == events@[p - 1]);
                assert(prefix.take(p as int).drop_last() =~= prefix.take(p - 1));
            }
            p -= 1;
        }
        proof {
            assert(prefix.take(i as int) =~= prefix);
            if p > 0 {
                assert(prefix.take(p as int).last() == events@[p - 1]);
            }
            assert(insertion_point(prefix, e.tick_on as int) == p);
        }
        events.remove(i);
        events.insert(p, e);
        proof {
            let next = old(events)@.take(i + 1);
            assert(next.drop_last() =~= old(events)@.take(i as int));
            assert(next.last() == e);
            assert(events@.take(i + 1) =~= insert_by_start(prefix, e));
            assert forall|j: int| i < j < n implies events@[j] == old(events)@[j] by {
                assert(before.skip(i as int)[j - i] == before[j]);
                assert(old(events)@.skip(i as int)[j - i] == old(events)@[j]);
            }
            assert(events@.skip(i + 1) =~= old(events)@.skip(i + 1));
        }
        i += 1;
    }
    proof {
        assert(events@.take(n as int) =~= events@);
        assert(old(events)@.take(n as int) =~= old(events)@);
    }
}

/// The greatest `record_session` among the events of a list that is not
/// empty.
pub open spec fn highest_session(s: Seq<NoteEvent>) -> int
    decreases s.len(),
{
    if s.len() <= 1 {
        s[0].record_session as int
    } else {
        let rest = highest_session(s.drop_last());
        if s.last().record_session > rest {
            s.last().record_session as int
        } else {
            rest
        }
    }
}

/// The events that do not belong to `session`.
pub open spec fn outside_session(session: int) -> spec_fn(NoteEvent) -> bool {
    |e: NoteEvent| e.record_session != session
}

/// The list without the events of its latest session.
pub open spec fn without_last_session(s: Seq<NoteEvent>) -> Seq<NoteEvent> {
    if s.len() == 0 {
        s
    } else {
        s.filter(outside_session(highest_session(s)))
    }
}

/// The highest session is the session of some event, and no event has a
/// higher one.
pub proof fn lemma_highest_session(s: Seq<NoteEvent>)
    requires
        s.len() > 0,
    ensures
        forall|i: int| 0 <= i < s.len() ==> s[i].record_session <= highest_session(s),
        exists|i: int| 0 <= i < s.len() && s[i].record_session == highest_session(s),
    decreases s.len(),
{
    if s.len() > 1 {
        let rest = s.drop_last();
        lemma_highest_session(rest);
        assert forall|i: int| 0 <= i < s.len() implies s[i].record_session <= highest_session(
            s,
        ) by {
            if i < rest.len() {
                assert(rest[i] == s[i]);
            }
        }
        if s.last().record_session > highest_session(rest) {
            assert(s[s.len() - 1].record_session == highest_session(s));
        } else {
            let i = choose|i: int| 0 <= i < rest.len() && rest[i].record_session == highest_session(rest);
            assert(s[i].record_session == highest_session(s));
        }
    } else {
        assert(s[0].record_session == highest_session(s));
    }
}

/// What an undo leaves: no event of the latest session, and every event of
/// an earlier one.
pub proof fn lemma_without_last_session(s: Seq<NoteEvent>)
    requires
        s.len() > 0,
    ensures
        without_last_session(s).len() < s.len(),
        forall|i: int|
            0 <= i < without_last_session(s).len() ==> (#[trigger] without_last_session(
                s,
            )[i]).record_session < highest_session(s),
        forall|i: int|
            0 <= i < s.len() && s[i].record_session < highest_session(s)
                ==> without_last_session(s).contains(#[trigger] s[i]),
{
    let keep = outside_session(highest_session(s));
    let out = s.filter(keep);
    lemma_highest_session(s);
    lemma_filter_of(s, keep);
    assert forall|i: int| 0 <= i < out.len() implies (#[trigger] out[i]).record_session
        < highest_session(s) by {
        assert(keep(out[i]));
        let j = choose|j: int| 0 <= j < s.len() && s[j] == out[i];
        assert(s[j].record_session <= highest_session(s));
    }
    let k = choose|k: int| 0 <= k < s.len() && s[k].record_session == highest_session(s);
    assert(!keep(s[k]));
    lemma_filter_shorter(s, keep, k);
}

/// What is left after filtering was there before, the filter lets it
/// pass, and whatever the filter lets pass is left.
pub proof fn lemma_filter_of(s: Seq<NoteEvent>, keep: spec_fn(NoteEvent) -> bool)
    ensures
        forall|i: int|
            0 <= i < s.filter(keep).len() ==> keep(#[trigger] s.filter(keep)[i]) && s.contains(
                s.filter(keep)[i],
            ),
        forall|i: int| 0 <= i < s.len() && keep(s[i]) ==> s.filter(keep).contains(#[trigger] s[i]),
    decreases s.len(),
{
    reveal(Seq::filter);
    if s.len() > 0 {
        let rest = s.drop_last();
        let sub = rest.filter(keep);
        let out = s.filter(keep);
        lemma_filter_of(rest, keep);
        assert forall|i: int| 0 <= i < out.len() implies keep(#[trigger] out[i]) && s.contains(
            out[i],
        ) by {
            if i < sub.len() {
                assert(out[i] == sub[i]);
                let j = choose|j: int| 0 <= j < rest.len() && rest[j] == sub[i];
                assert(s[j] == out[i]);
            } else {
                assert(s[s.len() - 1] == out[i]);
            }
        }
        assert forall|i: int| 0 <= i < s.len() && keep(s[i]) implies out.contains(
            #[trigger] s[i],
        ) by {
            if i < rest.len() {
                assert(rest[i] == s[i]);
                let j = choose|j: int| 0 <= j < sub.len() && sub[j] == rest[i];
                assert(out[j] == s[i]);
            } else {
                assert(out[out.len() - 1] == s[i]);
            }
        }
    }
}

/// Filtering makes a list shorter as soon as it stops one of its events.
pub proof fn lemma_filter_shorter(s: Seq<NoteEvent>, keep: spec_fn(NoteEvent) -> bool, k: int)
    requires
        0 <= k < s.len(),
        !keep(s[k]),
    ensures
        s.filter(keep).len() < s.len(),
    decreases s.len(),
{
    reveal(Seq::filter);
    let rest = s.drop_last();
    if k < rest.len() {
        assert(rest[k] == s[k]);
        lemma_filter_shorter(rest, keep, k);
    } else {
        rest.lemma_filter_len(keep);
    }
}

/// Removes the events of the latest session: those whose `record_session`
/// is the highest in the list.  The others keep their order.
pub fn remove_last_session(events: &mut Vec<NoteEvent>)
    ensures
        final(events)@ == without_last_session(old(events)@),
{
    if events.len() == 0 {
        return ;
    }
    let n = events.len();
    let mut last_session: i32 = events[0].record_session;
    let mut j: usize = 1;
    proof {
        assert(events@.take(1).len() == 1);
    }
    while j < n
        invariant
            n == events@.len(),
            events@ == old(events)@,
            1 <= j <= n,
            last_session == highest_session(events@.take(j as int)),
        decreases n - j,
    {
        proof {
            assert(events@.take(j + 1).drop_last() =~= events@.take(j as int));
            assert(events@.take(j + 1).last() == events@[j as int]);
        }
        if events[j].record_session > last_session {
            last_session = events[j].record_session;
        }
        j += 1;
    }
    proof {
        assert(events@.take(n as int) =~= events@);
    }
    let ghost keep = outside_session(last_session as int);
    let ghost k: int = 0;
    let mut i: usize = 0;
    proof {
        reveal(Seq::filter);
        assert(events@.take(0) =~= Seq::<NoteEvent>::empty());
        assert(old(events)@.take(0) =~= Seq::<NoteEvent>::empty());
        assert(events@.skip(0) =~= old(events)@.skip(0));
    }
    while i < events.len()
        invariant
            0 <= i <= k <= n,
            n == old(events)@.len(),
            events@.len() - i == n - k,
            keep == outside_session(last_session as int),
            events@.take(i as int) == old(events)@.take(k).filter(keep),
            events@.skip(i as int) == old(events)@.skip(k),
        decreases n - k,
    {
        proof {
            reveal(Seq::filter);
            assert(events@[i as int] == events@.skip(i as int)[0]);
            assert(old(events)@[k] == old(events)@.skip(k)[0]);
            assert(old(events)@.take(k + 1).drop_last() =~= old(events)@.take(k));
            assert(old(events)@.take(k + 1).last() == old(events)@[k]);
        }
        let ghost before = events@;
        if events[i].record_session == last_session {
            events.remove(i);
            proof {
                assert(events@.take(i as int) =~= before.take(i as int));
                assert(events@.skip(i as int) =~= before.skip(i as int).skip(1));
                assert(old(events)@.skip(k + 1) =~= old(events)@.skip(k).skip(1));
            }
        } else {
            proof {
                assert(events@.take(i + 1) =~= before.take(i as int).push(before[i as int]));
                assert(events@.skip(i + 1) =~= before.skip(i as int).skip(1));
                assert(old(events)@.skip(k + 1) =~= old(events)@.skip(k).skip(1));
            }
            i += 1;
        }
        proof {
            k = k + 1;
        }
    }
    proof {
        assert(events@.take(i as int) =~= events@);
        assert(old(events)@.take(n as int) =~= old(events)@);
    }
}

/// A note that was started and not yet released.
pub open spec fn is_pending(e: NoteEvent, note_id: u8) -> bool {
    e.note_id == note_id && e.tick_off == -1
}

/// Index of the pending event for `note_id` that was recorded last: the one
/// with the greatest `stamp_record`, and among those the one that stands
/// last in the list.  -1 when no event is pending for that note.
pub open spec fn latest_pending(s: Seq<NoteEvent>, note_id: u8) -> int
    decreases s.len(),
{
    if s.len() == 0 {
        -1
    } else {
        let rest = latest_pending(s.drop_last(), note_id);
        if is_pending(s.last(), note_id) && (rest < 0 || s[rest].stamp_record
            <= s.last().stamp_record) {
            s.len() - 1
        } else {
            rest
        }
    }
}

/// What `latest_pending` picks: a pending event for the note, such that no
/// other pending event for it was recorded later, and none that stands
/// behind it was recorded at the same stamp.
pub proof fn lemma_latest_pending(s: Seq<NoteEvent>, note_id: u8)
    ensures
        -1 <= latest_pending(s, note_id) < s.len(),
        latest_pending(s, note_id) == -1 <==> forall|j: int|
            0 <= j < s.len() ==> !is_pending(s[j], note_id),
        latest_pending(s, note_id) >= 0 ==> {
            let k = latest_pending(s, note_id);
            &&& is_pending(s[k], note_id)
            &&& forall|j: int|
                0 <= j < s.len() && is_pending(s[j], note_id) ==> s[j].stamp_record
                    < s[k].stamp_record || (s[j].stamp_record == s[k].stamp_record && j <= k)
        },
    decreases s.len(),
{
    if s.len() > 0 {
        let rest = s.drop_last();
        lemma_latest_pending(rest, note_id);
        assert forall|j: int| 0 <= j < rest.len() implies rest[j] == s[j] by {}
        let k = latest_pending(s, note_id);
        if k >= 0 {
            assert forall|j: int| 0 <= j < s.len() && is_pending(s[j], note_id) implies s[j].stamp_record
                < s[k].stamp_record || (s[j].stamp_record == s[k].stamp_record && j <= k) by {
                if j < rest.len() {
                    assert(rest[j] == s[j]);
                }
            }
        } else {
            assert forall|j: int| 0 <= j < s.len() implies !is_pending(s[j], note_id) by {
                if j < rest.len() {
                    assert(rest[j] == s[j]);
                }
            }
        }
    }
}

/// The event with its end set to `tick_off`.  A note that would end where
/// it starts is made `END_WINDOW` ticks long, but ends on the loop.
pub open spec fn closed(e: NoteEvent, tick_off: i32, nb_ticks: i32) -> NoteEvent {
    NoteEvent {
        tick_off: if tick_off != e.tick_on {
            tick_off
        } else if tick_off + END_WINDOW > nb_ticks - 1 {
            (nb_ticks - 1) as i32
        } else {
            (tick_off + END_WINDOW) as i32
        },
        ..e
    }
}

/// The list with the latest pending event for `note_id` closed at
/// `tick_off`; the list itself when no such event is pending.
pub open spec fn with_note_closed(
    s: Seq<NoteEvent>,
    note_id: u8,
    tick_off: i32,
    nb_ticks: i32,
) -> Seq<NoteEvent> {
    let k = latest_pending(s, note_id);
    if k < 0 {
        s
    } else {
        s.update(k, closed(s[k], tick_off, nb_ticks))
    }
}

/// What closing a note does: the latest pending event for the key gets its
/// end, `END_WINDOW` ticks after its start if it would end where it
/// starts, on the loop at the latest; nothing else changes.
pub proof fn lemma_with_note_closed(s: Seq<NoteEvent>, note_id: u8, tick_off: i32, nb_ticks: i32)
    requires
        0 <= tick_off < nb_ticks,
        latest_pending(s, note_id) >= 0,
    ensures
        ({
            let k = latest_pending(s, note_id);
            let out = with_note_closed(s, note_id, tick_off, nb_ticks);
            &&& out.len() == s.len()
            &&& forall|i: int| 0 <= i < s.len() && i != k ==> #[trigger] out[i] == s[i]
            &&& out[k].note_id == s[k].note_id
            &&& out[k].tick_on == s[k].tick_on
            &&& out[k].record_session == s[k].record_session
            &&& out[k].stamp_record == s[k].stamp_record
            &&& s[k].tick_on != tick_off ==> out[k].tick_off == tick_off
            &&& s[k].tick_on == tick_off ==> out[k].tick_off == if tick_off + END_WINDOW
                <= nb_ticks - 1 {
                tick_off + END_WINDOW
            } else {
                nb_ticks - 1
            }
        }),
{
    lemma_latest_pending(s, note_id);
}

/// Ends the note that was started last for `note_id` and is still held.
pub fn close_note(events: &mut Vec<NoteEvent>, note_id: u8, tick_off: i32, nb_ticks: i32)
    requires
        0 <= tick_off < nb_ticks,
    ensures
        final(events)@ == with_note_closed(old(events)@, note_id, tick_off, nb_ticks),
{
    let n = events.len();
    let mut found: Option<usize> = None;
    let mut i: usize = 0;
    proof {
        assert(events@.take(0) =~= Seq::<NoteEvent>::empty());
    }
    while i < n
        invariant
            n == events@.len(),
            events@ == old(events)@,
            i <= n,
            match found {
                Some(k) => k < i && k == latest_pending(events@.take(i as int), note_id),
                None => latest_pending(events@.take(i as int), note_id) == -1,
            },
        decreases n - i,
    {
        proof {
            assert(events@.take(i + 1).drop_last() =~= events@.take(i as int));
            assert(events@.take(i + 1).last() == events@[i as int]);
            if let Some(k) = found {
                assert(events@.take(i + 1)[k as int] == events@[k as int]);
            }
        }
        let e = events[i];
        if e.note_id == note_id && e.tick_off == -1 {
            let later = match found {
                Some(k) => events[k].stamp_record <= e.stamp_record,
                None => true,
            };
            if later {
                found = Some(i);
            }
        }
        i += 1;
    }
    proof {
        assert(events@.take(n as int) =~= events@);
    }
    if let Some(k) = found {
        let e = events[k];
        let end = if tick_off != e.tick_on {
            tick_off
        } else if tick_off > nb_ticks - 1 - END_WINDOW {
            nb_ticks - 1
        } else {
            tick_off + END_WINDOW
        };
        events.set(k, NoteEvent { tick_off: end, ..e });
    }
}

/// A note starts on the loop; once finished, it ends on the loop, and not
/// where it starts.
pub open spec fn is_valid_event(e: NoteEvent, nb_ticks: int) -> bool {
    &&& 0 <= e.tick_on < nb_ticks
    &&& e.tick_off == -1 || (e.tick_off != e.tick_on && 0 <= e.tick_off < nb_ticks)
}

/// Every event of the list is pending or a valid finished note.
pub open spec fn all_valid(s: Seq<NoteEvent>, nb_ticks: int) -> bool {
    forall|i: int| 0 <= i < s.len() ==> is_valid_event(#[trigger] s[i], nb_ticks)
}

/// Sorting keeps the events valid.
pub proof fn lemma_sorted_valid(s: Seq<NoteEvent>, nb_ticks: int)
    requires
        all_valid(s, nb_ticks),
    ensures
        all_valid(sorted_by_start(s), nb_ticks),
    decreases s.len(),
{
    if s.len() > 0 {
        let rest = s.drop_last();
        assert forall|i: int| 0 <= i < rest.len() implies is_valid_event(
            #[trigger] rest[i],
            nb_ticks,
        ) by {
            assert(rest[i] == s[i]);
        }
        lemma_sorted_valid(rest, nb_ticks);
        lemma_insertion_point(sorted_by_start(rest), s.last().tick_on as int);
        assert(is_valid_event(s[s.len() - 1], nb_ticks));
    }
}

/// Removing the latest session keeps the events valid.
pub proof fn lemma_without_last_session_valid(s: Seq<NoteEvent>, nb_ticks: int)
    requires
        all_valid(s, nb_ticks),
    ensures
        all_valid(without_last_session(s), nb_ticks),
{
    if s.len() > 0 {
        lemma_filter_keeps(s, outside_session(highest_session(s)), nb_ticks);
    }
}

/// What is left of a list of valid events after filtering is valid.
pub proof fn lemma_filter_keeps(s: Seq<NoteEvent>, keep: spec_fn(NoteEvent) -> bool, nb_ticks: int)
    requires
        all_valid(s, nb_ticks),
    ensures
        all_valid(s.filter(keep), nb_ticks),
    decreases s.len(),
{
    reveal(Seq::filter);
    if s.len() > 0 {
        let rest = s.drop_last();
        assert forall|i: int| 0 <= i < rest.len() implies is_valid_event(
            #[trigger] rest[i],
            nb_ticks,
        ) by {
            assert(rest[i] == s[i]);
        }
        lemma_filter_keeps(rest, keep, nb_ticks);
        assert(is_valid_event(s[s.len() - 1], nb_ticks));
    }
}

/// Closing a note at a quantized tick keeps the events valid: the note
/// ends on the loop, and after its start.
pub proof fn lemma_closed_valid(s: Seq<NoteEvent>, note_id: u8, tick_off: i32, nb_ticks: i32)
    requires
        all_valid(s, nb_ticks as int),
        4 <= nb_ticks,
        0 <= tick_off,
        tick_off == 0 || tick_off < nb_ticks - END_WINDOW,
    ensures
        all_valid(with_note_closed(s, note_id, tick_off, nb_ticks), nb_ticks as int),
{
    lemma_latest_pending(s, note_id);
    let k = latest_pending(s, note_id);
    if k >= 0 {
        let out = with_note_closed(s, note_id, tick_off, nb_ticks);
        assert forall|i: int| 0 <= i < out.len() implies is_valid_event(
            #[trigger] out[i],
            nb_ticks as int,
        ) by {
            if i != k {
                assert(out[i] == s[i]);
            }
        }
    }
}

} // verus!
