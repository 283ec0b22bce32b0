//! What holds of every resolution from the root servers down.
use crate::cache;
use crate::cache::{CachedValueView, Nanos};
use crate::cache_util;
use crate::message;
use crate::name;
use crate::record;
use crate::record::RecordView;
use crate::resolver::iterative;
use crate::resolver::iterative::{Progress, ResolverView, Situation};
use crate::resolver::lookup;
use crate::resolver::lookup::{LookupError, LookupView, StateView};
use crate::resolver::response;
use crate::resolver::types::{OutcomeView, ResolutionStatus};
use crate::selection;
use vstd::prelude::*;

verus! {

/// The first step of a run, and the rest of it.
proof fn lemma_run_first(
    s: Situation,
    entries: Seq<Option<CachedValueView>>,
    now: Nanos,
    id: u16,
)
    requires
        entries.len() > 0,
        iterative::may_run(s, entries, now, id),
    ensures
        !s.resolver.settled(),
        iterative::may_give(s, entries[0]),
        iterative::may_run(
            iterative::stepped(s, entries[0], now, id),
            entries.drop_first(),
            now,
            id,
        ),
        iterative::ran(s, entries, now, id) == iterative::ran(
            iterative::stepped(s, entries[0], now, id),
            entries.drop_first(),
            now,
            id,
        ),
        iterative::gave_all(s, entries, now, id) ==> {
            &&& entries[0] == iterative::held(s)
            &&& iterative::gave_all(
                iterative::stepped(s, entries[0], now, id),
                entries.drop_first(),
                now,
                id,
            )
        },
    decreases entries.len(),
{
    let shorter = entries.drop_last();
    let next = iterative::stepped(s, entries[0], now, id);
    if shorter.len() == 0 {
        assert(entries.drop_first() =~= seq![]);
        assert(iterative::ran(s, shorter, now, id) == s);
    } else {
        lemma_run_first(s, shorter, now, id);
        assert(shorter[0] == entries[0]);
        assert(entries.drop_first().drop_last() =~= shorter.drop_first());
        assert(entries.drop_first().last() == entries.last());
    }
}

/// A resolution that has settled stays as it is.
proof fn lemma_settled_stays(s: Situation, end: Situation, now: Nanos, id: u16)
    requires
        s.resolver.settled(),
        iterative::settles(s, end, now, id),
    ensures
        end == s,
{
    let entries = choose|entries: Seq<Option<CachedValueView>>| #[trigger]
        iterative::may_run(s, entries, now, id) && end == iterative::ran(s, entries, now, id);
    if entries.len() > 0 {
        lemma_run_first(s, entries, now, id);
    }
}

/// A resolution that has not settled takes a step and settles from there.
proof fn lemma_settles_after_step(s: Situation, end: Situation, now: Nanos, id: u16) -> (entry:
    Option<CachedValueView>)
    requires
        !s.resolver.settled(),
        iterative::settles(s, end, now, id),
    ensures
        iterative::may_give(s, entry),
        iterative::settles(iterative::stepped(s, entry, now, id), end, now, id),
{
    let entries = choose|entries: Seq<Option<CachedValueView>>| #[trigger]
        iterative::may_run(s, entries, now, id) && end == iterative::ran(s, entries, now, id);
    if entries.len() == 0 {
        assert(end == s);
    }
    lemma_run_first(s, entries, now, id);
    let next = iterative::stepped(s, entries[0], now, id);
    assert(iterative::may_run(next, entries.drop_first(), now, id));
    entries[0]
}

/// With a cache that has forgotten nothing, a resolution that has not settled takes the step that
/// what the cache holds calls for, and settles from there.
proof fn lemma_whole_after_step(s: Situation, end: Situation, now: Nanos, id: u16)
    requires
        !s.resolver.settled(),
        iterative::settles_whole(s, end, now, id),
    ensures
        iterative::settles_whole(
            iterative::stepped(s, iterative::held(s), now, id),
            end,
            now,
            id,
        ),
{
    let entries = choose|entries: Seq<Option<CachedValueView>>| #[trigger]
        iterative::may_run(s, entries, now, id) && iterative::gave_all(s, entries, now, id) && end
            == iterative::ran(s, entries, now, id);
    if entries.len() == 0 {
        assert(end == s);
    }
    lemma_run_first(s, entries, now, id);
    let next = iterative::stepped(s, entries[0], now, id);
    assert(iterative::may_run(next, entries.drop_first(), now, id));
}

proof fn lemma_one_way(
    s: Situation,
    entries: Seq<Option<CachedValueView>>,
    other: Situation,
    now: Nanos,
    id: u16,
)
    requires
        iterative::may_run(s, entries, now, id),
        iterative::gave_all(s, entries, now, id),
        iterative::ran(s, entries, now, id).resolver.settled(),
        iterative::settles_whole(s, other, now, id),
    ensures
        other == iterative::ran(s, entries, now, id),
    decreases entries.len(),
{
    if entries.len() == 0 {
        lemma_settled_stays(s, other, now, id);
    } else {
        lemma_run_first(s, entries, now, id);
        lemma_whole_after_step(s, other, now, id);
        let next = iterative::stepped(s, entries[0], now, id);
        lemma_one_way(next, entries.drop_first(), other, now, id);
    }
}

/// With a cache that has forgotten nothing, there is one way for a resolution to settle, and it is
/// one of those that it has with any cache.
pub proof fn law_whole_caches_leave_no_choice(
    s: Situation,
    end: Situation,
    other: Situation,
    now: Nanos,
    id: u16,
)
    requires
        iterative::settles_whole(s, end, now, id),
        iterative::settles_whole(s, other, now, id),
    ensures
        end == other,
        iterative::settles(s, end, now, id),
{
    let entries = choose|entries: Seq<Option<CachedValueView>>| #[trigger]
        iterative::may_run(s, entries, now, id) && iterative::gave_all(s, entries, now, id) && end
            == iterative::ran(s, entries, now, id);
    lemma_one_way(s, entries, other, now, id);
}

/// Lookups nest no deeper than the limit.
pub proof fn law_nesting_is_bounded(r: ResolverView)
    requires
        r.wf(),
    ensures
        r.suspended.len() <= lookup::MAX_DEPTH,
{
    if r.suspended.len() > 0 {
        assert(iterative::suspended_wf(r.suspended[r.suspended.len() - 1], r.suspended.len() - 1));
    }
}

/// A resolution begins with what the cache holds for the question, if that has not expired and
/// has not been forgotten, and otherwise with the first root server. An expired entry leaves the
/// cache, if it had not been forgotten.
pub proof fn law_resolution_begins(
    name: Seq<Seq<u8>>,
    query_type: u16,
    entries: Map<Seq<char>, CachedValueView>,
    end: Situation,
    now: Nanos,
    id: u16,
)
    requires
        iterative::settles(
            Situation { resolver: ResolverView::fresh(name, query_type), cache: entries },
            end,
            now,
            id,
        ),
    ensures
        ({
            let first = LookupView::fresh(name, query_type, 0);
            let key = cache_util::cache_key(name, query_type);
            let live = entries.contains_key(key) && entries[key].expires_at() > now;
            &&& end.resolver.suspended.len() == 0
            &&& live ==> end.cache == entries
            &&& end.cache == entries || end.cache == entries.remove(key)
            &&& {
                ||| end.resolver.state == iterative::asked(first, id)
                ||| live && end.resolver.state == lookup::begun(first, Some(entries[key]), now)
            }
        }),
{
    let s = Situation { resolver: ResolverView::fresh(name, query_type), cache: entries };
    let entry = lemma_settles_after_step(s, end, now, id);
    let t = iterative::stepped(s, entry, now, id);
    if t.resolver.settled() {
        lemma_settled_stays(t, end, now, id);
    } else {
        let entry = lemma_settles_after_step(t, end, now, id);
        let u = iterative::stepped(t, entry, now, id);
        lemma_settled_stays(u, end, now, id);
    }
}

/// With a cache that has forgotten nothing, a lookup that begins, however deep it is nested, ends
/// with what a live entry says and leaves the cache as it is; an expired entry leaves the cache,
/// and servers are asked.
pub proof fn law_lookups_heed_the_cache(s: Situation, end: Situation, now: Nanos, id: u16)
    requires
        s.resolver.state is Begin,
        s.resolver.state->Begin_0.depth <= lookup::MAX_DEPTH,
        iterative::settles_whole(s, end, now, id),
    ensures
        ({
            let l = s.resolver.state->Begin_0;
            let key = iterative::key_of(l);
            let live = s.cache.contains_key(key) && s.cache[key].expires_at() > now;
            let next = Situation {
                resolver: ResolverView {
                    state: if live {
                        lookup::begun(l, Some(s.cache[key]), now)
                    } else {
                        StateView::Ask(l)
                    },
                    suspended: s.resolver.suspended,
                },
                cache: if live {
                    s.cache
                } else {
                    s.cache.remove(key)
                },
            };
            &&& live ==> next.resolver.state is Ended
            &&& iterative::settles_whole(next, end, now, id)
        }),
{
    let l = s.resolver.state->Begin_0;
    let key = iterative::key_of(l);
    if !s.cache.contains_key(key) {
        assert(s.cache.remove(key) =~= s.cache);
    }
    lemma_whole_after_step(s, end, now, id);
}

/// With a cache that has forgotten nothing, a question for which it holds a live entry is answered
/// from it, and no server is asked: with the records, their TTLs cut down to the seconds left, or
/// with the failure. The cache stays as it is.
pub proof fn law_live_entries_answer(
    name: Seq<Seq<u8>>,
    query_type: u16,
    entries: Map<Seq<char>, CachedValueView>,
    end: Situation,
    now: Nanos,
    id: u16,
)
    requires
        iterative::settles_whole(
            Situation { resolver: ResolverView::fresh(name, query_type), cache: entries },
            end,
            now,
            id,
        ),
        entries.contains_key(cache_util::cache_key(name, query_type)),
        entries[cache_util::cache_key(name, query_type)].expires_at() > now,
    ensures
        end.cache == entries,
        end.resolver.suspended.len() == 0,
        end.resolver.state == match entries[cache_util::cache_key(name, query_type)] {
            CachedValueView::Answers { records, expires_at } => StateView::Ended(
                Ok(
                    records.map_values(
                        |r: RecordView| cache::capped(r, cache::seconds_left(expires_at, now)),
                    ),
                ),
            ),
            CachedValueView::NXDomain { .. } => StateView::Ended(Err(LookupError::NxDomain)),
            CachedValueView::ServFail { .. } => StateView::Ended(Err(LookupError::ServFail)),
        },
{
    let s = Situation { resolver: ResolverView::fresh(name, query_type), cache: entries };
    lemma_whole_after_step(s, end, now, id);
    let t = iterative::stepped(s, iterative::held(s), now, id);
    lemma_settled_stays(t, end, now, id);
}

/// With a cache that has forgotten nothing, an expired entry for a question is gone afterwards,
/// and the resolution goes on as it would without it: the first root server is asked.
pub proof fn law_expired_entries_leave(
    name: Seq<Seq<u8>>,
    query_type: u16,
    entries: Map<Seq<char>, CachedValueView>,
    end: Situation,
    now: Nanos,
    id: u16,
)
    requires
        iterative::settles_whole(
            Situation { resolver: ResolverView::fresh(name, query_type), cache: entries },
            end,
            now,
            id,
        ),
        entries.contains_key(cache_util::cache_key(name, query_type)),
        entries[cache_util::cache_key(name, query_type)].expires_at() <= now,
    ensures
        end.cache == entries.remove(cache_util::cache_key(name, query_type)),
        end.resolver.suspended.len() == 0,
        end.resolver.state == iterative::asked(LookupView::fresh(name, query_type, 0), id),
        forall|other: Situation|
            #[trigger] iterative::settles_whole(
                Situation {
                    resolver: ResolverView::fresh(name, query_type),
                    cache: entries.remove(cache_util::cache_key(name, query_type)),
                },
                other,
                now,
                id,
            ) ==> other == end,
{
    let key = cache_util::cache_key(name, query_type);
    let s = Situation { resolver: ResolverView::fresh(name, query_type), cache: entries };
    lemma_whole_after_step(s, end, now, id);
    let t = iterative::stepped(s, iterative::held(s), now, id);
    assert(t.resolver.state is Ask);
    lemma_whole_after_step(t, end, now, id);
    let u = iterative::stepped(t, iterative::held(t), now, id);
    lemma_settled_stays(u, end, now, id);
    let bare = Situation { resolver: s.resolver, cache: entries.remove(key) };
    assert forall|other: Situation| #[trigger]
        iterative::settles_whole(bare, other, now, id) implies other == end by {
        lemma_whole_after_step(bare, other, now, id);
        assert(iterative::stepped(bare, iterative::held(bare), now, id) == t);
        law_whole_caches_leave_no_choice(t, end, other, now, id);
    }
}

/// Records that were put in the cache for a question answer the same question again, under any
/// spelling of the name, if the cache has forgotten nothing: until they expire they come back with
/// their TTLs cut down to the seconds left, and then the root servers are asked.
pub proof fn law_answers_are_remembered(
    name: Seq<Seq<u8>>,
    spelling: Seq<Seq<u8>>,
    query_type: u16,
    records: Seq<RecordView>,
    entries: Map<Seq<char>, CachedValueView>,
    stored: Nanos,
    end: Situation,
    now: Nanos,
    id: u16,
)
    requires
        name::same_name(name, spelling),
        entries.contains_key(cache_util::cache_key(name, query_type)),
        entries[cache_util::cache_key(name, query_type)] == cache::answers_entry(records, stored),
        iterative::settles_whole(
            Situation { resolver: ResolverView::fresh(spelling, query_type), cache: entries },
            end,
            now,
            id,
        ),
    ensures
        end.resolver.suspended.len() == 0,
        ({
            let expires_at = cache::later(stored, cache::lifetime(cache::ttls(records)));
            if now < expires_at {
                &&& end.cache == entries
                &&& end.resolver.state == StateView::Ended(
                    Ok(
                        records.map_values(
                            |r: RecordView| cache::capped(r, cache::seconds_left(expires_at, now)),
                        ),
                    ),
                )
            } else {
                &&& end.cache == entries.remove(cache_util::cache_key(name, query_type))
                &&& end.resolver.state == iterative::asked(
                    LookupView::fresh(spelling, query_type, 0),
                    id,
                )
            }
        }),
{
    cache_util::law_same_name_same_key(name, spelling, query_type);
    if now < entries[cache_util::cache_key(name, query_type)].expires_at() {
        law_live_entries_answer(spelling, query_type, entries, end, now, id);
    } else {
        law_expired_entries_leave(spelling, query_type, entries, end, now, id);
    }
}

/// A resolution runs with a cache that has forgotten nothing: `ends` are the situations in which
/// it settles, each after the reply of the same index, all but the last waiting for a reply.
pub open spec fn exchanges(
    s: Situation,
    ends: Seq<Situation>,
    replies: Seq<Option<Seq<u8>>>,
    times: Seq<Nanos>,
    ids: Seq<u16>,
) -> bool {
    &&& replies.len() == ends.len()
    &&& times.len() == ends.len()
    &&& ids.len() == ends.len()
    &&& forall|i: int|
        0 <= i < ends.len() ==> iterative::settles_whole(
            iterative::received(
                if i == 0 {
                    s
                } else {
                    ends[i - 1]
                },
                replies[i],
                times[i],
            ),
            #[trigger] ends[i],
            times[i],
            ids[i],
        )
    &&& forall|i: int|
        0 <= i < ends.len() - 1 ==> (#[trigger] ends[i]).resolver.state is Waiting
    &&& forall|i: int, j: int| 0 <= i <= j < times.len() ==> times[i] <= times[j]
}

/// The outermost lookup of a resolution, while it is under way.
spec fn outermost(r: ResolverView) -> Option<LookupView> {
    if r.suspended.len() > 0 {
        Some(r.suspended[0].lookup)
    } else {
        match r.state {
            StateView::Begin(l) => Some(l),
            StateView::Ask(l) => Some(l),
            StateView::Waiting(l, _) => Some(l),
            StateView::Gather(l, _) => Some(l),
            _ => None,
        }
    }
}

/// The outermost lookup is for this question and has begun, and has not ended with anything that
/// is learned from a response.
spec fn under_way(r: ResolverView, name: Seq<Seq<u8>>, query_type: u16) -> bool {
    &&& outermost(r) matches Some(l) ==> l.name == name && l.query_type == query_type
    &&& r.suspended.len() == 0 ==> !(r.state is Begin)
    &&& r.suspended.len() == 0 && r.state is Ended ==> {
        let result = r.state->Ended_0;
        result is Err && result->Err_0 != LookupError::NxDomain && result->Err_0
            != LookupError::ServFail
    }
}

proof fn lemma_ran_under_way(
    s: Situation,
    entries: Seq<Option<CachedValueView>>,
    now: Nanos,
    id: u16,
    name: Seq<Seq<u8>>,
    query_type: u16,
)
    requires
        iterative::may_run(s, entries, now, id),
        under_way(s.resolver, name, query_type),
    ensures
        under_way(iterative::ran(s, entries, now, id).resolver, name, query_type),
    decreases entries.len(),
{
    if entries.len() > 0 {
        let before = iterative::ran(s, entries.drop_last(), now, id);
        lemma_ran_under_way(s, entries.drop_last(), now, id, name, query_type);
        let after = iterative::ran(s, entries, now, id);
        assert(after == iterative::stepped(before, entries.last(), now, id));
        match before.resolver.state {
            StateView::Gather(l, g) => {
                if g.index < g.names.len() && before.resolver.suspended.len() == 0 {
                    assert(after.resolver.suspended[0].lookup == l);
                }
            },
            StateView::Ended(_) => {
                if before.resolver.suspended.len() == 1 {
                    assert(before.resolver.suspended.last() == before.resolver.suspended[0]);
                }
            },
            _ => {},
        }
    }
}

proof fn lemma_settles_under_way(
    s: Situation,
    end: Situation,
    now: Nanos,
    id: u16,
    name: Seq<Seq<u8>>,
    query_type: u16,
)
    requires
        iterative::settles_whole(s, end, now, id),
        under_way(s.resolver, name, query_type),
    ensures
        under_way(end.resolver, name, query_type),
{
    let entries = choose|entries: Seq<Option<CachedValueView>>| #[trigger]
        iterative::may_run(s, entries, now, id) && iterative::gave_all(s, entries, now, id) && end
            == iterative::ran(s, entries, now, id);
    lemma_ran_under_way(s, entries, now, id, name, query_type);
}

proof fn lemma_exchanges_under_way(
    name: Seq<Seq<u8>>,
    query_type: u16,
    ends: Seq<Situation>,
    replies: Seq<Option<Seq<u8>>>,
    times: Seq<Nanos>,
    ids: Seq<u16>,
    i: int,
)
    requires
        exchanges(
            Situation {
                resolver: ResolverView::fresh(name, query_type),
                cache: cache::no_entries(),
            },
            ends,
            replies,
            times,
            ids,
        ),
        0 <= i < ends.len(),
        i < ends.len() - 1 || i == 0,
    ensures
        under_way(ends[i].resolver, name, query_type),
    decreases i,
{
    let s = Situation {
        resolver: ResolverView::fresh(name, query_type),
        cache: cache::no_entries(),
    };
    if i == 0 {
        let end = ends[0];
        assert(iterative::received(s, replies[0], times[0]) == s);
        lemma_whole_after_step(s, end, times[0], ids[0]);
        let t = iterative::stepped(s, iterative::held(s), times[0], ids[0]);
        assert(t.resolver.state is Ask);
        lemma_settles_under_way(t, end, times[0], ids[0], name, query_type);
    } else {
        lemma_exchanges_under_way(name, query_type, ends, replies, times, ids, i - 1);
        let before = ends[i - 1];
        let heard = iterative::received(before, replies[i], times[i]);
        assert(ends[i].resolver.state is Waiting);
        if heard.resolver.settled() {
            lemma_settled_stays_whole(heard, ends[i], times[i], ids[i]);
        }
        lemma_settles_under_way(heard, ends[i], times[i], ids[i], name, query_type);
    }
}

proof fn lemma_settled_stays_whole(s: Situation, end: Situation, now: Nanos, id: u16)
    requires
        s.resolver.settled(),
        iterative::settles_whole(s, end, now, id),
    ensures
        end == s,
{
    law_whole_caches_leave_no_choice(s, end, end, now, id);
    lemma_settled_stays(s, end, now, id);
}

/// Records come back as they were, with TTLs that did not grow.
pub open spec fn repeated(first: Seq<RecordView>, again: Seq<RecordView>) -> bool {
    &&& again.len() == first.len()
    &&& forall|i: int|
        0 <= i < first.len() ==> {
            &&& (#[trigger] again[i]).name == first[i].name
            &&& again[i].class == first[i].class
            &&& again[i].data == first[i].data
            &&& again[i].ttl <= first[i].ttl
        }
}

/// Cutting down TTLs and picking records by their data can trade places.
proof fn lemma_capped_filter(records: Seq<RecordView>, ttl: u32, keep: spec_fn(RecordView) -> bool)
    requires
        forall|r: RecordView| keep(#[trigger] cache::capped(r, ttl)) == keep(r),
    ensures
        records.map_values(|r: RecordView| cache::capped(r, ttl)).filter(keep) == records.filter(
            keep,
        ).map_values(|r: RecordView| cache::capped(r, ttl)),
    decreases records.len(),
{
    reveal(Seq::filter);
    let cut = |r: RecordView| cache::capped(r, ttl);
    if records.len() > 0 {
        let rest = records.drop_last();
        lemma_capped_filter(rest, ttl, keep);
        assert(records.map_values(cut).drop_last() =~= rest.map_values(cut));
        assert(records.map_values(cut).last() == cache::capped(records.last(), ttl));
        if keep(records.last()) {
            assert(records.filter(keep).map_values(cut) =~= rest.filter(keep).map_values(cut).push(
                cache::capped(records.last(), ttl),
            ));
        }
    } else {
        assert(records.map_values(cut).filter(keep) =~= records.filter(keep).map_values(cut));
    }
}

/// A question that was answered, or found to be for a name that does not exist, is answered the
/// same when it is asked again before half a minute has passed since the first resolution began:
/// no server is asked, the status is the same, and the same records come in the same order, with
/// TTLs that did not grow. (The cache was empty at first and has forgotten nothing.)
pub proof fn law_second_resolution_repeats_the_first(
    name: Seq<Seq<u8>>,
    query_type: u16,
    ends: Seq<Situation>,
    replies: Seq<Option<Seq<u8>>>,
    times: Seq<Nanos>,
    ids: Seq<u16>,
    end: Situation,
    now: Nanos,
    id: u16,
)
    requires
        ends.len() > 0,
        exchanges(
            Situation {
                resolver: ResolverView::fresh(name, query_type),
                cache: cache::no_entries(),
            },
            ends,
            replies,
            times,
            ids,
        ),
        ends.last().resolver.suspended.len() == 0,
        ends.last().resolver.state is Ended,
        iterative::concluded(ends.last().resolver.state->Ended_0).status
            == ResolutionStatus::NoError || iterative::concluded(
            ends.last().resolver.state->Ended_0,
        ).status == ResolutionStatus::NxDomain,
        times.last() <= cache::CLOCK_LIMIT,
        times.last() <= now < times[0] + cache::SHORTEST_TTL * cache::SECOND,
        iterative::settles_whole(
            Situation {
                resolver: ResolverView::fresh(name, query_type),
                cache: ends.last().cache,
            },
            end,
            now,
            id,
        ),
    ensures
        end.resolver.suspended.len() == 0,
        end.resolver.state is Ended,
        end.cache == ends.last().cache,
        ({
            let first = iterative::concluded(ends.last().resolver.state->Ended_0);
            let again = iterative::concluded(end.resolver.state->Ended_0);
            &&& again.status == first.status
            &&& repeated(first.answers, again.answers)
            &&& repeated(first.authorities, again.authorities)
        }),
{
    let n = ends.len() as int;
    let last = ends.last();
    assert(last == ends[n - 1]);
    lemma_exchanges_under_way(name, query_type, ends, replies, times, ids, 0);
    assert(n >= 2);
    lemma_exchanges_under_way(name, query_type, ends, replies, times, ids, n - 2);
    let before = ends[n - 2];
    let (reply, stored) = (replies[n - 1], times[n - 1]);
    assert(before.resolver.state is Waiting);
    let l = before.resolver.state->Waiting_0;
    let response = iterative::accepted(reply, before.resolver.state->Waiting_1);
    let heard = iterative::received(before, reply, stored);
    assert(iterative::settles_whole(heard, last, stored, ids[n - 1]));
    if !heard.resolver.settled() || before.resolver.suspended.len() > 0 {
        if before.resolver.suspended.len() > 0 {
            assert(under_way(heard.resolver, name, query_type));
        }
        lemma_settles_under_way(heard, last, stored, ids[n - 1], name, query_type);
    }
    assert(heard.resolver.settled());
    lemma_settled_stays_whole(heard, last, stored, ids[n - 1]);
    let entry = lookup::learned(l, response, stored);
    assert(entry is Some);
    let key = cache_util::cache_key(name, query_type);
    assert(last.cache == before.cache.insert(key, entry->0));
    assert(times[0] <= times[n - 1]);
    match heard.resolver.state->Ended_0 {
        Ok(records) => {
            let ttl = cache::lifetime(cache::ttls(records));
            lemma_later(stored, ttl);
            cache::law_lifetime_bounds(cache::ttls(records));
            law_live_entries_answer(name, query_type, last.cache, end, now, id);
            let left = cache::seconds_left(cache::later(stored, ttl), now);
            lemma_capped_filter(
                records,
                left,
                |r: RecordView| r.data.record_type() != record::TYPE_SOA,
            );
            lemma_capped_filter(
                records,
                left,
                |r: RecordView| r.data.record_type() == record::TYPE_SOA,
            );
        },
        Err(_) => {
            let authorities = response->0.authorities;
            let ttl = cache::lifetime(cache::negative_ttls(authorities));
            lemma_later(stored, ttl);
            cache::law_lifetime_bounds(cache::negative_ttls(authorities));
            law_live_entries_answer(name, query_type, last.cache, end, now, id);
        },
    }
}

proof fn lemma_later(stored: Nanos, ttl: u32)
    requires
        stored <= cache::CLOCK_LIMIT,
        ttl >= cache::SHORTEST_TTL,
    ensures
        cache::later(stored, ttl) == stored + ttl * cache::SECOND,
        cache::later(stored, ttl) >= stored + cache::SHORTEST_TTL * cache::SECOND,
{
    assert(30 * 1_000_000_000 <= ttl * cache::SECOND <= 0xffff_ffff * 1_000_000_000)
        by (nonlinear_arith)
        requires
            30 <= ttl <= 0xffff_ffff,
            cache::SECOND == 1_000_000_000,
    ;
}

/// Nothing, octets that are no message and a message with another identifier all count as no
/// response.
pub proof fn law_unusable_replies_are_alike(s: Situation, reply: Option<Seq<u8>>, now: Nanos)
    requires
        s.resolver.state matches StateView::Waiting(_, id) ==> match reply {
            None => true,
            Some(octets) => match message::decoded(octets) {
                None => true,
                Some(m) => m.header.id != id,
            },
        },
    ensures
        iterative::received(s, reply, now) == iterative::received(s, None, now),
{
}

/// When no response comes, the next server is asked under the same question, however deep the
/// lookup is nested; when there is none and the lookup is the outermost, the resolution has timed
/// out. Nothing is learned. (The query has a wire form: `iterative::build_query` always gives
/// one.)
pub proof fn law_silence(s: Situation, end: Situation, now: Nanos, id: u16)
    requires
        s.resolver.state is Waiting,
        iterative::settles(iterative::received(s, None, now), end, now, id),
    ensures
        ({
            let l = s.resolver.state->Waiting_0;
            &&& l.next + 1 < l.servers.len() && iterative::encoded_query(
                l.current,
                l.query_type,
                id,
            ) is Some ==> {
                &&& end.cache == s.cache
                &&& end.resolver.suspended == s.resolver.suspended
                &&& end.resolver.state == StateView::Waiting(l.next_server(), id)
            }
            &&& l.next + 1 >= l.servers.len() && s.resolver.suspended.len() == 0 ==> {
                &&& end.cache == s.cache
                &&& end.resolver.suspended.len() == 0
                &&& end.resolver.state == StateView::Ended(Err(LookupError::NoResponse))
                &&& iterative::concluded(end.resolver.state->Ended_0) == OutcomeView::failed(
                    ResolutionStatus::Timeout,
                )
            }
        }),
{
    let t = iterative::received(s, None, now);
    let entry = lemma_settles_after_step(t, end, now, id);
    let u = iterative::stepped(t, entry, now, id);
    if u.resolver.settled() {
        lemma_settled_stays(u, end, now, id);
    }
}

/// A resolution hears nothing from one server after the other: `ends` are the situations after
/// each of them, reached at the times and with the identifiers given.
pub open spec fn hears_nothing(
    s: Situation,
    ends: Seq<Situation>,
    times: Seq<Nanos>,
    ids: Seq<u16>,
) -> bool {
    &&& times.len() == ends.len()
    &&& ids.len() == ends.len()
    &&& forall|i: int|
        0 <= i < ends.len() ==> iterative::settles(
            iterative::received(
                if i == 0 {
                    s
                } else {
                    ends[i - 1]
                },
                None,
                times[i],
            ),
            #[trigger] ends[i],
            times[i],
            ids[i],
        )
}

/// When none of the servers that are left responds, the resolution times out. (The queries have
/// wire forms: `iterative::build_query` always gives one.)
pub proof fn law_silence_of_all_times_out(
    s: Situation,
    ends: Seq<Situation>,
    times: Seq<Nanos>,
    ids: Seq<u16>,
)
    requires
        s.resolver.state is Waiting,
        s.resolver.suspended.len() == 0,
        s.resolver.wf(),
        ({
            let l = s.resolver.state->Waiting_0;
            &&& ends.len() == l.servers.len() - l.next
            &&& forall|i: int|
                0 <= i < ids.len() ==> iterative::encoded_query(
                    l.current,
                    l.query_type,
                    #[trigger] ids[i],
                ) is Some
        }),
        hears_nothing(s, ends, times, ids),
    ensures
        ends.last().resolver.state == StateView::Ended(Err(LookupError::NoResponse)),
        iterative::concluded(ends.last().resolver.state->Ended_0) == OutcomeView::failed(
            ResolutionStatus::Timeout,
        ),
        ends.last().cache == s.cache,
    decreases ends.len(),
{
    let l = s.resolver.state->Waiting_0;
    let t = ends[0];
    law_silence(s, t, times[0], ids[0]);
    if ends.len() > 1 {
        let rest = ends.drop_first();
        assert(iterative::encoded_query(l.current, l.query_type, ids[0]) is Some);
        assert(t.resolver.state == StateView::Waiting(l.next_server(), ids[0]));
        let (later, others) = (times.drop_first(), ids.drop_first());
        assert forall|i: int| 0 <= i < others.len() implies iterative::encoded_query(
            l.current,
            l.query_type,
            #[trigger] others[i],
        ) is Some by {
            assert(others[i] == ids[i + 1]);
        }
        assert forall|i: int| 0 <= i < rest.len() implies iterative::settles(
            iterative::received(
                if i == 0 {
                    t
                } else {
                    rest[i - 1]
                },
                None,
                later[i],
            ),
            #[trigger] rest[i],
            later[i],
            others[i],
        ) by {
            assert(rest[i] == ends[i + 1]);
        }
        law_silence_of_all_times_out(t, rest, later, others);
        assert(rest.last() == ends.last());
    }
}

/// A response with records of the name and type that the outermost lookup has come to ends the
/// resolution: the outcome holds the aliases followed and then those records, and they are kept
/// in the cache for the question that was asked.
pub proof fn law_answers_end_the_resolution(
    s: Situation,
    reply: Option<Seq<u8>>,
    end: Situation,
    now: Nanos,
    id: u16,
)
    requires
        s.resolver.state is Waiting,
        s.resolver.suspended.len() == 0,
        iterative::settles(iterative::received(s, reply, now), end, now, id),
    ensures
        ({
            let l = s.resolver.state->Waiting_0;
            let response = iterative::accepted(reply, s.resolver.state->Waiting_1);
            response matches Some(m) ==> {
                let found = response::answering(m.answers, l.current, l.query_type);
                found.len() > 0 ==> {
                    let records = l.collected + found;
                    &&& end.resolver.suspended.len() == 0
                    &&& end.resolver.state == StateView::Ended(Ok(records))
                    &&& iterative::concluded(Ok(records)).status == ResolutionStatus::NoError
                    &&& end.cache == s.cache.insert(
                        iterative::key_of(l),
                        cache::answers_entry(records, now),
                    )
                }
            }
        }),
{
    let t = iterative::received(s, reply, now);
    if t.resolver.settled() {
        lemma_settled_stays(t, end, now, id);
    }
}

/// A response that names an alias, and has no records of the type, sends the lookup to the root
/// servers with the alias's target, however deep the lookup is nested, as long as the limit on
/// rounds allows it. At the limit, the outermost lookup ends without records. (The query has a
/// wire form: `iterative::build_query` always gives one.)
pub proof fn law_aliases_are_followed(
    s: Situation,
    reply: Option<Seq<u8>>,
    end: Situation,
    now: Nanos,
    id: u16,
)
    requires
        s.resolver.state is Waiting,
        iterative::settles(iterative::received(s, reply, now), end, now, id),
    ensures
        ({
            let l = s.resolver.state->Waiting_0;
            let response = iterative::accepted(reply, s.resolver.state->Waiting_1);
            response matches Some(m) ==> (response::judged(m, l.current, l.query_type) matches
                response::VerdictView::Alias { record, target } ==> {
                &&& l.round + 1 < lookup::MAX_ROUNDS && iterative::encoded_query(
                    target,
                    l.query_type,
                    id,
                ) is Some ==> {
                    &&& end.cache == s.cache
                    &&& end.resolver.suspended == s.resolver.suspended
                    &&& end.resolver.state == StateView::Waiting(
                        LookupView {
                            current: target,
                            servers: lookup::roots(),
                            next: 0,
                            hop: 0,
                            round: l.round + 1,
                            collected: l.collected.push(record),
                            ..l
                        },
                        id,
                    )
                }
                &&& l.round + 1 >= lookup::MAX_ROUNDS && s.resolver.suspended.len() == 0 ==> {
                    &&& end.cache == s.cache
                    &&& end.resolver.suspended.len() == 0
                    &&& end.resolver.state == StateView::Ended(Err(LookupError::TooManySteps))
                }
            })
        }),
{
    let t = iterative::received(s, reply, now);
    if t.resolver.settled() {
        lemma_settled_stays(t, end, now, id);
    } else {
        let entry = lemma_settles_after_step(t, end, now, id);
        let u = iterative::stepped(t, entry, now, id);
        if u.resolver.settled() {
            lemma_settled_stays(u, end, now, id);
        }
    }
}

/// A referral that comes with addresses sends the lookup to them, the first before the others,
/// however deep the lookup is nested, as long as the limits on hops and rounds allow it. At the
/// limits, the outermost lookup ends without records. (The query has a wire form:
/// `iterative::build_query` always gives one.)
pub proof fn law_referrals_are_followed(
    s: Situation,
    reply: Option<Seq<u8>>,
    end: Situation,
    now: Nanos,
    id: u16,
)
    requires
        s.resolver.state is Waiting,
        iterative::settles(iterative::received(s, reply, now), end, now, id),
    ensures
        ({
            let l = s.resolver.state->Waiting_0;
            let response = iterative::accepted(reply, s.resolver.state->Waiting_1);
            let last_hop = l.hop + 1 >= lookup::MAX_HOPS;
            let last_round = l.round + 1 >= lookup::MAX_ROUNDS;
            response matches Some(m) ==> (response::judged(m, l.current, l.query_type) matches
                response::VerdictView::Referral { addresses, .. } ==> (addresses.len() > 0 ==> {
                &&& !(last_hop && last_round) && iterative::encoded_query(
                    l.current,
                    l.query_type,
                    id,
                ) is Some ==> {
                    &&& end.cache == s.cache
                    &&& end.resolver.suspended == s.resolver.suspended
                    &&& end.resolver.state == StateView::Waiting(
                        LookupView {
                            servers: addresses,
                            next: 0,
                            hop: if last_hop {
                                0
                            } else {
                                l.hop + 1
                            },
                            round: if last_hop {
                                l.round + 1
                            } else {
                                l.round
                            },
                            ..l
                        },
                        id,
                    )
                }
                &&& last_hop && last_round && s.resolver.suspended.len() == 0 ==> {
                    &&& end.cache == s.cache
                    &&& end.resolver.suspended.len() == 0
                    &&& end.resolver.state == StateView::Ended(Err(LookupError::TooManySteps))
                }
            }))
        }),
{
    let t = iterative::received(s, reply, now);
    if t.resolver.settled() {
        lemma_settled_stays(t, end, now, id);
    } else {
        let entry = lemma_settles_after_step(t, end, now, id);
        let u = iterative::stepped(t, entry, now, id);
        if u.resolver.settled() {
            lemma_settled_stays(u, end, now, id);
        }
    }
}

/// A response that says that the name does not exist, or that the server failed, ends the
/// resolution without records, and is kept in the cache for the question that was asked.
pub proof fn law_failures_end_the_resolution(
    s: Situation,
    reply: Option<Seq<u8>>,
    end: Situation,
    now: Nanos,
    id: u16,
)
    requires
        s.resolver.state is Waiting,
        s.resolver.suspended.len() == 0,
        iterative::settles(iterative::received(s, reply, now), end, now, id),
    ensures
        ({
            let l = s.resolver.state->Waiting_0;
            let response = iterative::accepted(reply, s.resolver.state->Waiting_1);
            response matches Some(m) ==> match response::judged(m, l.current, l.query_type) {
                response::VerdictView::NxDomain => {
                    &&& end.resolver.suspended.len() == 0
                    &&& end.resolver.state == StateView::Ended(Err(LookupError::NxDomain))
                    &&& iterative::concluded(Err(LookupError::NxDomain)) == OutcomeView::failed(
                        ResolutionStatus::NxDomain,
                    )
                    &&& end.cache == s.cache.insert(
                        iterative::key_of(l),
                        cache::nxdomain_entry(m.authorities, now),
                    )
                },
                response::VerdictView::ServFail => {
                    &&& end.resolver.suspended.len() == 0
                    &&& end.resolver.state == StateView::Ended(Err(LookupError::ServFail))
                    &&& iterative::concluded(Err(LookupError::ServFail)) == OutcomeView::failed(
                        ResolutionStatus::ServFail,
                    )
                    &&& end.cache == s.cache.insert(
                        iterative::key_of(l),
                        cache::servfail_entry(now),
                    )
                },
                _ => true,
            }
        }),
{
    let t = iterative::received(s, reply, now);
    if t.resolver.settled() {
        lemma_settled_stays(t, end, now, id);
    }
}

/// Hearing from a server and going on change what the cache holds for the lookup concerned, and
/// nothing else.
pub proof fn law_other_entries_stay(
    s: Situation,
    reply: Option<Seq<u8>>,
    entry: Option<CachedValueView>,
    now: Nanos,
    id: u16,
    key: Seq<char>,
)
    requires
        match s.resolver.state {
            StateView::Waiting(l, _) => key != iterative::key_of(l),
            StateView::Begin(l) => key != iterative::key_of(l),
            _ => true,
        },
    ensures
        iterative::received(s, reply, now).cache.contains_key(key) == s.cache.contains_key(key),
        s.cache.contains_key(key) ==> iterative::received(s, reply, now).cache[key] == s.cache[key],
        iterative::stepped(s, entry, now, id).cache.contains_key(key) == s.cache.contains_key(key),
        s.cache.contains_key(key) ==> iterative::stepped(s, entry, now, id).cache[key]
            == s.cache[key],
{
}

/// The outcome of a lookup that gave records holds each of them once, as an answer or as an
/// authority.
pub proof fn law_outcome_holds_every_record(records: Seq<RecordView>)
    ensures
        iterative::concluded(Ok(records)).answers.to_multiset().add(
            iterative::concluded(Ok(records)).authorities.to_multiset(),
        ) == records.to_multiset(),
    decreases records.len(),
{
    broadcast use vstd::seq_lib::group_to_multiset_ensures;

    reveal(Seq::filter);
    let (answers, authorities) = (
        iterative::concluded(Ok(records)).answers,
        iterative::concluded(Ok(records)).authorities,
    );
    if records.len() > 0 {
        let rest = records.drop_last();
        law_outcome_holds_every_record(rest);
        assert(records =~= rest.push(records.last()));
        response::lemma_filter_push(
            rest,
            records.last(),
            |r: RecordView| r.data.record_type() != record::TYPE_SOA,
        );
        response::lemma_filter_push(
            rest,
            records.last(),
            |r: RecordView| r.data.record_type() == record::TYPE_SOA,
        );
    }
    assert(answers.to_multiset().add(authorities.to_multiset()) =~= records.to_multiset());
}

/// A query bears its identifier, asks one question, for the name and the type, in the Internet
/// class, asks for no recursion, and has nothing else in it.
pub proof fn law_queries_ask_for_the_name_and_type(name: Seq<Seq<u8>>, query_type: u16, id: u16)
    ensures
        ({
            let q = iterative::query_message(name, query_type, id);
            &&& q.header.id == id
            &&& !q.header.response
            &&& q.header.op_code == 0
            &&& !q.header.authoritative
            &&& !q.header.truncation
            &&& !q.header.recursion_desired
            &&& !q.header.recursion_available
            &&& !q.header.authentic_data
            &&& !q.header.checking_disabled
            &&& q.header.response_code == 0
            &&& q.queries.len() == 1
            &&& q.queries[0].name == name
            &&& q.queries[0].query_type == query_type
            &&& q.queries[0].query_class == 1
            &&& q.answers.len() == 0
            &&& q.authorities.len() == 0
            &&& q.additionals.len() == 0
            &&& q.edns is None
            &&& iterative::encoded_query(name, query_type, id) == message::encoded(q)
        }),
{
}

/// What comes back counts as the response if and only if it is a message with the identifier of
/// the query, and then it counts as it is.
pub proof fn law_responses_count_by_their_identifier(reply: Option<Seq<u8>>, id: u16)
    ensures
        iterative::accepted(reply, id) is Some <==> reply is Some && message::decoded(
            reply->0,
        ) is Some && message::decoded(reply->0)->0.header.id == id,
        iterative::accepted(reply, id) is Some ==> iterative::accepted(reply, id)
            == message::decoded(reply->0),
{
}

/// What is heard reaches the lookup that asked, however deep it is nested, and leaves those that
/// wait for it as they are. What is learned is kept under the name that was asked for at first, in
/// any spelling, and its type; if nothing is learned, the cache stays as it is.
pub proof fn law_responses_reach_the_lookup_that_asked(
    s: Situation,
    reply: Option<Seq<u8>>,
    now: Nanos,
)
    requires
        s.resolver.state is Waiting,
    ensures
        ({
            let l = s.resolver.state->Waiting_0;
            let response = iterative::accepted(reply, s.resolver.state->Waiting_1);
            let after = iterative::received(s, reply, now);
            let key = cache_util::cache_key(l.name, l.query_type);
            &&& after.resolver.state == lookup::heard(l, response, now)
            &&& after.resolver.suspended == s.resolver.suspended
            &&& lookup::learned(l, response, now) is None ==> after.cache == s.cache
            &&& lookup::learned(l, response, now) matches Some(value) ==> {
                &&& after.cache.contains_key(key)
                &&& after.cache[key] == value
                &&& after.cache.remove(key) == s.cache.remove(key)
            }
        }),
{
    let l = s.resolver.state->Waiting_0;
    let key = cache_util::cache_key(l.name, l.query_type);
    let after = iterative::received(s, reply, now);
    assert(after.cache.remove(key) =~= s.cache.remove(key));
}

/// A resolution that has not asked yet hears nothing.
pub proof fn law_nothing_is_heard_before_a_server_was_asked(
    s: Situation,
    reply: Option<Seq<u8>>,
    now: Nanos,
)
    requires
        !(s.resolver.state is Waiting),
    ensures
        iterative::received(s, reply, now) == s,
{
}

/// A resolution goes on by itself until a server was asked, the outermost lookup has ended, or a
/// response could not be acted on.
pub proof fn law_what_settles_a_resolution(r: ResolverView)
    ensures
        r.settled() <==> {
            ||| r.state is Waiting
            ||| r.state is Abandoned
            ||| r.state is Ended && r.suspended.len() == 0
        },
{
}

/// The server whose turn it is is asked for the name that the lookup has come to; once every
/// server has had its turn, the lookup ends without a response.
pub proof fn law_servers_are_asked_in_turn(
    s: Situation,
    entry: Option<CachedValueView>,
    now: Nanos,
    id: u16,
)
    requires
        s.resolver.state is Ask,
    ensures
        ({
            let l = s.resolver.state->Ask_0;
            let after = iterative::stepped(s, entry, now, id);
            &&& after.cache == s.cache
            &&& after.resolver.suspended == s.resolver.suspended
            &&& l.next >= l.servers.len() ==> after.resolver.state == StateView::Ended(
                Err(LookupError::NoResponse),
            )
            &&& l.next < l.servers.len() && message::encoded(
                iterative::query_message(l.current, l.query_type, id),
            ) is Some ==> after.resolver.state == StateView::Waiting(l, id)
        }),
{
}

/// A search with a name left to look up suspends its lookup and begins the next lookup of the
/// search; one with none left goes on with the addresses that it found. The cache stays as it is.
pub proof fn law_searches_go_on(
    s: Situation,
    entry: Option<CachedValueView>,
    now: Nanos,
    id: u16,
)
    requires
        s.resolver.state is Gather,
    ensures
        ({
            let (l, g) = (s.resolver.state->Gather_0, s.resolver.state->Gather_1);
            let before = s.resolver.suspended;
            let after = iterative::stepped(s, entry, now, id);
            &&& after.cache == s.cache
            &&& g.index < g.names.len() ==> {
                &&& after.resolver.state == StateView::Begin(
                    LookupView::fresh(
                        g.names[g.index as int],
                        if g.ipv6 {
                            28
                        } else {
                            1
                        },
                        g.depth,
                    ),
                )
                &&& after.resolver.suspended.len() == before.len() + 1
                &&& before.is_prefix_of(after.resolver.suspended)
                &&& after.resolver.suspended.last().lookup == l
                &&& after.resolver.suspended.last().gathering == g
            }
            &&& g.index >= g.names.len() ==> {
                &&& after.resolver.state == lookup::gathered(l, g.addresses)
                &&& after.resolver.suspended == before
            }
        }),
{
    let (l, g) = (s.resolver.state->Gather_0, s.resolver.state->Gather_1);
    let after = iterative::stepped(s, entry, now, id);
    assert(g.index < g.names.len() ==> s.resolver.suspended.is_prefix_of(
        after.resolver.suspended,
    ));
}

/// A nested lookup that has ended hands its result to the search that it was made for: the
/// addresses of the family looked for are added to those found before, each at port 53 and in
/// their order, and the search goes on to IPv6 or to the next name. A failed one adds nothing.
pub proof fn law_nested_lookups_report_to_their_search(
    s: Situation,
    entry: Option<CachedValueView>,
    now: Nanos,
    id: u16,
)
    requires
        s.resolver.state is Ended,
        s.resolver.suspended.len() > 0,
    ensures
        ({
            let result = s.resolver.state->Ended_0;
            let last = s.resolver.suspended.last();
            let after = iterative::stepped(s, entry, now, id);
            &&& after.cache == s.cache
            &&& after.resolver.suspended == s.resolver.suspended.drop_last()
            &&& after.resolver.state matches StateView::Gather(l, g) && {
                let before = last.gathering;
                &&& l == last.lookup
                &&& g.names == before.names
                &&& g.depth == before.depth
                &&& g.ipv6 == !before.ipv6
                &&& g.index == before.index + if before.ipv6 {
                    1int
                } else {
                    0
                }
                &&& result is Err ==> g.addresses == before.addresses
                &&& result is Ok ==> {
                    &&& before.addresses.is_prefix_of(g.addresses)
                    &&& selection::selection(
                        result->Ok_0,
                        |r: RecordView|
                            if before.ipv6 {
                                r.data is AAAA
                            } else {
                                r.data is A
                            },
                        |r: RecordView| response::address_in(r.data),
                        g.addresses.skip(before.addresses.len() as int),
                    )
                }
            }
        }),
{
    let result = s.resolver.state->Ended_0;
    let before = s.resolver.suspended.last().gathering;
    if result is Ok {
        let more = lookup::family_addresses(result->Ok_0, before.ipv6);
        lookup::law_addresses_of_a_family_are_all_taken(result->Ok_0, before.ipv6);
        assert((before.addresses + more).skip(before.addresses.len() as int) =~= more);
    }
}

/// Records end a resolution with success: start-of-authority records are its authorities, all
/// others its answers, each in their order and none left out. Without records the status tells
/// why: no response is a timeout, a name that does not exist is said not to exist, and everything
/// else but a query that cannot be written counts as a failure.
pub proof fn law_outcomes_tell_how_the_lookup_ended(
    result: Result<Seq<RecordView>, LookupError>,
)
    ensures
        ({
            let outcome = iterative::concluded(result);
            match result {
                Ok(records) => {
                    &&& outcome.status == ResolutionStatus::NoError
                    &&& selection::selection(
                        records,
                        |r: RecordView| r.data.record_type() != 6,
                        |r: RecordView| r,
                        outcome.answers,
                    )
                    &&& selection::selection(
                        records,
                        |r: RecordView| r.data.record_type() == 6,
                        |r: RecordView| r,
                        outcome.authorities,
                    )
                },
                Err(e) => {
                    &&& outcome.answers.len() == 0
                    &&& outcome.authorities.len() == 0
                    &&& outcome.status == match e {
                        LookupError::NoResponse => ResolutionStatus::Timeout,
                        LookupError::NxDomain => ResolutionStatus::NxDomain,
                        LookupError::Malformed => ResolutionStatus::Malformed,
                        LookupError::ServFail => ResolutionStatus::ServFail,
                        LookupError::DepthExceeded => ResolutionStatus::ServFail,
                        LookupError::NoAddresses => ResolutionStatus::ServFail,
                        LookupError::TooManySteps => ResolutionStatus::ServFail,
                    }
                },
            }
        }),
{
    if let Ok(records) = result {
        selection::lemma_filter_is_selection(
            records,
            |r: RecordView| r.data.record_type() != record::TYPE_SOA,
            |r: RecordView| r.data.record_type() != 6,
        );
        selection::lemma_filter_is_selection(
            records,
            |r: RecordView| r.data.record_type() == record::TYPE_SOA,
            |r: RecordView| r.data.record_type() == 6,
        );
    }
}

/// A question about any name that the DNS allows, for any type, can be resolved, with an empty
/// cache or any other whose records can stand in messages.
pub proof fn law_any_question_can_be_resolved(
    name: Seq<Seq<u8>>,
    query_type: u16,
    entries: Map<Seq<char>, CachedValueView>,
)
    ensures
        name::valid_labels(name) ==> ResolverView::fresh(name, query_type).wf(),
        ResolverView::fresh(name, query_type).state == StateView::Begin(
            LookupView::fresh(name, query_type, 0),
        ),
        ResolverView::fresh(name, query_type).suspended.len() == 0,
        (forall|key: Seq<char>| entries.contains_key(key) ==> (#[trigger] entries[key]).wf())
            ==> cache::entries_wf(entries),
        cache::entries_wf(cache::no_entries()),
{
}

/// A question for which the cache holds nothing is sent to the first root server: the request is a
/// query for the name and the type of the question, and the cache stays as it is.
pub proof fn law_resolutions_begin_at_the_first_root(
    name: Seq<Seq<u8>>,
    query_type: u16,
    entries: Map<Seq<char>, CachedValueView>,
    reply: Option<Seq<u8>>,
    progress: Progress,
    after: Map<Seq<char>, CachedValueView>,
    now: Nanos,
    id: u16,
)
    requires
        !entries.contains_key(cache_util::cache_key(name, query_type)),
        message::encoded(iterative::query_message(name, query_type, id)) is Some,
        iterative::resumes(
            Situation { resolver: ResolverView::fresh(name, query_type), cache: entries },
            reply,
            progress,
            after,
            now,
            id,
        ),
    ensures
        after == entries,
        progress matches Progress::Exchange { resolver, request, server } && {
            &&& server == lookup::server_at(198, 41, 0, 4)
            &&& message::decoded(request@) == Some(iterative::query_message(name, query_type, id))
            &&& resolver@.state == StateView::Waiting(LookupView::fresh(name, query_type, 0), id)
        },
{
    let s = Situation { resolver: ResolverView::fresh(name, query_type), cache: entries };
    let end = choose|end: ResolverView|
        {
            &&& #[trigger] iterative::settles(
                iterative::received(s, reply, now),
                Situation { resolver: end, cache: after },
                now,
                id,
            )
            &&& iterative::reached(end, progress)
        };
    let finish = Situation { resolver: end, cache: after };
    assert(iterative::received(s, reply, now) == s);
    law_resolution_begins(name, query_type, entries, finish, now, id);
    lookup::law_root_servers();
    let key = cache_util::cache_key(name, query_type);
    assert(entries.remove(key) =~= entries);
}

/// What is sent when a resolution needs a server is the query, under the identifier that is waited
/// for, for the name that the innermost lookup has come to, to the server whose turn it is.
pub proof fn law_requests_ask_for_what_is_looked_up(
    s: Situation,
    reply: Option<Seq<u8>>,
    progress: Progress,
    after: Map<Seq<char>, CachedValueView>,
    now: Nanos,
    id: u16,
)
    requires
        iterative::resumes(s, reply, progress, after, now, id),
    ensures
        progress matches Progress::Exchange { resolver, request, server } ==> (
        resolver@.state matches StateView::Waiting(l, asked) && {
            &&& server == l.servers[l.next as int]
            &&& message::decoded(request@) == Some(
                iterative::query_message(l.current, l.query_type, asked),
            )
        }),
{
}

/// A response with records of the name that the outermost lookup has come to, and of the type asked
/// for, is the end: what is handed out is a success, whose records are the aliases followed and
/// then all of those records, and they are kept for the question for as long as their TTLs say.
pub proof fn law_records_asked_for_are_handed_out(
    s: Situation,
    reply: Option<Seq<u8>>,
    progress: Progress,
    after: Map<Seq<char>, CachedValueView>,
    now: Nanos,
    id: u16,
    m: message::MessageView,
    i: int,
)
    requires
        s.resolver.state is Waiting,
        s.resolver.suspended.len() == 0,
        reply is Some,
        message::decoded(reply->0) == Some(m),
        m.header.id == s.resolver.state->Waiting_1,
        0 <= i < m.answers.len(),
        name::same_name(m.answers[i].name, s.resolver.state->Waiting_0.current),
        m.answers[i].data.record_type() == s.resolver.state->Waiting_0.query_type,
        iterative::resumes(s, reply, progress, after, now, id),
    ensures
        ({
            let l = s.resolver.state->Waiting_0;
            let key = cache_util::cache_key(l.name, l.query_type);
            &&& progress matches Progress::Done(outcome) && {
                &&& outcome@.status == ResolutionStatus::NoError
                &&& l.query_type != 6 ==> outcome@.answers.contains(m.answers[i])
                &&& l.query_type == 6 ==> outcome@.authorities.contains(m.answers[i])
            }
            &&& after.contains_key(key)
            &&& after[key] matches CachedValueView::Answers { records, expires_at } && {
                &&& records.contains(m.answers[i])
                &&& l.collected.is_prefix_of(records)
                &&& after[key] == cache::answers_entry(records, now)
                &&& progress->Done_0@ == iterative::concluded(Ok(records))
            }
        }),
{
    let l = s.resolver.state->Waiting_0;
    let end = choose|end: ResolverView|
        {
            &&& #[trigger] iterative::settles(
                iterative::received(s, reply, now),
                Situation { resolver: end, cache: after },
                now,
                id,
            )
            &&& iterative::reached(end, progress)
        };
    let finish = Situation { resolver: end, cache: after };
    law_responses_count_by_their_identifier(reply, m.header.id);
    let response = iterative::accepted(reply, s.resolver.state->Waiting_1);
    assert(response == Some(m));
    assert(response::holds_record_of(m.answers, l.current, l.query_type));
    lookup::law_lookups_end_with_all_records_asked_for(l, m, now);
    law_responses_reach_the_lookup_that_asked(s, reply, now);
    let heard = iterative::received(s, reply, now);
    lemma_settled_stays(heard, finish, now, id);
    let records = heard.resolver.state->Ended_0->Ok_0;
    let found = records.skip(l.collected.len() as int);
    let keep = |r: RecordView|
        name::same_name(r.name, l.current) && r.data.record_type() == l.query_type;
    selection::lemma_selection_holds(m.answers, keep, |r: RecordView| r, found);
    assert(keep(m.answers[i]));
    assert(found.contains(m.answers[i]));
    let k = choose|k: int| 0 <= k < found.len() && found[k] == m.answers[i];
    let at = k + l.collected.len();
    assert(records[at] == m.answers[i]);
    law_outcomes_tell_how_the_lookup_ended(Ok(records));
    let outcome = iterative::concluded(Ok(records));
    let (other, soa) = (
        |r: RecordView| r.data.record_type() != 6,
        |r: RecordView| r.data.record_type() == 6,
    );
    selection::lemma_selection_holds(records, other, |r: RecordView| r, outcome.answers);
    selection::lemma_selection_holds(records, soa, |r: RecordView| r, outcome.authorities);
    if l.query_type != 6 {
        assert(other(records[at]));
    } else {
        assert(soa(records[at]));
    }
}

/// A lookup that begins, however deep it is nested, does so with what the cache gave, and leaves
/// those that wait for it as they are. Only an entry that has expired leaves the cache, and no
/// other entry does. The cache gives nothing but what it holds for the name and the type asked
/// for.
pub proof fn law_lookups_begin_with_what_the_cache_gave(
    s: Situation,
    entry: Option<CachedValueView>,
    now: Nanos,
    id: u16,
)
    requires
        s.resolver.state is Begin,
        s.resolver.state->Begin_0.depth <= 16,
    ensures
        ({
            let l = s.resolver.state->Begin_0;
            let key = cache_util::cache_key(l.name, l.query_type);
            let after = iterative::stepped(s, entry, now, id);
            &&& after.resolver.state == lookup::begun(l, entry, now)
            &&& after.resolver.suspended == s.resolver.suspended
            &&& after.cache == if entry is Some && entry->0.expires_at() <= now {
                s.cache.remove(key)
            } else {
                s.cache
            }
            &&& iterative::may_give(s, None)
            &&& entry is Some ==> (iterative::may_give(s, entry) <==> s.cache.contains_key(key)
                && s.cache[key] == entry->0)
            &&& iterative::held(s) is Some <==> s.cache.contains_key(key)
            &&& s.cache.contains_key(key) ==> iterative::held(s)->0 == s.cache[key]
        }),
{
}

/// A resolution that has settled takes no step.
pub proof fn law_settled_resolutions_rest(
    s: Situation,
    entry: Option<CachedValueView>,
    now: Nanos,
    id: u16,
)
    requires
        s.resolver.settled(),
    ensures
        iterative::stepped(s, entry, now, id) == s,
{
}

} // verus!
