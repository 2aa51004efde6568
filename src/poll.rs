//! Poll updates: coalescing bursts per poll, and reading vote counts.

use vstd::prelude::*;

verus! {

#[derive(Debug, PartialEq, Eq)]
pub struct PollOption {
    pub text: String,
    pub voter_count: u32,
}

/// A poll as an update reports it.
#[derive(Debug, PartialEq, Eq)]
pub struct PollData {
    pub id: String,
    pub is_closed: bool,
    pub options: Vec<PollOption>,
}

/// One poll update and its update id.
#[derive(Debug, PartialEq, Eq)]
pub struct PollUpdate {
    pub update_id: u32,
    pub poll: PollData,
}

/// Position `p` holds the update that a burst keeps for its poll: no update
/// of the same poll has a larger id, and none before it has the same id.
pub open spec fn kept_for_poll(us: Seq<PollUpdate>, p: int) -> bool {
    &&& 0 <= p < us.len()
    &&& forall|q: int|
        0 <= q < us.len() && (#[trigger] us[q]).poll.id@ == us[p].poll.id@ ==> us[q].update_id
            <= us[p].update_id
    &&& forall|q: int|
        0 <= q < p && (#[trigger] us[q]).poll.id@ == us[p].poll.id@ ==> us[q].update_id
            < us[p].update_id
}

/// Some kept position holds an update of the same poll as position `q`.
pub open spec fn covered(us: Seq<PollUpdate>, kept: Seq<usize>, q: int) -> bool {
    exists|k: int| 0 <= k < kept.len() && us[#[trigger] kept[k] as int].poll.id@ == us[q].poll.id@
}

/// Coalesces a burst of poll updates: for each poll, the position of its
/// update with the largest update id (the first of equals), one per poll.
pub fn latest_updates(us: &Vec<PollUpdate>) -> (r: Vec<usize>)
    ensures
        forall|k: int| 0 <= k < r@.len() ==> kept_for_poll(us@, #[trigger] r@[k] as int),
        forall|k: int, l: int|
            0 <= k < r@.len() && 0 <= l < r@.len() && k != l ==> us@[#[trigger] r@[k] as int].poll.id@
                != us@[#[trigger] r@[l] as int].poll.id@,
        forall|q: int| 0 <= q < us@.len() ==> #[trigger] covered(us@, r@, q),
{
    let mut kept: Vec<usize> = Vec::new();
    let mut i: usize = 0;
    while i < us.len()
        invariant
            i <= us@.len(),
            forall|k: int| 0 <= k < kept@.len() ==> #[trigger] kept@[k] < i,
            forall|k: int|
                0 <= k < kept@.len() ==> kept_for_poll(us@.subrange(0, i as int), #[trigger] kept@[k] as int),
            forall|k: int, l: int|
                0 <= k < kept@.len() && 0 <= l < kept@.len() && k != l ==> us@[#[trigger] kept@[k] as int].poll.id@
                    != us@[#[trigger] kept@[l] as int].poll.id@,
            forall|q: int| 0 <= q < i ==> #[trigger] covered(us@, kept@, q),
        decreases us@.len() - i,
    {
        let ghost pre = us@.subrange(0, i as int);
        let ghost next = us@.subrange(0, i + 1);
        let mut s: usize = 0;
        while s < kept.len() && us[kept[s]].poll.id != us[i].poll.id
            invariant
                s <= kept@.len(),
                forall|k: int| 0 <= k < kept@.len() ==> #[trigger] kept@[k] < i,
                i < us@.len(),
                forall|k: int| 0 <= k < s ==> us@[#[trigger] kept@[k] as int].poll.id@ != us@[i as int].poll.id@,
            decreases kept@.len() - s,
        {
            s = s + 1;
        }
        let ghost old_kept = kept@;
        if s == kept.len() {
            kept.push(i);
            proof {
                assert forall|k: int| 0 <= k < kept@.len() implies kept_for_poll(next, #[trigger] kept@[k] as int) by {
                    let p = kept@[k] as int;
                    if k < old_kept.len() {
                        assert(kept_for_poll(pre, p));
                        assert forall|q: int| 0 <= q < next.len() && (#[trigger] next[q]).poll.id@ == next[p].poll.id@ implies next[q].update_id <= next[p].update_id by {
                            if q < i {
                                assert(pre[q] == next[q]);
                                assert(pre[p] == next[p]);
                            }
                        }
                        assert forall|q: int| 0 <= q < p && (#[trigger] next[q]).poll.id@ == next[p].poll.id@ implies next[q].update_id < next[p].update_id by {
                            assert(pre[q] == next[q]);
                            assert(pre[p] == next[p]);
                        }
                    } else {
                        assert forall|q: int| 0 <= q < next.len() && (#[trigger] next[q]).poll.id@ == next[p].poll.id@ implies next[q].update_id <= next[p].update_id by {
                            if q < i {
                                assert(covered(us@, old_kept, q));
                            assert(covered(us@, old_kept, q));
                        let w = choose|w: int| 0 <= w < old_kept.len() && us@[#[trigger] old_kept[w] as int].poll.id@ == us@[q].poll.id@;
                                assert(kept@[w] == old_kept[w]);
                            }
                        }
                        assert forall|q: int| 0 <= q < p && (#[trigger] next[q]).poll.id@ == next[p].poll.id@ implies next[q].update_id < next[p].update_id by {
                            assert(covered(us@, old_kept, q));
                            assert(covered(us@, old_kept, q));
                        let w = choose|w: int| 0 <= w < old_kept.len() && us@[#[trigger] old_kept[w] as int].poll.id@ == us@[q].poll.id@;
                            assert(kept@[w] == old_kept[w]);
                        }
                    }
                }
                assert forall|q: int| 0 <= q < i + 1 implies #[trigger] covered(us@, kept@, q) by {
                    if q < i {
                        assert(covered(us@, old_kept, q));
                        let w = choose|w: int| 0 <= w < old_kept.len() && us@[#[trigger] old_kept[w] as int].poll.id@ == us@[q].poll.id@;
                        assert(kept@[w] == old_kept[w]);
                    } else {
                        assert(kept@[old_kept.len() as int] == i);
                    }
                }
            }
        } else {
            let current = kept[s];
            if us[current].update_id < us[i].update_id {
                kept[s] = i;
            }
            proof {
                let cur = current as int;
                assert(kept_for_poll(pre, cur));
                assert forall|k: int| 0 <= k < kept@.len() implies kept_for_poll(next, #[trigger] kept@[k] as int) by {
                    let p = kept@[k] as int;
                    if k != s {
                        assert(kept@[k] == old_kept[k]);
                        assert(kept_for_poll(pre, p));
                        assert(us@[p].poll.id@ != us@[i as int].poll.id@);
                        assert forall|q: int| 0 <= q < next.len() && (#[trigger] next[q]).poll.id@ == next[p].poll.id@ implies next[q].update_id <= next[p].update_id by {
                            if q < i {
                                assert(pre[q] == next[q]);
                            }
                        }
                        assert forall|q: int| 0 <= q < p && (#[trigger] next[q]).poll.id@ == next[p].poll.id@ implies next[q].update_id < next[p].update_id by {
                            assert(pre[q] == next[q]);
                        }
                    } else {
                        assert forall|q: int| 0 <= q < next.len() && (#[trigger] next[q]).poll.id@ == next[p].poll.id@ implies next[q].update_id <= next[p].update_id by {
                            if q < i {
                                assert(pre[q] == next[q]);
                                assert(pre[q].update_id <= pre[cur].update_id);
                            }
                        }
                        assert forall|q: int| 0 <= q < p && (#[trigger] next[q]).poll.id@ == next[p].poll.id@ implies next[q].update_id < next[p].update_id by {
                            if q < i {
                                assert(pre[q] == next[q]);
                                assert(pre[q].update_id <= pre[cur].update_id);
                                if q < cur {
                                    assert(pre[q].update_id < pre[cur].update_id);
                                }
                            }
                        }
                    }
                }
                assert forall|k: int, l: int|
                    0 <= k < kept@.len() && 0 <= l < kept@.len() && k != l implies us@[#[trigger] kept@[k] as int].poll.id@
                        != us@[#[trigger] kept@[l] as int].poll.id@ by {
                    assert(us@[old_kept[k] as int].poll.id@ != us@[old_kept[l] as int].poll.id@);
                }
                assert forall|q: int| 0 <= q < i + 1 implies #[trigger] covered(us@, kept@, q) by {
                    if q < i {
                        assert(covered(us@, old_kept, q));
                        let w = choose|w: int| 0 <= w < old_kept.len() && us@[#[trigger] old_kept[w] as int].poll.id@ == us@[q].poll.id@;
                        if w == s {
                            assert(us@[kept@[w] as int].poll.id@ == us@[q].poll.id@);
                        } else {
                            assert(kept@[w] == old_kept[w]);
                        }
                    } else {
                        assert(us@[kept@[s as int] as int].poll.id@ == us@[q].poll.id@);
                    }
                }
            }
        }
        i = i + 1;
    }
    proof {
        assert(us@.subrange(0, us@.len() as int) =~= us@);

    }
    kept
}

/// How many options of `opts` have text `t`.
pub open spec fn count_text(opts: Seq<PollOption>, t: Seq<char>) -> nat
    decreases opts.len(),
{
    if opts.len() == 0 {
        0
    } else {
        count_text(opts.drop_last(), t) + if opts.last().text@ == t {
            1nat
        } else {
            0nat
        }
    }
}

/// The voter count of the last option of `opts` with text `t`.
pub open spec fn votes_for(opts: Seq<PollOption>, t: Seq<char>) -> u32
    decreases opts.len(),
{
    if opts.len() == 0 {
        0
    } else if opts.last().text@ == t {
        opts.last().voter_count
    } else {
        votes_for(opts.drop_last(), t)
    }
}

/// The vote counts `(a, b)` a poll update records: none for a closed poll
/// (its counts are unreliable), nor unless each option text occurs exactly
/// once.
pub open spec fn poll_votes_spec(poll: PollData, a: Seq<char>, b: Seq<char>) -> Option<(u32, u32)> {
    let opts = poll.options@;
    if poll.is_closed || a == b || count_text(opts, a) != 1 || count_text(opts, b) != 1 {
        None
    } else {
        Some((votes_for(opts, a), votes_for(opts, b)))
    }
}

/// The vote counts of options `option_a` and `option_b` in a poll update.
pub fn poll_votes(poll: &PollData, option_a: &String, option_b: &String) -> (r: Option<(u32, u32)>)
    ensures
        r == poll_votes_spec(*poll, option_a@, option_b@),
        poll.is_closed ==> r is None,
{
    if poll.is_closed {
        return None;
    }
    let opts = &poll.options;
    let mut votes_a: Option<u32> = None;
    let mut votes_b: Option<u32> = None;
    let mut i: usize = 0;
    while i < opts.len()
        invariant
            opts@ == poll.options@,
            !poll.is_closed,
            i <= opts@.len(),
            count_text(opts@.subrange(0, i as int), option_a@) <= 1,
            option_a@ != option_b@ ==> count_text(opts@.subrange(0, i as int), option_b@) <= 1,
            votes_a is None <==> count_text(opts@.subrange(0, i as int), option_a@) == 0,
            votes_a matches Some(v) ==> v == votes_for(opts@.subrange(0, i as int), option_a@),
            option_a@ != option_b@ ==> (votes_b is None <==> count_text(opts@.subrange(0, i as int), option_b@) == 0),
            votes_b matches Some(v) ==> v == votes_for(opts@.subrange(0, i as int), option_b@),
            option_a@ == option_b@ ==> votes_b is None,
        decreases opts@.len() - i,
    {
        let ghost pre = opts@.subrange(0, i as int);
        let ghost next = opts@.subrange(0, i + 1);
        proof {
            assert(next.drop_last() =~= pre);
            assert(next.last() == opts@[i as int]);
        }
        if opts[i].text == *option_a {
            if votes_a.is_some() {
                proof {
                    assert(count_text(next, option_a@) == count_text(pre, option_a@) + 1);
                    lemma_count_prefix(opts@, option_a@, i + 1);
                    assert(count_text(opts@, option_a@) >= 2);

                }
                return None;
            }
            votes_a = Some(opts[i].voter_count);
        } else if opts[i].text == *option_b {
            if votes_b.is_some() {
                proof {
                    assert(count_text(next, option_b@) == count_text(pre, option_b@) + 1);
                    lemma_count_prefix(opts@, option_b@, i + 1);
                    assert(count_text(opts@, option_b@) >= 2);
                }
                return None;
            }
            votes_b = Some(opts[i].voter_count);
        }
        i = i + 1;
    }
    proof {
        assert(opts@.subrange(0, opts@.len() as int) =~= opts@);
    }
    match (votes_a, votes_b) {
        (Some(a), Some(b)) => Some((a, b)),
        _ => None,
    }
}

/// Counting over a prefix never exceeds counting over the whole.
proof fn lemma_count_prefix(opts: Seq<PollOption>, t: Seq<char>, n: int)
    requires
        0 <= n <= opts.len(),
    ensures
        count_text(opts.subrange(0, n), t) <= count_text(opts, t),
    decreases opts.len() - n,
{
    if n < opts.len() {
        lemma_count_prefix(opts, t, n + 1);
        assert(opts.subrange(0, n + 1).drop_last() =~= opts.subrange(0, n));
    } else {
        assert(opts.subrange(0, n) =~= opts);
    }
}

} // verus!
