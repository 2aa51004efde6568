//! Submission handling: which animations are accepted, how submissions are
//! recorded once per user, how votes are counted across a duplicate cluster,
//! and what the bot replies.

use crate::bracket::RankedEntry;
use crate::text::{decimal, decimal_string, signed_decimal, signed_decimal_string, times_phrase, times_text, Kaomoji};
use vstd::prelude::*;
use vstd::string::StringExecFns;

verus! {

/// `s` is one of `list`.
pub open spec fn listed(list: Seq<String>, s: Seq<char>) -> bool {
    exists|i: int| 0 <= i < list.len() && (#[trigger] list[i])@ == s
}

/// Whether `s` is one of `list`.
pub fn contains_string(list: &Vec<String>, s: &String) -> (r: bool)
    ensures
        r == listed(list@, s@),
{
    let mut i: usize = 0;
    while i < list.len()
        invariant
            i <= list@.len(),
            forall|k: int| 0 <= k < i ==> (#[trigger] list@[k])@ != s@,
        decreases list@.len() - i,
    {
        if list[i] == *s {
            return true;
        }
        i = i + 1;
    }
    false
}

pub open spec fn unknown_type_text() -> Seq<char> {
    "I\u{2019}m not designed to handle GIFs of that file type ("@
}

/// Checks an animation's MIME type against the allowed ones; on refusal the
/// error holds the reply.
pub fn check_mime_type(mime_type: Option<&String>, allowed: &Vec<String>) -> (r: Result<(), String>)
    ensures
        mime_type is None ==> (r matches Err(t) && t@
            == "I couldn\u{2019}t determine the file type of that GIF."@),
        mime_type matches Some(m) ==> if listed(allowed@, m@) {
            r is Ok
        } else {
            r matches Err(t) && t@ == unknown_type_text() + m@ + ")."@
        },
{
    match mime_type {
        None => Err(String::from_str("I couldn\u{2019}t determine the file type of that GIF.")),
        Some(m) => {
            if contains_string(allowed, m) {
                Ok(())
            } else {
                let mut t = String::from_str("I\u{2019}m not designed to handle GIFs of that file type (");
                t.append(m.as_str());
                t.append(").");
                Err(t)
            }
        },
    }
}

/// The refusal for an animation longer than `max_secs` seconds.
pub fn too_long_text(max_secs: u16) -> (r: String)
    ensures
        r@ == "GIFs longer than "@ + decimal(max_secs as nat) + " seconds are not accepted."@,
{
    let mut t = String::from_str("GIFs longer than ");
    t.append(decimal_string(max_secs as u64).as_str());
    t.append(" seconds are not accepted.");
    t
}

/// The refusal for a file over the size limit.
pub fn too_large_text() -> (r: String)
    ensures
        r@ == "The file size is too big "@ + Kaomoji::SHOCKED@,
{
    let mut t = String::from_str("The file size is too big ");
    t.append(Kaomoji::SHOCKED);
    t
}

/// How an animation stands in the confirmed duplicate table.
#[derive(Debug, Clone, Copy, PartialEq, Eq, Structural)]
pub enum DuplicateRole {
    Primary,
    Duplicate,
    Neither,
}

#[derive(Debug, Clone, PartialEq, Eq)]
pub enum HandleSubmissionError {
    /// The store breaks one of its invariants.
    DbIntegrityError(String),
    /// The sender's id does not fit the store's id type.
    InvalidUserId,
}

/// The role of an animation that is not both a primary and a duplicate.
pub open spec fn role_of(is_primary: bool, is_duplicate: bool) -> DuplicateRole {
    if is_primary {
        DuplicateRole::Primary
    } else if is_duplicate {
        DuplicateRole::Duplicate
    } else {
        DuplicateRole::Neither
    }
}

/// An animation cannot be both a primary and a duplicate.
pub fn classify_duplicate(is_primary: bool, is_duplicate: bool) -> (r: Result<
    DuplicateRole,
    HandleSubmissionError,
>)
    ensures
        is_primary && is_duplicate ==> r is Err,
        is_primary && !is_duplicate ==> r == Ok::<_, HandleSubmissionError>(DuplicateRole::Primary),
        !is_primary && is_duplicate ==> r == Ok::<_, HandleSubmissionError>(DuplicateRole::Duplicate),
        !is_primary && !is_duplicate ==> r == Ok::<_, HandleSubmissionError>(DuplicateRole::Neither),
{
    if is_primary && is_duplicate {
        Err(
            HandleSubmissionError::DbIntegrityError(
                String::from_str("animation is both primary and duplicate"),
            ),
        )
    } else if is_primary {
        Ok(DuplicateRole::Primary)
    } else if is_duplicate {
        Ok(DuplicateRole::Duplicate)
    } else {
        Ok(DuplicateRole::Neither)
    }
}

/// The store's signed id of a chat user.
pub fn user_id(id: u64) -> (r: Result<i64, HandleSubmissionError>)
    ensures
        id <= i64::MAX ==> r == Ok::<i64, HandleSubmissionError>(id as i64),
        id > i64::MAX ==> r == Err::<i64, _>(HandleSubmissionError::InvalidUserId),
{
    if id <= 9223372036854775807u64 {
        Ok(id as i64)
    } else {
        Err(HandleSubmissionError::InvalidUserId)
    }
}

/// One row of a tournament's submissions: this user votes for this animation.
#[derive(Debug, PartialEq, Eq)]
pub struct SubmissionRow {
    pub animation_id: String,
    pub submitter_id: i64,
}

pub open spec fn has_row(rows: Seq<SubmissionRow>, animation_id: Seq<char>, submitter_id: i64) -> bool {
    exists|k: int|
        0 <= k < rows.len() && (#[trigger] rows[k]).animation_id@ == animation_id
            && rows[k].submitter_id == submitter_id
}

/// No `(animation, submitter)` pair occurs twice.
pub open spec fn rows_unique(rows: Seq<SubmissionRow>) -> bool {
    forall|i: int, j: int|
        0 <= i < rows.len() && 0 <= j < rows.len() && i != j ==> !(rows[i].animation_id@
            == rows[j].animation_id@ && rows[i].submitter_id == rows[j].submitter_id)
}

/// The rows after `submitter_id` submits `animation_id`: a new row unless the
/// same pair is already there.
pub open spec fn after_submission(rows: Seq<SubmissionRow>, animation_id: String, submitter_id: i64) -> Seq<
    SubmissionRow,
> {
    if has_row(rows, animation_id@, submitter_id) {
        rows
    } else {
        rows.push(SubmissionRow { animation_id, submitter_id })
    }
}

/// The distinct users who submitted any animation of `cluster`.
pub open spec fn cluster_voters(rows: Seq<SubmissionRow>, cluster: Seq<String>) -> Set<i64> {
    Set::new(
        |u: i64|
            exists|k: int|
                0 <= k < rows.len() && (#[trigger] rows[k]).submitter_id == u && listed(
                    cluster,
                    rows[k].animation_id@,
                ),
    )
}

/// Whether this user already submitted this animation.
pub fn has_submitted(rows: &Vec<SubmissionRow>, animation_id: &String, submitter_id: i64) -> (r: bool)
    ensures
        r == has_row(rows@, animation_id@, submitter_id),
{
    let mut i: usize = 0;
    while i < rows.len()
        invariant
            i <= rows@.len(),
            forall|k: int|
                0 <= k < i ==> !((#[trigger] rows@[k]).animation_id@ == animation_id@
                    && rows@[k].submitter_id == submitter_id),
        decreases rows@.len() - i,
    {
        if rows[i].submitter_id == submitter_id && rows[i].animation_id == *animation_id {
            return true;
        }
        i = i + 1;
    }
    false
}

/// Whether this user already submitted any animation of `cluster`.
pub fn has_submitted_any(rows: &Vec<SubmissionRow>, cluster: &Vec<String>, submitter_id: i64) -> (r:
    bool)
    ensures
        r == cluster_voters(rows@, cluster@).contains(submitter_id),
{
    let mut i: usize = 0;
    while i < rows.len()
        invariant
            i <= rows@.len(),
            forall|k: int|
                0 <= k < i ==> !((#[trigger] rows@[k]).submitter_id == submitter_id && listed(
                    cluster@,
                    rows@[k].animation_id@,
                )),
        decreases rows@.len() - i,
    {
        if rows[i].submitter_id == submitter_id && contains_string(cluster, &rows[i].animation_id) {
            return true;
        }
        i = i + 1;
    }
    false
}

/// Records that `submitter_id` submitted `animation_id`, unless that pair is
/// already recorded; returns whether a row was added.
pub fn record_submission(rows: &mut Vec<SubmissionRow>, animation_id: &String, submitter_id: i64) -> (inserted: bool)
    requires
        rows_unique(old(rows)@),
    ensures
        inserted == !has_row(old(rows)@, animation_id@, submitter_id),
        final(rows)@ == after_submission(old(rows)@, *animation_id, submitter_id),
        rows_unique(final(rows)@),
        has_row(final(rows)@, animation_id@, submitter_id),
{
    if has_submitted(rows, animation_id, submitter_id) {
        false
    } else {
        rows.push(SubmissionRow { animation_id: animation_id.clone(), submitter_id });
        proof {
            let n = final(rows)@.len() - 1;
            assert(final(rows)@[n].animation_id@ == animation_id@);
        }
        true
    }
}

/// The vote weight of a cluster: the number of distinct users who submitted
/// any of its animations.
pub fn vote_weight(rows: &Vec<SubmissionRow>, cluster: &Vec<String>) -> (r: u64)
    ensures
        r as nat == cluster_voters(rows@, cluster@).len(),
        r <= rows@.len(),
{
    let ghost target = cluster_voters(rows@, cluster@);
    let mut seen: Vec<i64> = Vec::new();
    let mut i: usize = 0;
    while i < rows.len()
        invariant
            i <= rows@.len(),
            seen@.no_duplicates(),
            seen@.len() <= i,
            seen@.to_set() == cluster_voters(rows@.subrange(0, i as int), cluster@),
        decreases rows@.len() - i,
    {
        let ghost prefix = rows@.subrange(0, i as int);
        let ghost next = rows@.subrange(0, i + 1);
        let u = rows[i].submitter_id;
        let counts = contains_string(cluster, &rows[i].animation_id);
        let mut found = false;
        let mut j: usize = 0;
        while j < seen.len()
            invariant
                j <= seen@.len(),
                found == (exists|k: int| 0 <= k < j && seen@[k] == u),
            decreases seen@.len() - j,
        {
            if seen[j] == u {
                found = true;
            }
            j = j + 1;
        }
        let ghost old_seen = seen@;
        if counts && !found {
            seen.push(u);
        }
        proof {
            assert(next[i as int] == rows@[i as int]);
            assert forall|y: i64| old_seen.contains(y) implies seen@.contains(y) by {
                let k = choose|k: int| 0 <= k < old_seen.len() && old_seen[k] == y;
                assert(seen@[k] == y);
            }
            assert(counts ==> seen@.contains(u)) by {
                if counts {
                    if found {
                        let k = choose|k: int| 0 <= k < old_seen.len() && old_seen[k] == u;
                        assert(old_seen.contains(u));
                    } else {
                        assert(seen@[seen@.len() - 1] == u);
                    }
                }
            }
            assert forall|x: i64| seen@.contains(x) implies (old_seen.contains(x) || (counts
                && x == u)) by {
                let k = choose|k: int| 0 <= k < seen@.len() && seen@[k] == x;
                if k < old_seen.len() {
                    assert(old_seen[k] == x);
                }
            }
            assert forall|x: i64| #[trigger] seen@.to_set().contains(x) == cluster_voters(
                next,
                cluster@,
            ).contains(x) by {
                if cluster_voters(next, cluster@).contains(x) {
                    let k = choose|k: int|
                        0 <= k < next.len() && (#[trigger] next[k]).submitter_id == x && listed(
                            cluster@,
                            next[k].animation_id@,
                        );
                    if k < i {
                        assert(prefix[k] == next[k]);
                        assert(cluster_voters(prefix, cluster@).contains(x));
                        assert(old_seen.to_set().contains(x));
                    } else {
                        assert(k == i);
                    }
                }
                if seen@.to_set().contains(x) {
                    assert(seen@.contains(x));
                    if old_seen.contains(x) {
                        assert(old_seen.to_set().contains(x));
                        let k = choose|k: int|
                            0 <= k < prefix.len() && (#[trigger] prefix[k]).submitter_id == x
                                && listed(cluster@, prefix[k].animation_id@);
                        assert(next[k] == prefix[k]);
                    }
                }
            }
            assert(seen@.to_set() =~= cluster_voters(next, cluster@));
        }
        i = i + 1;
    }
    proof {
        assert(rows@.subrange(0, rows@.len() as int) =~= rows@);
        seen@.unique_seq_to_set();
    }
    seen.len() as u64
}

/// The reply to a submission, given whether this user had already sent this
/// GIF or a similar one, and how many distinct users have now sent it.
pub open spec fn submission_reply(already: bool, similar: bool, count: int) -> Seq<char> {
    if already {
        "You have already sent this GIF. It has been sent "@ + times_phrase(count) + "."@
    } else if similar {
        "You have already sent a similar GIF. It has been sent "@ + times_phrase(count) + "."@
    } else if count == 1 {
        "Thanks for the GIF, you are the first to send it! "@ + Kaomoji::HAPPY@
    } else if count == 2 {
        "Your vote has been counted. This GIF has now been sent twice."@
    } else {
        "Your vote has been counted. This GIF has now been sent "@ + signed_decimal(count)
            + " times."@
    }
}

pub fn submission_reply_text(already: bool, similar: bool, count: i64) -> (r: String)
    ensures
        r@ == submission_reply(already, similar, count as int),
{
    if already {
        let mut t = String::from_str("You have already sent this GIF. It has been sent ");
        t.append(times_text(count).as_str());
        t.append(".");
        t
    } else if similar {
        let mut t = String::from_str("You have already sent a similar GIF. It has been sent ");
        t.append(times_text(count).as_str());
        t.append(".");
        t
    } else if count == 1 {
        let mut t = String::from_str("Thanks for the GIF, you are the first to send it! ");
        t.append(Kaomoji::HAPPY);
        t
    } else if count == 2 {
        String::from_str("Your vote has been counted. This GIF has now been sent twice.")
    } else {
        let mut t = String::from_str("Your vote has been counted. This GIF has now been sent ");
        t.append(signed_decimal_string(count).as_str());
        t.append(" times.");
        t
    }
}

/// Submitting the same GIF twice by the same user adds at most one row: the
/// second submission leaves the rows as the first left them, and its reply is
/// the "already sent" one.
pub proof fn lemma_resubmission_idempotent(
    rows: Seq<SubmissionRow>,
    animation_id: String,
    submitter_id: i64,
    similar: bool,
    count: int,
)
    ensures
        after_submission(after_submission(rows, animation_id, submitter_id), animation_id, submitter_id)
            == after_submission(rows, animation_id, submitter_id),
        has_row(after_submission(rows, animation_id, submitter_id), animation_id@, submitter_id),
        submission_reply(
            has_row(after_submission(rows, animation_id, submitter_id), animation_id@, submitter_id),
            similar,
            count,
        ) == "You have already sent this GIF. It has been sent "@ + times_phrase(count) + "."@,
{
    let once = after_submission(rows, animation_id, submitter_id);
    if !has_row(rows, animation_id@, submitter_id) {
        let n = rows.len() as int;
        assert(once[n] == SubmissionRow { animation_id, submitter_id });
        assert(has_row(once, animation_id@, submitter_id));
    }
}

/// A confirmed duplicate: `duplicate_id` counts as `primary_id`.
#[derive(Debug, PartialEq, Eq)]
pub struct DuplicateLink {
    pub duplicate_id: String,
    pub primary_id: String,
}

/// The animation that `a` counts as: its primary if it is a confirmed
/// duplicate, else itself.
pub open spec fn canonical(links: Seq<DuplicateLink>, a: Seq<char>) -> Seq<char>
    decreases links.len(),
{
    if links.len() == 0 {
        a
    } else if links.last().duplicate_id@ == a {
        links.last().primary_id@
    } else {
        canonical(links.drop_last(), a)
    }
}

/// The distinct users who submitted an animation that counts as `id`.
pub open spec fn pool_voters(rows: Seq<SubmissionRow>, links: Seq<DuplicateLink>, id: Seq<char>) -> Set<i64> {
    Set::new(
        |u: i64|
            exists|k: int|
                0 <= k < rows.len() && (#[trigger] rows[k]).submitter_id == u && canonical(
                    links,
                    rows[k].animation_id@,
                ) == id,
    )
}

fn canonical_of(links: &Vec<DuplicateLink>, a: &String) -> (r: String)
    ensures
        r@ == canonical(links@, a@),
{
    let mut i: usize = links.len();
    proof {
        assert(links@.subrange(0, links@.len() as int) =~= links@);
    }
    while i > 0
        invariant
            i <= links@.len(),
            canonical(links@, a@) == canonical(links@.subrange(0, i as int), a@),
        decreases i,
    {
        proof {
            assert(links@.subrange(0, i as int).drop_last() =~= links@.subrange(0, i - 1));
        }
        if links[i - 1].duplicate_id == *a {
            return links[i - 1].primary_id.clone();
        }
        i = i - 1;
    }
    proof {
        assert(links@.subrange(0, 0).len() == 0);
    }
    a.clone()
}

/// Some entry of `entries` is `x`.
pub open spec fn pool_has(entries: Seq<RankedEntry>, x: Seq<char>) -> bool {
    exists|k: int| 0 <= k < entries.len() && (#[trigger] entries[k]).animation_id@ == x
}

/// Some row counts as `x`.
pub open spec fn counted(rows: Seq<SubmissionRow>, links: Seq<DuplicateLink>, x: Seq<char>) -> bool {
    exists|i: int| 0 <= i < rows.len() && canonical(links, (#[trigger] rows[i]).animation_id@) == x
}

/// Some row of `rows` is for `x`.
pub open spec fn appears(rows: Seq<SubmissionRow>, x: Seq<char>) -> bool {
    exists|q: int| 0 <= q < rows.len() && (#[trigger] rows[q]).animation_id@ == x
}

/// The entries of a tournament's submission pool: each confirmed duplicate
/// counts as its primary, and an entry weighs as many as the distinct users
/// who submitted it or one of its duplicates.
pub fn pool_entries(rows: &Vec<SubmissionRow>, links: &Vec<DuplicateLink>) -> (r: Vec<RankedEntry>)
    ensures
        forall|j: int, k: int|
            0 <= j < r@.len() && 0 <= k < r@.len() && j != k ==> (#[trigger] r@[j]).animation_id@
                != (#[trigger] r@[k]).animation_id@,
        forall|i: int|
            0 <= i < rows@.len() ==> pool_has(r@, canonical(links@, (#[trigger] rows@[i]).animation_id@)),
        forall|k: int| 0 <= k < r@.len() ==> counted(rows@, links@, (#[trigger] r@[k]).animation_id@),
        forall|k: int|
            0 <= k < r@.len() ==> (#[trigger] r@[k]).weight == pool_voters(
                rows@,
                links@,
                r@[k].animation_id@,
            ).len(),
{
    let mut canon: Vec<SubmissionRow> = Vec::new();
    let mut i: usize = 0;
    while i < rows.len()
        invariant
            i <= rows@.len(),
            canon@.len() == i,
            forall|k: int|
                0 <= k < i ==> (#[trigger] canon@[k]).animation_id@ == canonical(
                    links@,
                    rows@[k].animation_id@,
                ) && canon@[k].submitter_id == rows@[k].submitter_id,
        decreases rows@.len() - i,
    {
        let a = canonical_of(links, &rows[i].animation_id);
        canon.push(SubmissionRow { animation_id: a, submitter_id: rows[i].submitter_id });
        i = i + 1;
    }
    let mut ids: Vec<String> = Vec::new();
    let mut i: usize = 0;
    while i < canon.len()
        invariant
            i <= canon@.len(),
            canon@.len() == rows@.len(),
            forall|j: int, k: int|
                0 <= j < ids@.len() && 0 <= k < ids@.len() && j != k ==> (#[trigger] ids@[j])@
                    != (#[trigger] ids@[k])@,
            forall|q: int| 0 <= q < i ==> listed(ids@, (#[trigger] canon@[q]).animation_id@),
            forall|k: int| 0 <= k < ids@.len() ==> appears(canon@, (#[trigger] ids@[k])@),
        decreases canon@.len() - i,
    {
        let ghost before = ids@;
        if !contains_string(&ids, &canon[i].animation_id) {
            ids.push(canon[i].animation_id.clone());
            proof {
                assert forall|q: int| 0 <= q < i + 1 implies listed(ids@, (#[trigger] canon@[q]).animation_id@) by {
                    if q < i {
                        assert(listed(before, canon@[q].animation_id@));
                        let k = choose|k: int| 0 <= k < before.len() && (#[trigger] before[k])@ == canon@[q].animation_id@;
                        assert(ids@[k] == before[k]);
                    } else {
                        assert(ids@[before.len() as int] == canon@[q].animation_id);
                    }
                }
                assert forall|k: int| 0 <= k < ids@.len() implies appears(canon@, (#[trigger] ids@[k])@) by {
                    if k < before.len() {
                        assert(ids@[k] == before[k]);
                    } else {
                        assert(ids@[k]@ == canon@[i as int].animation_id@);
                    }
                }
            }
        }
        i = i + 1;
    }
    let mut out: Vec<RankedEntry> = Vec::new();
    let mut k: usize = 0;
    while k < ids.len()
        invariant
            k <= ids@.len(),
            canon@.len() == rows@.len(),
            forall|q: int|
                0 <= q < canon@.len() ==> (#[trigger] canon@[q]).animation_id@ == canonical(
                    links@,
                    rows@[q].animation_id@,
                ) && canon@[q].submitter_id == rows@[q].submitter_id,
            forall|j: int, m: int|
                0 <= j < ids@.len() && 0 <= m < ids@.len() && j != m ==> (#[trigger] ids@[j])@
                    != (#[trigger] ids@[m])@,
            forall|q: int| 0 <= q < canon@.len() ==> listed(ids@, (#[trigger] canon@[q]).animation_id@),
            forall|m: int| 0 <= m < ids@.len() ==> appears(canon@, (#[trigger] ids@[m])@),
            out@.len() == k,
            forall|j: int| 0 <= j < k ==> (#[trigger] out@[j]).animation_id == ids@[j],
            forall|j: int|
                0 <= j < k ==> (#[trigger] out@[j]).weight == pool_voters(
                    rows@,
                    links@,
                    out@[j].animation_id@,
                ).len(),
        decreases ids@.len() - k,
    {
        let id = ids[k].clone();
        let single: Vec<String> = vec![id.clone()];
        let w = vote_weight(&canon, &single);
        proof {
            assert forall|u: i64| #[trigger] cluster_voters(canon@, single@).contains(u) == pool_voters(
                rows@,
                links@,
                id@,
            ).contains(u) by {
                if cluster_voters(canon@, single@).contains(u) {
                    let q = choose|q: int|
                        0 <= q < canon@.len() && (#[trigger] canon@[q]).submitter_id == u && listed(
                            single@,
                            canon@[q].animation_id@,
                        );
                    let t = choose|t: int| 0 <= t < single@.len() && (#[trigger] single@[t])@ == canon@[q].animation_id@;
                    assert(t == 0);
                    assert(rows@[q].submitter_id == u);
                }
                if pool_voters(rows@, links@, id@).contains(u) {
                    let q = choose|q: int|
                        0 <= q < rows@.len() && (#[trigger] rows@[q]).submitter_id == u && canonical(
                            links@,
                            rows@[q].animation_id@,
                        ) == id@;
                    assert(canon@[q].submitter_id == u);
                    assert(single@[0]@ == canon@[q].animation_id@);
                    assert(listed(single@, canon@[q].animation_id@));
                }
            }
            assert(cluster_voters(canon@, single@) =~= pool_voters(rows@, links@, id@));
        }
        out.push(RankedEntry { animation_id: id, weight: w });
        k = k + 1;
    }
    proof {
        assert forall|i: int| 0 <= i < rows@.len() implies pool_has(
            out@,
            canonical(links@, (#[trigger] rows@[i]).animation_id@),
        ) by {
            assert(listed(ids@, canon@[i].animation_id@));
            let k = choose|k: int| 0 <= k < ids@.len() && (#[trigger] ids@[k])@ == canon@[i].animation_id@;
            assert(out@[k].animation_id == ids@[k]);
        }
        assert forall|k: int| 0 <= k < out@.len() implies counted(rows@, links@, (#[trigger] out@[k]).animation_id@) by {
            assert(out@[k].animation_id == ids@[k]);
            assert(appears(canon@, ids@[k]@));
            let q = choose|q: int| 0 <= q < canon@.len() && (#[trigger] canon@[q]).animation_id@ == ids@[k]@;
            assert(canon@[q].animation_id@ == canonical(links@, rows@[q].animation_id@));
        }
        assert forall|a: int, b: int|
            0 <= a < out@.len() && 0 <= b < out@.len() && a != b implies (#[trigger] out@[a]).animation_id@
                != (#[trigger] out@[b]).animation_id@ by {
            assert(out@[a].animation_id == ids@[a]);
            assert(out@[b].animation_id == ids@[b]);
        }
    }
    out
}

/// `x` is another animation of `a`'s cluster: its primary, or a confirmed
/// duplicate of that primary.
pub open spec fn similar_to(links: Seq<DuplicateLink>, a: Seq<char>, x: Seq<char>) -> bool {
    &&& x != a
    &&& (x == canonical(links, a) || (canonical(links, x) == canonical(links, a) && exists|k: int|
        0 <= k < links.len() && (#[trigger] links[k]).duplicate_id@ == x))
}

/// The other animations of `a`'s cluster, each once.
pub fn similar_animations(links: &Vec<DuplicateLink>, a: &String) -> (r: Vec<String>)
    ensures
        forall|x: Seq<char>| listed(r@, x) <==> similar_to(links@, a@, x),
        forall|j: int, k: int|
            0 <= j < r@.len() && 0 <= k < r@.len() && j != k ==> (#[trigger] r@[j])@ != (#[trigger] r@[k])@,
{
    let p = canonical_of(links, a);
    let mut out: Vec<String> = Vec::new();
    if p != *a {
        out.push(p.clone());
    }
    proof {
        assert forall|x: Seq<char>| listed(out@, x) <==> (similar_to(links@, a@, x) && (x == p@
            || exists|m: int| 0 <= m < 0 && (#[trigger] links@[m]).duplicate_id@ == x)) by {
            if listed(out@, x) {
                let i = choose|i: int| 0 <= i < out@.len() && (#[trigger] out@[i])@ == x;
                assert(i == 0);
            }
            if x == p@ && x != a@ {
                assert(out@[0]@ == x);
            }
        }
    }
    let mut k: usize = 0;
    while k < links.len()
        invariant
            k <= links@.len(),
            p@ == canonical(links@, a@),
            forall|x: Seq<char>|
                listed(out@, x) <==> (similar_to(links@, a@, x) && (x == p@ || exists|m: int|
                    0 <= m < k && (#[trigger] links@[m]).duplicate_id@ == x)),
            forall|j: int, i: int|
                0 <= j < out@.len() && 0 <= i < out@.len() && j != i ==> (#[trigger] out@[j])@ != (#[trigger] out@[i])@,
        decreases links@.len() - k,
    {
        let d = &links[k].duplicate_id;
        let ghost before = out@;
        if *d != *a && canonical_of(links, d) == p && !contains_string(&out, d) {
            out.push(d.clone());
            proof {
                assert forall|x: Seq<char>| listed(out@, x) <==> (similar_to(links@, a@, x) && (x == p@
                    || exists|m: int| 0 <= m < k + 1 && (#[trigger] links@[m]).duplicate_id@ == x)) by {
                    if listed(out@, x) {
                        let i = choose|i: int| 0 <= i < out@.len() && (#[trigger] out@[i])@ == x;
                        if i < before.len() {
                            assert(listed(before, x));
                        } else {
                            assert(links@[k as int].duplicate_id@ == x);
                        }
                    }
                    if similar_to(links@, a@, x) && (x == p@ || exists|m: int|
                        0 <= m < k + 1 && (#[trigger] links@[m]).duplicate_id@ == x) {
                        if x == d@ {
                            assert(out@[before.len() as int]@ == x);
                        } else {
                            if x != p@ {
                                let m = choose|m: int| 0 <= m < k + 1 && (#[trigger] links@[m]).duplicate_id@ == x;
                                assert(m < k);
                            }
                            assert(listed(before, x));
                            let i = choose|i: int| 0 <= i < before.len() && (#[trigger] before[i])@ == x;
                            assert(out@[i] == before[i]);
                        }
                    }
                }
            }
        } else {
            proof {
                assert forall|x: Seq<char>| listed(out@, x) <==> (similar_to(links@, a@, x) && (x == p@
                    || exists|m: int| 0 <= m < k + 1 && (#[trigger] links@[m]).duplicate_id@ == x)) by {
                    if similar_to(links@, a@, x) && x != p@ && (exists|m: int|
                        0 <= m < k + 1 && (#[trigger] links@[m]).duplicate_id@ == x) {
                        let m = choose|m: int| 0 <= m < k + 1 && (#[trigger] links@[m]).duplicate_id@ == x;
                        if m == k {
                            assert(x == d@);
                        }
                    }
                }
            }
        }
        k = k + 1;
    }
    proof {
        assert forall|x: Seq<char>| listed(out@, x) <==> similar_to(links@, a@, x) by {
            if similar_to(links@, a@, x) && x != p@ {
                let m = choose|m: int| 0 <= m < links@.len() && (#[trigger] links@[m]).duplicate_id@ == x;
                assert(0 <= m < k);
            }
        }
    }
    out
}

/// `a` is the primary of some confirmed duplicate.
pub open spec fn is_primary_in(links: Seq<DuplicateLink>, a: Seq<char>) -> bool {
    exists|k: int| 0 <= k < links.len() && (#[trigger] links[k]).primary_id@ == a
}

/// `a` is a confirmed duplicate.
pub open spec fn is_duplicate_in(links: Seq<DuplicateLink>, a: Seq<char>) -> bool {
    exists|k: int| 0 <= k < links.len() && (#[trigger] links[k]).duplicate_id@ == a
}

/// How `a` stands among the confirmed duplicates.
pub fn duplicate_role(links: &Vec<DuplicateLink>, a: &String) -> (r: Result<
    DuplicateRole,
    HandleSubmissionError,
>)
    ensures
        is_primary_in(links@, a@) && is_duplicate_in(links@, a@) ==> r is Err,
        !(is_primary_in(links@, a@) && is_duplicate_in(links@, a@)) ==> r == Ok::<
            _,
            HandleSubmissionError,
        >(role_of(is_primary_in(links@, a@), is_duplicate_in(links@, a@))),
{
    let mut primary = false;
    let mut duplicate = false;
    let mut k: usize = 0;
    while k < links.len()
        invariant
            k <= links@.len(),
            primary == exists|m: int| 0 <= m < k && (#[trigger] links@[m]).primary_id@ == a@,
            duplicate == exists|m: int| 0 <= m < k && (#[trigger] links@[m]).duplicate_id@ == a@,
        decreases links@.len() - k,
    {
        if links[k].primary_id == *a {
            primary = true;
        }
        if links[k].duplicate_id == *a {
            duplicate = true;
        }
        k = k + 1;
    }
    classify_duplicate(primary, duplicate)
}

/// Whether no `(animation, submitter)` pair occurs twice.
pub fn rows_are_unique(rows: &Vec<SubmissionRow>) -> (r: bool)
    ensures
        r == rows_unique(rows@),
{
    let mut i: usize = 0;
    while i < rows.len()
        invariant
            i <= rows@.len(),
            forall|a: int, b: int|
                0 <= a < i && 0 <= b < rows@.len() && a != b ==> !(rows@[a].animation_id@
                    == rows@[b].animation_id@ && rows@[a].submitter_id == rows@[b].submitter_id),
        decreases rows@.len() - i,
    {
        let mut j: usize = 0;
        while j < rows.len()
            invariant
                i < rows@.len(),
                j <= rows@.len(),
                forall|b: int|
                    0 <= b < j && b != i ==> !(rows@[i as int].animation_id@ == rows@[b].animation_id@
                        && rows@[i as int].submitter_id == rows@[b].submitter_id),
            decreases rows@.len() - j,
        {
            if j != i && rows[j].submitter_id == rows[i].submitter_id && rows[j].animation_id
                == rows[i].animation_id {
                return false;
            }
            j = j + 1;
        }
        i = i + 1;
    }
    true
}

} // verus!
