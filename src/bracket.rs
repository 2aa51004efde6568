//! Seeded single-elimination brackets: seed order, matchup index layout and
//! round promotion.

use vstd::prelude::*;
use vstd::string::StringExecFns;

verus! {

/// `2^n`.
pub open spec fn pow2(n: nat) -> nat
    decreases n,
{
    if n == 0 {
        1
    } else {
        2 * pow2((n - 1) as nat)
    }
}

/// One doubling step of the canonical seed order: each seed `s` is followed by
/// its opponent `n - 1 - s`, where `n` is twice the old length.
pub open spec fn expand_seeds(s: Seq<int>) -> Seq<int> {
    Seq::new(
        2 * s.len(),
        |i: int|
            if i % 2 == 0 {
                s[i / 2]
            } else {
                2 * s.len() - 1 - s[i / 2]
            },
    )
}

/// The canonical seed order for a bracket of `rounds` rounds: `[0, 1]` for
/// one round (or fewer), then one doubling step per further round.
pub open spec fn seeds(rounds: nat) -> Seq<int>
    decreases rounds,
{
    if rounds <= 1 {
        seq![0int, 1int]
    } else {
        expand_seeds(seeds((rounds - 1) as nat))
    }
}

/// `s` holds each of `0..n` exactly once.
pub open spec fn is_permutation_of_range(s: Seq<int>, n: nat) -> bool {
    &&& s.len() == n
    &&& forall|i: int| 0 <= i < s.len() ==> 0 <= #[trigger] s[i] < n
    &&& forall|i: int, j: int| 0 <= i < s.len() && 0 <= j < s.len() && i != j ==> s[i] != s[j]
}

/// Paired seeds `s[2k]` and `s[2k + 1]` always add up to `n - 1`.
pub open spec fn pairs_sum_to(s: Seq<int>, n: nat) -> bool {
    forall|k: int| 0 <= k < s.len() / 2 ==> #[trigger] s[2 * k] + s[2 * k + 1] == n - 1
}

pub proof fn lemma_pow2_positive(n: nat)
    ensures
        pow2(n) >= 1,
    decreases n,
{
    if n > 0 {
        lemma_pow2_positive((n - 1) as nat);
    }
}

/// The seed order of a bracket with `rounds >= 1` rounds is a permutation of
/// `0..2^rounds`, and each first-round pair `(s[2k], s[2k + 1])` adds up to
/// `2^rounds - 1`.
pub proof fn lemma_seeds_permutation(rounds: nat)
    requires
        rounds >= 1,
    ensures
        is_permutation_of_range(seeds(rounds), pow2(rounds)),
        pairs_sum_to(seeds(rounds), pow2(rounds)),
    decreases rounds,
{
    reveal_with_fuel(pow2, 2);
    if rounds == 1 {
        let s = seeds(1);
        assert(s =~= seq![0int, 1int]);
        assert forall|k: int| 0 <= k < s.len() / 2 implies #[trigger] s[2 * k] + s[2 * k + 1]
            == pow2(1) - 1 by {
            assert(k == 0);
        }
    } else {
        let prev = seeds((rounds - 1) as nat);
        lemma_seeds_permutation((rounds - 1) as nat);
        let s = seeds(rounds);
        let n = pow2(rounds);
        assert(s == expand_seeds(prev));
        assert(n == 2 * prev.len());
        assert forall|i: int| 0 <= i < s.len() implies 0 <= #[trigger] s[i] < n by {
            assert(0 <= prev[i / 2] < prev.len());
        }
        assert forall|i: int, j: int|
            0 <= i < s.len() && 0 <= j < s.len() && i != j implies s[i] != s[j] by {
            assert(0 <= prev[i / 2] < prev.len());
            assert(0 <= prev[j / 2] < prev.len());
            if i / 2 != j / 2 {
                assert(prev[i / 2] != prev[j / 2]);
            }
        }
        assert forall|k: int| 0 <= k < s.len() / 2 implies #[trigger] s[2 * k] + s[2 * k + 1]
            == n - 1 by {
            assert((2 * k) / 2 == k);
            assert((2 * k + 1) / 2 == k);
            assert((2 * k) % 2 == 0);
            assert((2 * k + 1) % 2 == 1);
        }
    }
}

#[derive(Debug, Clone, Copy, PartialEq, Eq, Structural)]
pub enum GenerateSeedsError {
    /// The bracket would need more seeds than a `u32` can count.
    TooManyRounds(u32),
}

/// The canonical seed order for `rounds` rounds. Fails only when `2^rounds`
/// does not fit in a `u32`.
pub fn generate_seeds(rounds: u32) -> (r: Result<Vec<u32>, GenerateSeedsError>)
    ensures
        rounds <= 31 ==> r is Ok,
        rounds > 31 ==> r == Err::<Vec<u32>, _>(GenerateSeedsError::TooManyRounds(rounds)),
        r matches Ok(v) ==> v@.len() == seeds(rounds as nat).len() && forall|i: int|
            0 <= i < v@.len() ==> v@[i] as int == #[trigger] seeds(rounds as nat)[i],
{
    if rounds > 31 {
        return Err(GenerateSeedsError::TooManyRounds(rounds));
    }
    let mut current: Vec<u32> = vec![0, 1];
    let mut round: u32 = 2;
    proof {
        reveal_with_fuel(pow2, 2);
        assert(current@.len() == 2);
    }
    while round <= rounds
        invariant
            2 <= round,
            round <= rounds + 1 || rounds <= 1,
            rounds <= 1 ==> round == 2,
            round <= 32,
            current@.len() == seeds((round - 1) as nat).len(),
            current@.len() == pow2((round - 1) as nat),
            forall|i: int|
                0 <= i < current@.len() ==> current@[i] as int == #[trigger] seeds(
                    (round - 1) as nat,
                )[i],
        decreases rounds + 1 - round,
    {
        let ghost prev = seeds((round - 1) as nat);
        proof {
            lemma_pow2_bounds((round - 1) as nat);
        }
        let new_len: u64 = (current.len() as u64) * 2;
        if new_len > 4294967295u64 {
            return Err(GenerateSeedsError::TooManyRounds(rounds));
        }
        proof {
            lemma_seeds_permutation((round - 1) as nat);
        }
        let n: u32 = new_len as u32;
        let mut next: Vec<u32> = Vec::new();
        let mut j: usize = 0;
        while j < current.len()
            invariant
                j <= current@.len(),
                n as int == 2 * current@.len(),
                current@.len() == prev.len(),
                is_permutation_of_range(prev, prev.len()),
                forall|i: int| 0 <= i < current@.len() ==> current@[i] as int == #[trigger] prev[i],
                next@.len() == 2 * j,
                forall|i: int|
                    0 <= i < next@.len() ==> next@[i] as int == #[trigger] expand_seeds(prev)[i],
            decreases current@.len() - j,
        {
            let seed = current[j];
            assert(prev[j as int] == seed as int);
            assert(0 <= prev[j as int] < prev.len());
            next.push(seed);
            next.push(n - seed - 1);
            proof {
                assert((2 * j as int) / 2 == j as int);
                assert((2 * j as int + 1) / 2 == j as int);
                assert((2 * j as int) % 2 == 0);
                assert((2 * j as int + 1) % 2 == 1);
            }
            j = j + 1;
        }
        current = next;
        proof {
            assert(seeds(round as nat) == expand_seeds(prev));
        }
        round = round + 1;
    }
    proof {
        reveal_with_fuel(seeds, 2);
        if rounds <= 1 {
            assert(round == 2);
            assert(seeds(rounds as nat) == seeds(1));
        } else {
            assert(round == rounds + 1);
        }
    }
    Ok(current)
}

/// Bounds on `2^n` near the largest round counts.
pub proof fn lemma_pow2_bounds_pub(n: nat)
    ensures
        n <= 30 ==> pow2(n) <= 1073741824,
        n == 31 ==> pow2(n) == 2147483648,
{
    lemma_pow2_bounds(n);
}

proof fn lemma_pow2_bounds(n: nat)
    ensures
        n <= 30 ==> pow2(n) <= 1073741824,
        n == 31 ==> pow2(n) == 2147483648,
{
    assert(pow2(0) == 1);
    assert(pow2(1) == 2);
    assert(pow2(2) == 4);
    assert(pow2(3) == 8);
    assert(pow2(4) == 16);
    assert(pow2(5) == 32);
    assert(pow2(6) == 64);
    assert(pow2(7) == 128);
    assert(pow2(8) == 256);
    assert(pow2(9) == 512);
    assert(pow2(10) == 1024);
    assert(pow2(11) == 2048);
    assert(pow2(12) == 4096);
    assert(pow2(13) == 8192);
    assert(pow2(14) == 16384);
    assert(pow2(15) == 32768);
    assert(pow2(16) == 65536);
    assert(pow2(17) == 131072);
    assert(pow2(18) == 262144);
    assert(pow2(19) == 524288);
    assert(pow2(20) == 1048576);
    assert(pow2(21) == 2097152);
    assert(pow2(22) == 4194304);
    assert(pow2(23) == 8388608);
    assert(pow2(24) == 16777216);
    assert(pow2(25) == 33554432);
    assert(pow2(26) == 67108864);
    assert(pow2(27) == 134217728);
    assert(pow2(28) == 268435456);
    assert(pow2(29) == 536870912);
    assert(pow2(30) == 1073741824);
    assert(pow2(31) == 2147483648);
    if n <= 30 {
        lemma_pow2_monotone(n, 30);
    }
}

/// First index of round `round` in a bracket of `rounds` rounds. Rounds are
/// laid out from the first round (`rounds`) down to the final (round 1), so
/// round `r` starts after the `2^(rounds-1) + ... + 2^r` matchups of the
/// rounds before it.
pub open spec fn round_start(rounds: nat, round: nat) -> int {
    pow2(rounds) - pow2(round)
}

/// Matchup `index` belongs to round `round`.
pub open spec fn in_round(rounds: nat, round: nat, index: int) -> bool {
    &&& 1 <= round <= rounds
    &&& round_start(rounds, round) <= index < round_start(rounds, round) + pow2(
        (round - 1) as nat,
    )
}

pub proof fn lemma_pow2_monotone(a: nat, b: nat)
    requires
        a <= b,
    ensures
        pow2(a) <= pow2(b),
    decreases b,
{
    if a < b {
        lemma_pow2_monotone(a, (b - 1) as nat);
    }
}

proof fn lemma_pow2_62()
    ensures
        pow2(62) == 4611686018427387904,
{
    assert(pow2(0) == 1);
    assert(pow2(1) == 2);
    assert(pow2(2) == 4);
    assert(pow2(3) == 8);
    assert(pow2(4) == 16);
    assert(pow2(5) == 32);
    assert(pow2(6) == 64);
    assert(pow2(7) == 128);
    assert(pow2(8) == 256);
    assert(pow2(9) == 512);
    assert(pow2(10) == 1024);
    assert(pow2(11) == 2048);
    assert(pow2(12) == 4096);
    assert(pow2(13) == 8192);
    assert(pow2(14) == 16384);
    assert(pow2(15) == 32768);
    assert(pow2(16) == 65536);
    assert(pow2(17) == 131072);
    assert(pow2(18) == 262144);
    assert(pow2(19) == 524288);
    assert(pow2(20) == 1048576);
    assert(pow2(21) == 2097152);
    assert(pow2(22) == 4194304);
    assert(pow2(23) == 8388608);
    assert(pow2(24) == 16777216);
    assert(pow2(25) == 33554432);
    assert(pow2(26) == 67108864);
    assert(pow2(27) == 134217728);
    assert(pow2(28) == 268435456);
    assert(pow2(29) == 536870912);
    assert(pow2(30) == 1073741824);
    assert(pow2(31) == 2147483648);
    assert(pow2(32) == 4294967296);
    assert(pow2(33) == 8589934592);
    assert(pow2(34) == 17179869184);
    assert(pow2(35) == 34359738368);
    assert(pow2(36) == 68719476736);
    assert(pow2(37) == 137438953472);
    assert(pow2(38) == 274877906944);
    assert(pow2(39) == 549755813888);
    assert(pow2(40) == 1099511627776);
    assert(pow2(41) == 2199023255552);
    assert(pow2(42) == 4398046511104);
    assert(pow2(43) == 8796093022208);
    assert(pow2(44) == 17592186044416);
    assert(pow2(45) == 35184372088832);
    assert(pow2(46) == 70368744177664);
    assert(pow2(47) == 140737488355328);
    assert(pow2(48) == 281474976710656);
    assert(pow2(49) == 562949953421312);
    assert(pow2(50) == 1125899906842624);
    assert(pow2(51) == 2251799813685248);
    assert(pow2(52) == 4503599627370496);
    assert(pow2(53) == 9007199254740992);
    assert(pow2(54) == 18014398509481984);
    assert(pow2(55) == 36028797018963968);
    assert(pow2(56) == 72057594037927936);
    assert(pow2(57) == 144115188075855872);
    assert(pow2(58) == 288230376151711744);
    assert(pow2(59) == 576460752303423488);
    assert(pow2(60) == 1152921504606846976);
    assert(pow2(61) == 2305843009213693952);
    assert(pow2(62) == 4611686018427387904);
}

/// `2^e` as a machine integer.
pub fn pow2_u64(e: u32) -> (r: u64)
    requires
        e <= 63,
    ensures
        r as nat == pow2(e as nat),
{
    let mut r: u64 = 1;
    let mut i: u32 = 0;
    while i < e
        invariant
            i <= e,
            e <= 63,
            r as nat == pow2(i as nat),
        decreases e - i,
    {
        proof {
            lemma_pow2_monotone(i as nat, 62);
            lemma_pow2_62();
            assert(pow2((i + 1) as nat) == 2 * pow2(i as nat));
        }
        r = r * 2;
        i = i + 1;
    }
    r
}

/// A matchup as the bracket builder lays it out, before any poll is sent.
#[derive(Debug, Clone, PartialEq, Eq)]
pub struct PlannedMatchup {
    pub index: u32,
    pub round: u32,
    pub animation_a_id: Option<String>,
    pub animation_b_id: Option<String>,
    pub duration_secs: u16,
}

#[derive(Debug, Clone, PartialEq, Eq)]
pub enum CreateBracketError {
    /// Fewer distinct entries than the bracket has slots: `(entries, slots)`.
    NotEnoughSubmissions(usize, u32),
    /// The round count does not fit the integer types of the bracket.
    ConvertError,
    /// No round length is configured for a round of the bracket.
    UnexpectedIndex,
}

/// The matchup list of a bracket of `rounds` rounds over the ranked entry
/// list `ranked` (heaviest first), with the configured round lengths.
pub open spec fn bracket_spec(
    ranked: Seq<String>,
    rounds: nat,
    round_lengths: Seq<u16>,
    r: Seq<PlannedMatchup>,
) -> bool {
    &&& r.len() == pow2(rounds) - 1
    &&& forall|i: int|
        0 <= i < r.len() ==> {
            let m = #[trigger] r[i];
            &&& m.index == i
            &&& in_round(rounds, m.round as nat, i)
            &&& m.duration_secs == round_lengths[m.round - 1]
            &&& if m.round == rounds {
                &&& m.animation_a_id == Some(ranked[seeds(rounds)[2 * i]])
                &&& m.animation_b_id == Some(ranked[seeds(rounds)[2 * i + 1]])
            } else {
                &&& m.animation_a_id is None
                &&& m.animation_b_id is None
            }
        }
}

/// With distinct ranked entries, no matchup of a built bracket pits an
/// animation against itself.
pub proof fn lemma_bracket_sides_differ(
    ranked: Seq<String>,
    rounds: nat,
    round_lengths: Seq<u16>,
    r: Seq<PlannedMatchup>,
)
    requires
        rounds >= 1,
        ranked.len() >= pow2(rounds),
        bracket_spec(ranked, rounds, round_lengths, r),
        forall|i: int, j: int| 0 <= i < j < ranked.len() ==> ranked[i]@ != ranked[j]@,
    ensures
        forall|k: int|
            0 <= k < r.len() ==> match ((#[trigger] r[k]).animation_a_id, r[k].animation_b_id) {
                (Some(a), Some(b)) => a@ != b@,
                _ => true,
            },
{
    lemma_seeds_permutation(rounds);
    reveal_with_fuel(pow2, 2);
    assert forall|k: int| 0 <= k < r.len() implies match ((#[trigger] r[k]).animation_a_id, r[k].animation_b_id) {
        (Some(a), Some(b)) => a@ != b@,
        _ => true,
    } by {
        let m = r[k];
        if m.round == rounds {
            let s = seeds(rounds);
            assert(round_start(rounds, rounds) == 0);
            assert(pow2(rounds) == 2 * pow2((rounds - 1) as nat));
            assert(0 <= 2 * k + 1 < s.len());
            assert(s[2 * k] != s[2 * k + 1]);
            assert(0 <= s[2 * k] < pow2(rounds));
            assert(0 <= s[2 * k + 1] < pow2(rounds));
            if s[2 * k] < s[2 * k + 1] {
                assert(ranked[s[2 * k]]@ != ranked[s[2 * k + 1]]@);
            } else {
                assert(ranked[s[2 * k + 1]]@ != ranked[s[2 * k]]@);
            }
        }
    }
}

/// Builds the bracket: `2^(rounds-1)` first-round matchups paired by the
/// canonical seed order, then empty matchups for each later round down to the
/// final, indexed densely from 0.
pub fn build_bracket(ranked: &Vec<String>, rounds: u32, round_lengths: &Vec<u16>) -> (r: Result<
    Vec<PlannedMatchup>,
    CreateBracketError,
>)
    requires
        rounds >= 1,
    ensures
        rounds > 31 ==> r == Err::<Vec<PlannedMatchup>, _>(CreateBracketError::ConvertError),
        rounds <= 31 && ranked@.len() < pow2(rounds as nat) ==> r == Err::<
            Vec<PlannedMatchup>,
            _,
        >(CreateBracketError::NotEnoughSubmissions(ranked@.len() as usize, pow2(rounds as nat) as u32)),
        rounds <= 31 && ranked@.len() >= pow2(rounds as nat) && round_lengths@.len() < rounds
            ==> r == Err::<Vec<PlannedMatchup>, _>(CreateBracketError::UnexpectedIndex),
        rounds <= 31 && ranked@.len() >= pow2(rounds as nat) && round_lengths@.len() >= rounds
            ==> r is Ok,
        r matches Ok(v) ==> bracket_spec(ranked@, rounds as nat, round_lengths@, v@),
{
    if rounds > 31 {
        return Err(CreateBracketError::ConvertError);
    }
    let slots: u64 = pow2_u64(rounds);
    proof {
        lemma_pow2_bounds(rounds as nat);
        lemma_pow2_monotone(rounds as nat, 31);
    }
    if (ranked.len() as u64) < slots {
        return Err(CreateBracketError::NotEnoughSubmissions(ranked.len(), slots as u32));
    }
    if round_lengths.len() < rounds as usize {
        return Err(CreateBracketError::UnexpectedIndex);
    }
    let seeds_v = match generate_seeds(rounds) {
        Ok(v) => v,
        Err(_) => return Err(CreateBracketError::ConvertError),
    };
    proof {
        lemma_seeds_permutation(rounds as nat);
        lemma_pow2_positive(rounds as nat);
    }
    let ghost rs = seeds(rounds as nat);
    let half: u64 = slots / 2;
    proof {
        reveal_with_fuel(pow2, 2);
        assert(pow2(rounds as nat) == 2 * pow2((rounds - 1) as nat));
    }
    let first_len: u16 = round_lengths[rounds as usize - 1];
    let mut out: Vec<PlannedMatchup> = Vec::new();
    let mut i: u64 = 0;
    while i < half
        invariant
            1 <= rounds <= 31,
            slots == pow2(rounds as nat),
            half == pow2((rounds - 1) as nat),
            slots == 2 * half,
            slots <= 2147483648,
            ranked@.len() >= slots,
            round_lengths@.len() >= rounds,
            first_len == round_lengths@[rounds - 1],
            rs == seeds(rounds as nat),
            is_permutation_of_range(rs, slots as nat),
            seeds_v@.len() == rs.len(),
            forall|k: int| 0 <= k < seeds_v@.len() ==> seeds_v@[k] as int == #[trigger] rs[k],
            i <= half,
            out@.len() == i,
            forall|k: int|
                0 <= k < out@.len() ==> {
                    let m = #[trigger] out@[k];
                    &&& m.index == k
                    &&& m.round == rounds
                    &&& m.duration_secs == first_len
                    &&& m.animation_a_id == Some(ranked@[rs[2 * k]])
                    &&& m.animation_b_id == Some(ranked@[rs[2 * k + 1]])
                },
        decreases half - i,
    {
        let s1 = seeds_v[(2 * i) as usize];
        let s2 = seeds_v[(2 * i + 1) as usize];
        assert(0 <= rs[2 * i as int] < slots);
        assert(0 <= rs[2 * i as int + 1] < slots);
        let a = ranked[s1 as usize].clone();
        let b = ranked[s2 as usize].clone();
        out.push(
            PlannedMatchup {
                index: i as u32,
                round: rounds,
                animation_a_id: Some(a),
                animation_b_id: Some(b),
                duration_secs: first_len,
            },
        );
        i = i + 1;
    }
    let mut round: u32 = rounds - 1;
    let mut index: u64 = half;
    proof {
        reveal_with_fuel(pow2, 2);
    }
    while round >= 1
        invariant
            1 <= rounds <= 31,
            round < rounds,
            slots == pow2(rounds as nat),
            slots <= 2147483648,
            half == pow2((rounds - 1) as nat),
            round_lengths@.len() >= rounds,
            index == slots - pow2(round as nat),
            out@.len() == index,
            forall|k: int|
                0 <= k < out@.len() ==> {
                    let m = #[trigger] out@[k];
                    &&& m.index == k
                    &&& round < m.round <= rounds
                    &&& in_round(rounds as nat, m.round as nat, k)
                    &&& m.duration_secs == round_lengths@[m.round - 1]
                    &&& if m.round == rounds {
                        &&& m.animation_a_id == Some(ranked@[seeds(rounds as nat)[2 * k]])
                        &&& m.animation_b_id == Some(ranked@[seeds(rounds as nat)[2 * k + 1]])
                    } else {
                        &&& m.animation_a_id is None
                        &&& m.animation_b_id is None
                    }
                },
        decreases round,
    {
        let count: u64 = pow2_u64(round - 1);
        let len: u16 = round_lengths[round as usize - 1];
        proof {
            reveal_with_fuel(pow2, 2);
            lemma_pow2_monotone(round as nat, rounds as nat);
        }
        let ghost start = index;
        let mut j: u64 = 0;
        while j < count
            invariant
                1 <= round < rounds <= 31,
                slots == pow2(rounds as nat),
                slots <= 2147483648,
                count == pow2((round - 1) as nat),
                pow2(round as nat) == 2 * count,
                start == slots - pow2(round as nat),
                index == start + j,
                j <= count,
                len == round_lengths@[round - 1],
                round_lengths@.len() >= rounds,
                out@.len() == index,
                forall|k: int|
                    0 <= k < out@.len() ==> {
                        let m = #[trigger] out@[k];
                        &&& m.index == k
                        &&& round <= m.round <= rounds
                        &&& in_round(rounds as nat, m.round as nat, k)
                        &&& m.duration_secs == round_lengths@[m.round - 1]
                        &&& if m.round == rounds {
                            &&& m.animation_a_id == Some(ranked@[seeds(rounds as nat)[2 * k]])
                            &&& m.animation_b_id == Some(
                                ranked@[seeds(rounds as nat)[2 * k + 1]],
                            )
                        } else {
                            &&& m.animation_a_id is None
                            &&& m.animation_b_id is None
                        }
                    },
            decreases count - j,
        {
            out.push(
                PlannedMatchup {
                    index: index as u32,
                    round: round,
                    animation_a_id: None,
                    animation_b_id: None,
                    duration_secs: len,
                },
            );
            index = index + 1;
            j = j + 1;
        }
        round = round - 1;
    }
    proof {
        reveal_with_fuel(pow2, 2);
        assert(pow2(0) == 1);
    }
    Ok(out)
}

/// A finished matchup of the round before the one being promoted, as read
/// back from the store.
#[derive(Debug, Clone, PartialEq, Eq)]
pub struct FeederMatchup {
    pub index: i32,
    pub animation_a_id: Option<String>,
    pub animation_b_id: Option<String>,
    pub animation_a_votes: Option<i32>,
    pub animation_b_votes: Option<i32>,
}

/// The two animations that meet in matchup `index` of the promoted round.
#[derive(Debug, Clone, PartialEq, Eq)]
pub struct RoundPairing {
    pub index: u32,
    pub animation_a_id: String,
    pub animation_b_id: String,
}

#[derive(Debug, Clone, PartialEq, Eq)]
pub enum CalculateNewRoundMatchupsError {
    /// A feeder matchup lacks an animation or a vote count, or ended in a tie.
    DbIntegrityError(String),
    /// The round numbers do not describe a round after the first.
    InvalidTotalRounds,
    /// No feeder matchup has this index.
    MissingMatchup(u32),
}

pub open spec fn is_complete(m: FeederMatchup) -> bool {
    &&& m.animation_a_id is Some
    &&& m.animation_b_id is Some
    &&& m.animation_a_votes is Some
    &&& m.animation_b_votes is Some
}

/// The side with more votes; `None` on a tie or an incomplete matchup.
pub open spec fn winner_of(m: FeederMatchup) -> Option<String> {
    if !is_complete(m) {
        None
    } else if m.animation_a_votes.unwrap() > m.animation_b_votes.unwrap() {
        m.animation_a_id
    } else if m.animation_a_votes.unwrap() < m.animation_b_votes.unwrap() {
        m.animation_b_id
    } else {
        None
    }
}

/// `p` is the first position of `rows` holding matchup `index`.
pub open spec fn first_at(rows: Seq<FeederMatchup>, index: int, p: int) -> bool {
    &&& 0 <= p < rows.len()
    &&& rows[p].index == index
    &&& forall|q: int| 0 <= q < p ==> #[trigger] rows[q].index != index
}

/// The winner of the first row holding matchup `index`, if there is one.
pub open spec fn feeder_winner(rows: Seq<FeederMatchup>, index: int) -> Option<String> {
    if exists|p: int| first_at(rows, index, p) {
        winner_of(rows[choose|p: int| first_at(rows, index, p)])
    } else {
        None
    }
}

/// Some row holds matchup `index`.
pub open spec fn has_index(rows: Seq<FeederMatchup>, index: int) -> bool {
    exists|q: int| 0 <= q < rows.len() && rows[q].index == index
}

pub open spec fn valid_promotion(total_rounds: int, round: int) -> bool {
    1 <= round < total_rounds <= 31
}

fn find_row(rows: &Vec<FeederMatchup>, index: i32) -> (r: Option<usize>)
    ensures
        r matches Some(p) ==> first_at(rows@, index as int, p as int),
        r is None ==> forall|q: int| 0 <= q < rows@.len() ==> #[trigger] rows@[q].index != index,
{
    let mut i: usize = 0;
    while i < rows.len()
        invariant
            i <= rows@.len(),
            forall|q: int| 0 <= q < i ==> #[trigger] rows@[q].index != index,
        decreases rows@.len() - i,
    {
        if rows[i].index == index {
            return Some(i);
        }
        i = i + 1;
    }
    None
}

fn row_winner(m: &FeederMatchup) -> (r: Option<String>)
    requires
        is_complete(*m),
    ensures
        r == winner_of(*m),
{
    let a = *m.animation_a_votes.as_ref().unwrap();
    let b = *m.animation_b_votes.as_ref().unwrap();
    if a > b {
        m.animation_a_id.clone()
    } else if a < b {
        m.animation_b_id.clone()
    } else {
        None
    }
}

/// Index range `(first, last)` (inclusive) of the matchups of round
/// `round + 1`, which feed round `round`.
pub fn feeder_range(total_rounds: i16, round: i16) -> (r: Result<
    (u32, u32),
    CalculateNewRoundMatchupsError,
>)
    ensures
        !valid_promotion(total_rounds as int, round as int) ==> r == Err::<(u32, u32), _>(
            CalculateNewRoundMatchupsError::InvalidTotalRounds,
        ),
        valid_promotion(total_rounds as int, round as int) ==> r == Ok::<
            _,
            CalculateNewRoundMatchupsError,
        >(
            (
                round_start(total_rounds as nat, (round + 1) as nat) as u32,
                (round_start(total_rounds as nat, round as nat) - 1) as u32,
            ),
        ),
{
    if !(1 <= round && round < total_rounds && total_rounds <= 31) {
        return Err(CalculateNewRoundMatchupsError::InvalidTotalRounds);
    }
    let total: u64 = pow2_u64(total_rounds as u32);
    let cur: u64 = pow2_u64(round as u32);
    let next: u64 = pow2_u64((round + 1) as u32);
    proof {
        reveal_with_fuel(pow2, 2);
        lemma_pow2_bounds(total_rounds as nat);
        lemma_pow2_monotone((round + 1) as nat, total_rounds as nat);
        lemma_pow2_positive(round as nat);
    }
    Ok(((total - next) as u32, (total - cur - 1) as u32))
}

/// Fills round `round` from the winners of round `round + 1`: matchup
/// `start + j` of round `round` meets the winners of matchups
/// `prev_start + 2j` and `prev_start + 2j + 1`, where `start` and
/// `prev_start` are the first indices of the two rounds.
pub fn promote_round(rows: &Vec<FeederMatchup>, total_rounds: i16, round: i16) -> (r: Result<
    Vec<RoundPairing>,
    CalculateNewRoundMatchupsError,
>)
    ensures
        !valid_promotion(total_rounds as int, round as int) ==> r == Err::<Vec<RoundPairing>, _>(
            CalculateNewRoundMatchupsError::InvalidTotalRounds,
        ),
        valid_promotion(total_rounds as int, round as int) && (exists|q: int|
            0 <= q < rows@.len() && !is_complete(#[trigger] rows@[q])) ==> r is Err && !(
        r matches Err(CalculateNewRoundMatchupsError::MissingMatchup(_))),
        r matches Err(CalculateNewRoundMatchupsError::MissingMatchup(x)) ==> forall|q: int|
            0 <= q < rows@.len() ==> #[trigger] rows@[q].index != x,
        r matches Err(CalculateNewRoundMatchupsError::MissingMatchup(x)) ==> round_start(
            total_rounds as nat,
            (round + 1) as nat,
        ) <= x < round_start(total_rounds as nat, round as nat),
        valid_promotion(total_rounds as int, round as int) && (forall|q: int|
            0 <= q < rows@.len() ==> is_complete(#[trigger] rows@[q])) && (forall|x: int|
            round_start(total_rounds as nat, (round + 1) as nat) <= x < round_start(
                total_rounds as nat,
                round as nat,
            ) ==> #[trigger] has_index(rows@, x)) && !(forall|j: int|
            0 <= j < pow2((round - 1) as nat) ==> {
                &&& #[trigger] feeder_winner(
                    rows@,
                    round_start(total_rounds as nat, (round + 1) as nat) + 2 * j,
                ) is Some
                &&& feeder_winner(
                    rows@,
                    round_start(total_rounds as nat, (round + 1) as nat) + 2 * j + 1,
                ) is Some
            }) ==> r matches Err(CalculateNewRoundMatchupsError::DbIntegrityError(_)),
        valid_promotion(total_rounds as int, round as int) && (forall|q: int|
            0 <= q < rows@.len() ==> is_complete(#[trigger] rows@[q])) && (forall|j: int|
            0 <= j < pow2((round - 1) as nat) ==> {
                &&& #[trigger] feeder_winner(
                    rows@,
                    round_start(total_rounds as nat, (round + 1) as nat) + 2 * j,
                ) is Some
                &&& feeder_winner(
                    rows@,
                    round_start(total_rounds as nat, (round + 1) as nat) + 2 * j + 1,
                ) is Some
            }) ==> r is Ok,
        r matches Ok(v) ==> {
            &&& v@.len() == pow2((round - 1) as nat)
            &&& forall|j: int|
                0 <= j < v@.len() ==> {
                    let p = #[trigger] v@[j];
                    let prev_start = round_start(total_rounds as nat, (round + 1) as nat);
                    &&& p.index == round_start(total_rounds as nat, round as nat) + j
                    &&& Some(p.animation_a_id) == feeder_winner(rows@, prev_start + 2 * j)
                    &&& Some(p.animation_b_id) == feeder_winner(rows@, prev_start + 2 * j + 1)
                }
        },
{
    let (prev_start, _prev_end) = match feeder_range(total_rounds, round) {
        Ok(range) => range,
        Err(e) => return Err(e),
    };
    proof {
        lemma_pow2_bounds(total_rounds as nat);
        lemma_pow2_monotone((round + 1) as nat, total_rounds as nat);
    }
    let mut q: usize = 0;
    while q < rows.len()
        invariant
            valid_promotion(total_rounds as int, round as int),
            prev_start == round_start(total_rounds as nat, (round + 1) as nat),
            q <= rows@.len(),
            forall|k: int| 0 <= k < q ==> is_complete(#[trigger] rows@[k]),
        decreases rows@.len() - q,
    {
        let m = &rows[q];
        if m.animation_a_id.is_none() {
            return Err(
                CalculateNewRoundMatchupsError::DbIntegrityError(
                    String::from_str("matchup has no animation A"),
                ),
            );
        }
        if m.animation_b_id.is_none() {
            return Err(
                CalculateNewRoundMatchupsError::DbIntegrityError(
                    String::from_str("matchup has no animation B"),
                ),
            );
        }
        if m.animation_a_votes.is_none() {
            return Err(
                CalculateNewRoundMatchupsError::DbIntegrityError(
                    String::from_str("matchup has no animation A votes"),
                ),
            );
        }
        if m.animation_b_votes.is_none() {
            return Err(
                CalculateNewRoundMatchupsError::DbIntegrityError(
                    String::from_str("matchup has no animation B votes"),
                ),
            );
        }
        q = q + 1;
    }
    proof {
        reveal_with_fuel(pow2, 2);
        lemma_pow2_bounds(total_rounds as nat);
        lemma_pow2_monotone((round + 1) as nat, total_rounds as nat);
    }
    let start: u64 = prev_start as u64 + pow2_u64(round as u32);
    let count: u64 = pow2_u64((round - 1) as u32);
    proof {
        reveal_with_fuel(pow2, 2);
        lemma_pow2_bounds(total_rounds as nat);
        lemma_pow2_monotone((round + 1) as nat, total_rounds as nat);
        assert(start == round_start(total_rounds as nat, round as nat));
    }
    let ghost ps = round_start(total_rounds as nat, (round + 1) as nat);
    let mut out: Vec<RoundPairing> = Vec::new();
    let mut j: u64 = 0;
    while j < count
        invariant
            valid_promotion(total_rounds as int, round as int),
            forall|k: int| 0 <= k < rows@.len() ==> is_complete(#[trigger] rows@[k]),
            prev_start == ps,
            ps + 2 * count == start,
            start == round_start(total_rounds as nat, round as nat),
            start + count <= 2147483648,
            count == pow2((round - 1) as nat),
            j <= count,
            out@.len() == j,
            forall|k: int|
                0 <= k < out@.len() ==> {
                    let p = #[trigger] out@[k];
                    &&& p.index == start + k
                    &&& Some(p.animation_a_id) == feeder_winner(rows@, ps + 2 * k)
                    &&& Some(p.animation_b_id) == feeder_winner(rows@, ps + 2 * k + 1)
                },
        decreases count - j,
    {
        let i1: u64 = prev_start as u64 + 2 * j;
        let a = match winner_at(rows, i1 as i32) {
            Ok(w) => w,
            Err(e) => {
                proof {
                    if e is MissingMatchup {
                        assert(!has_index(rows@, i1 as int));
                    }
                }
                return Err(e);
            },
        };
        let b = match winner_at(rows, (i1 + 1) as i32) {
            Ok(w) => w,
            Err(e) => {
                proof {
                    if e is MissingMatchup {
                        assert(!has_index(rows@, i1 + 1));
                    }
                }
                return Err(e);
            },
        };
        out.push(RoundPairing { index: (start + j) as u32, animation_a_id: a, animation_b_id: b });
        j = j + 1;
    }
    proof {
        assert forall|jj: int| 0 <= jj < pow2((round - 1) as nat) implies {
            &&& #[trigger] feeder_winner(rows@, ps + 2 * jj) is Some
            &&& feeder_winner(rows@, ps + 2 * jj + 1) is Some
        } by {
            assert(Some(out@[jj].animation_a_id) == feeder_winner(rows@, ps + 2 * jj));
        }
    }
    Ok(out)
}

fn winner_at(rows: &Vec<FeederMatchup>, index: i32) -> (r: Result<
    String,
    CalculateNewRoundMatchupsError,
>)
    requires
        index >= 0,
        forall|k: int| 0 <= k < rows@.len() ==> is_complete(#[trigger] rows@[k]),
    ensures
        r matches Ok(w) ==> feeder_winner(rows@, index as int) == Some(w),
        r is Err ==> feeder_winner(rows@, index as int) is None,
        r matches Err(CalculateNewRoundMatchupsError::MissingMatchup(x)) ==> x == index
            && forall|q: int| 0 <= q < rows@.len() ==> #[trigger] rows@[q].index != x,
        r matches Err(e) ==> (e is MissingMatchup || e is DbIntegrityError),
{
    match find_row(rows, index) {
        None => Err(CalculateNewRoundMatchupsError::MissingMatchup(index as u32)),
        Some(p) => {
            proof {
                let c = choose|p: int| first_at(rows@, index as int, p);
                assert(c == p as int);
            }
            match row_winner(&rows[p]) {
                Some(w) => Ok(w),
                None => Err(
                    CalculateNewRoundMatchupsError::DbIntegrityError(
                        String::from_str("matchup has equal votes"),
                    ),
                ),
            }
        },
    }
}

/// A distinct entry of the submission pool (duplicates already collapsed to
/// their primary) and its weight, the number of distinct submitters.
#[derive(Debug, PartialEq, Eq)]
pub struct RankedEntry {
    pub animation_id: String,
    pub weight: u64,
}

impl RankedEntry {
    pub fn copy(&self) -> (r: RankedEntry)
        ensures
            r == *self,
    {
        RankedEntry { animation_id: self.animation_id.clone(), weight: self.weight }
    }
}

/// Heaviest first: weights never increase along `s`.
pub open spec fn heaviest_first(s: Seq<RankedEntry>) -> bool {
    forall|i: int, j: int| 0 <= i < j < s.len() ==> s[i].weight >= s[j].weight
}

pub open spec fn entry_ids(s: Seq<RankedEntry>) -> Seq<String> {
    Seq::new(s.len(), |i: int| s[i].animation_id)
}

/// Relies on rand's `SliceRandom::shuffle` with the thread-local generator,
/// which reorders the slice by swaps: the result is a permutation of the input.
#[verifier::external_body]
fn shuffle_entries(v: &mut Vec<RankedEntry>)
    ensures
        final(v)@.to_multiset() == old(v)@.to_multiset(),
{
    rand::seq::SliceRandom::shuffle(v.as_mut_slice(), &mut rand::thread_rng());
}

/// Stable sort by descending weight.
pub fn sort_heaviest_first(entries: &Vec<RankedEntry>) -> (r: Vec<RankedEntry>)
    ensures
        r@.to_multiset() == entries@.to_multiset(),
        heaviest_first(r@),
{
    let mut out: Vec<RankedEntry> = Vec::new();
    let mut i: usize = 0;
    proof {
        assert(out@ =~= entries@.subrange(0, 0));
    }
    while i < entries.len()
        invariant
            i <= entries@.len(),
            out@.to_multiset() == entries@.subrange(0, i as int).to_multiset(),
            heaviest_first(out@),
        decreases entries@.len() - i,
    {
        let e = entries[i].copy();
        let w = e.weight;
        let mut pos: usize = 0;
        while pos < out.len() && out[pos].weight >= w
            invariant
                pos <= out@.len(),
                forall|k: int| 0 <= k < pos ==> #[trigger] out@[k].weight >= w,
            decreases out@.len() - pos,
        {
            pos = pos + 1;
        }
        let ghost before = out@;
        out.insert(pos, e);
        proof {
            assert(entries@.subrange(0, i + 1) =~= entries@.subrange(0, i as int).push(
                entries@[i as int],
            ));
            assert(out@ == before.insert(pos as int, entries@[i as int]));
            vstd::seq_lib::to_multiset_insert(before, pos as int, entries@[i as int]);
            vstd::seq_lib::to_multiset_build(entries@.subrange(0, i as int), entries@[i as int]);
            assert forall|a: int, b: int| 0 <= a < b < out@.len() implies out@[a].weight
                >= out@[b].weight by {
                if a < pos && b == pos {
                } else if a == pos as int && b > pos {
                    assert(before[pos as int].weight < w);
                    assert(before[pos as int].weight >= before[b - 1].weight);
                } else if a < pos && b > pos {
                    assert(before[a].weight >= before[b - 1].weight);
                } else if b < pos {
                } else {
                    assert(before[a - 1].weight >= before[b - 1].weight);
                }
            }
        }
        i = i + 1;
    }
    proof {
        assert(entries@.subrange(0, entries@.len() as int) =~= entries@);
    }
    out
}

/// The animation ids of `entries`, in order.
pub fn entry_ids_of(entries: &Vec<RankedEntry>) -> (r: Vec<String>)
    ensures
        r@ == entry_ids(entries@),
{
    let mut out: Vec<String> = Vec::new();
    let mut i: usize = 0;
    while i < entries.len()
        invariant
            i <= entries@.len(),
            out@ =~= entry_ids(entries@).subrange(0, i as int),
        decreases entries@.len() - i,
    {
        out.push(entries[i].animation_id.clone());
        i = i + 1;
    }
    out
}

/// Builds the bracket of a tournament from its submission pool: entries are
/// shuffled, then ordered heaviest first (so entries of equal weight end up in
/// random order), and the top `2^rounds` of them are seeded into the bracket.
pub fn create_bracket(entries: Vec<RankedEntry>, rounds: u32, round_lengths: &Vec<u16>) -> (r:
    Result<Vec<PlannedMatchup>, CreateBracketError>)
    requires
        rounds >= 1,
    ensures
        rounds > 31 ==> r == Err::<Vec<PlannedMatchup>, _>(CreateBracketError::ConvertError),
        rounds <= 31 && entries@.len() < pow2(rounds as nat) ==> r == Err::<
            Vec<PlannedMatchup>,
            _,
        >(CreateBracketError::NotEnoughSubmissions(entries@.len() as usize, pow2(rounds as nat) as u32)),
        rounds <= 31 && entries@.len() >= pow2(rounds as nat) && round_lengths@.len() < rounds
            ==> r == Err::<Vec<PlannedMatchup>, _>(CreateBracketError::UnexpectedIndex),
        rounds <= 31 && entries@.len() >= pow2(rounds as nat) && round_lengths@.len() >= rounds
            ==> r is Ok,
        r matches Ok(v) ==> exists|ranked: Seq<RankedEntry>|
            {
                &&& ranked.to_multiset() == entries@.to_multiset()
                &&& heaviest_first(ranked)
                &&& bracket_spec(entry_ids(ranked), rounds as nat, round_lengths@, v@)
            },
{
    broadcast use vstd::seq_lib::to_multiset_len;

    let mut pool = entries;
    shuffle_entries(&mut pool);
    let ranked = sort_heaviest_first(&pool);
    let ids = entry_ids_of(&ranked);
    proof {
        assert(ranked@.to_multiset().len() == entries@.to_multiset().len());
    }
    let r = build_bracket(&ids, rounds, round_lengths);
    proof {
        if r is Ok {
            assert(ranked@.to_multiset() == entries@.to_multiset());
        }
    }
    r
}

/// A bracket of `rounds` rounds has `2^rounds - 1` matchups, indexed
/// densely from 0.
pub proof fn lemma_bracket_count(
    ranked: Seq<String>,
    rounds: nat,
    round_lengths: Seq<u16>,
    r: Seq<PlannedMatchup>,
)
    requires
        bracket_spec(ranked, rounds, round_lengths, r),
    ensures
        r.len() == pow2(rounds) - 1,
        forall|i: int| 0 <= i < r.len() ==> (#[trigger] r[i]).index == i,
{
}

/// Reordering a pool whose entries have distinct ids keeps the ids distinct.
pub proof fn lemma_reordering_keeps_ids_distinct(entries: Seq<RankedEntry>, ranked: Seq<RankedEntry>)
    requires
        ranked.to_multiset() == entries.to_multiset(),
        forall|i: int, j: int|
            0 <= i < entries.len() && 0 <= j < entries.len() && i != j ==> entries[i].animation_id@
                != entries[j].animation_id@,
    ensures
        forall|i: int, j: int|
            0 <= i < j < ranked.len() ==> ranked[i].animation_id@ != ranked[j].animation_id@,
{
    broadcast use vstd::seq_lib::to_multiset_contains;

    assert(entries.no_duplicates());
    entries.lemma_multiset_has_no_duplicates();
    ranked.lemma_multiset_has_no_duplicates_conv();
    assert forall|i: int, j: int| 0 <= i < j < ranked.len() implies ranked[i].animation_id@
        != ranked[j].animation_id@ by {
        assert(ranked.contains(ranked[i]));
        assert(ranked.contains(ranked[j]));
        assert(entries.to_multiset().count(ranked[i]) > 0);
        assert(entries.to_multiset().count(ranked[j]) > 0);
        assert(entries.contains(ranked[i]));
        assert(entries.contains(ranked[j]));
        let a = choose|a: int| 0 <= a < entries.len() && entries[a] == ranked[i];
        let b = choose|b: int| 0 <= b < entries.len() && entries[b] == ranked[j];
        assert(ranked[i] != ranked[j]);
    }
}

/// Built from a pool whose entries have distinct ids (as `pool_entries`
/// gives), no matchup of the bracket pits an animation against itself.
pub proof fn lemma_pool_bracket_sides_differ(
    entries: Seq<RankedEntry>,
    ranked: Seq<RankedEntry>,
    rounds: nat,
    round_lengths: Seq<u16>,
    r: Seq<PlannedMatchup>,
)
    requires
        rounds >= 1,
        ranked.to_multiset() == entries.to_multiset(),
        forall|i: int, j: int|
            0 <= i < entries.len() && 0 <= j < entries.len() && i != j ==> entries[i].animation_id@
                != entries[j].animation_id@,
        ranked.len() >= pow2(rounds),
        bracket_spec(entry_ids(ranked), rounds, round_lengths, r),
    ensures
        forall|k: int|
            0 <= k < r.len() ==> match ((#[trigger] r[k]).animation_a_id, r[k].animation_b_id) {
                (Some(a), Some(b)) => a@ != b@,
                _ => true,
            },
{
    lemma_reordering_keeps_ids_distinct(entries, ranked);
    lemma_bracket_sides_differ(entry_ids(ranked), rounds, round_lengths, r);
}

/// In the canonical seed order, each pair puts a seed of the top half
/// first: `s[2k] < 2^(rounds-1) <= s[2k + 1]`.
pub proof fn lemma_seeds_top_half_first(rounds: nat)
    requires
        rounds >= 1,
    ensures
        forall|k: int|
            0 <= k < seeds(rounds).len() / 2 ==> #[trigger] seeds(rounds)[2 * k] < pow2(
                (rounds - 1) as nat,
            ) <= seeds(rounds)[2 * k + 1],
    decreases rounds,
{
    reveal_with_fuel(pow2, 2);
    lemma_seeds_permutation(rounds);
    if rounds == 1 {
        assert(seeds(1) =~= seq![0int, 1int]);
        assert forall|k: int| 0 <= k < seeds(rounds).len() / 2 implies #[trigger] seeds(rounds)[2
            * k] < pow2((rounds - 1) as nat) <= seeds(rounds)[2 * k + 1] by {
            assert(k == 0);
        }
    } else {
        let prev = seeds((rounds - 1) as nat);
        lemma_seeds_permutation((rounds - 1) as nat);
        assert forall|k: int| 0 <= k < seeds(rounds).len() / 2 implies #[trigger] seeds(rounds)[2
            * k] < pow2((rounds - 1) as nat) <= seeds(rounds)[2 * k + 1] by {
            assert((2 * k) / 2 == k);
            assert((2 * k + 1) / 2 == k);
            assert((2 * k) % 2 == 0);
            assert((2 * k + 1) % 2 == 1);
            assert(0 <= prev[k] < prev.len());
        }
    }
}

/// Seeded from a heaviest-first ranking, the A side of every first-round
/// matchup is the higher seed, so it weighs at least as much as the B side.
pub proof fn lemma_first_round_heavier_side(
    ranked: Seq<RankedEntry>,
    rounds: nat,
    round_lengths: Seq<u16>,
    r: Seq<PlannedMatchup>,
)
    requires
        rounds >= 1,
        heaviest_first(ranked),
        ranked.len() >= pow2(rounds),
        bracket_spec(entry_ids(ranked), rounds, round_lengths, r),
    ensures
        forall|k: int|
            0 <= k < pow2((rounds - 1) as nat) ==> {
                &&& seeds(rounds)[2 * k] < seeds(rounds)[2 * k + 1]
                &&& (#[trigger] r[k]).animation_a_id == Some(ranked[seeds(rounds)[2 * k]].animation_id)
                &&& r[k].animation_b_id == Some(ranked[seeds(rounds)[2 * k + 1]].animation_id)
                &&& ranked[seeds(rounds)[2 * k]].weight >= ranked[seeds(rounds)[2 * k + 1]].weight
            },
{
    reveal_with_fuel(pow2, 2);
    lemma_seeds_permutation(rounds);
    lemma_seeds_top_half_first(rounds);
    lemma_pow2_positive(rounds);
    assert(pow2(rounds) == 2 * pow2((rounds - 1) as nat));
    assert forall|k: int| 0 <= k < pow2((rounds - 1) as nat) implies {
        &&& seeds(rounds)[2 * k] < seeds(rounds)[2 * k + 1]
        &&& (#[trigger] r[k]).animation_a_id == Some(ranked[seeds(rounds)[2 * k]].animation_id)
        &&& r[k].animation_b_id == Some(ranked[seeds(rounds)[2 * k + 1]].animation_id)
        &&& ranked[seeds(rounds)[2 * k]].weight >= ranked[seeds(rounds)[2 * k + 1]].weight
    } by {
        let s = seeds(rounds);
        assert(k < s.len() / 2);
        assert(s[2 * k] < pow2((rounds - 1) as nat) <= s[2 * k + 1]);
        assert(0 <= s[2 * k] && s[2 * k + 1] < pow2(rounds));
        lemma_pow2_positive((rounds - 1) as nat);
        assert(k < r.len());
        let m = r[k];
        assert(in_round(rounds, m.round as nat, k));
        if m.round < rounds {
            lemma_pow2_monotone(m.round as nat, (rounds - 1) as nat);
        }
        assert(r[k].round == rounds);
    }
}

} // verus!
