use gifdome::bracket::{
    build_bracket, create_bracket, feeder_range, generate_seeds, promote_round,
    sort_heaviest_first, CalculateNewRoundMatchupsError, CreateBracketError, FeederMatchup,
    GenerateSeedsError, PlannedMatchup, RankedEntry,
};
use gifdome::replies::not_enough_submissions_text;

fn ids(n: usize) -> Vec<String> {
    (0..n).map(|i| format!("a{i}")).collect()
}

fn feeder(index: i32, a: &str, b: &str, va: i32, vb: i32) -> FeederMatchup {
    FeederMatchup {
        index,
        animation_a_id: Some(a.to_string()),
        animation_b_id: Some(b.to_string()),
        animation_a_votes: Some(va),
        animation_b_votes: Some(vb),
    }
}

#[test]
fn seeds_for_small_brackets() {
    assert_eq!(generate_seeds(1).unwrap(), vec![0, 1]);
    assert_eq!(generate_seeds(2).unwrap(), vec![0, 3, 1, 2]);
    assert_eq!(generate_seeds(3).unwrap(), vec![0, 7, 3, 4, 1, 6, 2, 5]);
    assert_eq!(
        generate_seeds(4).unwrap(),
        vec![0, 15, 7, 8, 3, 12, 4, 11, 1, 14, 6, 9, 2, 13, 5, 10]
    );
}

#[test]
fn seeds_are_a_permutation_with_pair_sums() {
    for rounds in 1..=12u32 {
        let s = generate_seeds(rounds).unwrap();
        let n = 1u32 << rounds;
        assert_eq!(s.len() as u32, n);
        let mut sorted = s.clone();
        sorted.sort();
        assert_eq!(sorted, (0..n).collect::<Vec<_>>());
        for k in 0..s.len() / 2 {
            assert_eq!(s[2 * k] + s[2 * k + 1], n - 1);
        }
    }
}

#[test]
fn seeds_refuse_too_many_rounds() {
    assert_eq!(generate_seeds(32), Err(GenerateSeedsError::TooManyRounds(32)));
    assert_eq!(generate_seeds(0).unwrap(), vec![0, 1]);
}

#[test]
fn bracket_layout_for_three_rounds() {
    let ranked = ids(8);
    let m = build_bracket(&ranked, 3, &vec![10, 20, 30]).unwrap();
    assert_eq!(m.len(), 7);
    let pairs = [(0, 7), (3, 4), (1, 6), (2, 5)];
    for (i, (a, b)) in pairs.iter().enumerate() {
        assert_eq!(
            m[i],
            PlannedMatchup {
                index: i as u32,
                round: 3,
                animation_a_id: Some(format!("a{a}")),
                animation_b_id: Some(format!("a{b}")),
                duration_secs: 30,
            }
        );
    }
    let later = [(4, 2, 20), (5, 2, 20), (6, 1, 10)];
    for (index, round, duration) in later {
        assert_eq!(
            m[index],
            PlannedMatchup {
                index: index as u32,
                round,
                animation_a_id: None,
                animation_b_id: None,
                duration_secs: duration,
            }
        );
    }
}

#[test]
fn bracket_counts_are_dense() {
    for rounds in 1..=6u32 {
        let n = 1usize << rounds;
        let lengths: Vec<u16> = (1..=rounds as u16).collect();
        let m = build_bracket(&ids(n + 3), rounds, &lengths).unwrap();
        assert_eq!(m.len(), n - 1);
        for (i, x) in m.iter().enumerate() {
            assert_eq!(x.index as usize, i);
            assert_eq!(x.duration_secs as u32, x.round);
        }
    }
}

#[test]
fn weighted_seeding_pairs_heavy_with_light() {
    let weights = [3u64, 3, 2, 2, 1, 1, 1, 1];
    let entries: Vec<RankedEntry> = weights
        .iter()
        .enumerate()
        .map(|(i, w)| RankedEntry { animation_id: format!("w{w}-{i}"), weight: *w })
        .collect();
    let m = create_bracket(entries, 3, &vec![60, 60, 60]).unwrap();
    let weight_of = |id: &Option<String>| -> u64 {
        let id = id.as_ref().unwrap();
        weights[id.split('-').nth(1).unwrap().parse::<usize>().unwrap()]
    };
    let expected = [(3, 1), (2, 1), (3, 1), (2, 1)];
    let mut seen = Vec::new();
    for (i, (wa, wb)) in expected.iter().enumerate() {
        assert_eq!(weight_of(&m[i].animation_a_id), *wa);
        assert_eq!(weight_of(&m[i].animation_b_id), *wb);
        seen.push(m[i].animation_a_id.clone().unwrap());
        seen.push(m[i].animation_b_id.clone().unwrap());
    }
    seen.sort();
    seen.dedup();
    assert_eq!(seen.len(), 8);
}

#[test]
fn not_enough_submissions_for_two_rounds() {
    let r = build_bracket(&ids(3), 2, &vec![5, 5]);
    assert_eq!(r, Err(CreateBracketError::NotEnoughSubmissions(3, 4)));
    let text = not_enough_submissions_text(3, 4, 2);
    assert_eq!(text, "There are only 3 submissions. At least 4 are needed for 2 rounds.");
    assert_eq!(
        not_enough_submissions_text(0, 2, 1),
        "There are no submissions. At least 2 are needed for a single round."
    );
    assert_eq!(
        not_enough_submissions_text(1, 2, 1),
        "There is only one submission. At least 2 are needed for a single round."
    );
}

#[test]
fn missing_round_length_is_an_index_error() {
    assert_eq!(build_bracket(&ids(4), 2, &vec![5]), Err(CreateBracketError::UnexpectedIndex));
    assert_eq!(build_bracket(&ids(4), 40, &vec![5]), Err(CreateBracketError::ConvertError));
}

#[test]
fn feeder_ranges_follow_the_layout() {
    assert_eq!(feeder_range(3, 2), Ok((0, 3)));
    assert_eq!(feeder_range(3, 1), Ok((4, 5)));
    assert_eq!(feeder_range(2, 1), Ok((0, 1)));
    assert_eq!(feeder_range(3, 3), Err(CalculateNewRoundMatchupsError::InvalidTotalRounds));
    assert_eq!(feeder_range(3, 0), Err(CalculateNewRoundMatchupsError::InvalidTotalRounds));
}

#[test]
fn promotion_takes_the_winners_of_feeder_pairs() {
    let rows = vec![
        feeder(0, "a", "b", 5, 2),
        feeder(1, "c", "d", 1, 4),
        feeder(2, "e", "f", 0, 1),
        feeder(3, "g", "h", 9, 8),
    ];
    let p = promote_round(&rows, 3, 2).unwrap();
    assert_eq!(p.len(), 2);
    assert_eq!((p[0].index, p[0].animation_a_id.as_str(), p[0].animation_b_id.as_str()), (4, "a", "d"));
    assert_eq!((p[1].index, p[1].animation_a_id.as_str(), p[1].animation_b_id.as_str()), (5, "f", "g"));

    let finals = vec![feeder(4, "a", "d", 1, 3), feeder(5, "f", "g", 7, 2)];
    let p = promote_round(&finals, 3, 1).unwrap();
    assert_eq!((p[0].index, p[0].animation_a_id.as_str(), p[0].animation_b_id.as_str()), (6, "d", "f"));
}

#[test]
fn promotion_errors() {
    let rows = vec![feeder(0, "a", "b", 5, 2)];
    assert_eq!(promote_round(&rows, 2, 1), Err(CalculateNewRoundMatchupsError::MissingMatchup(1)));
    let tied = vec![feeder(0, "a", "b", 2, 2), feeder(1, "c", "d", 1, 0)];
    assert!(matches!(
        promote_round(&tied, 2, 1),
        Err(CalculateNewRoundMatchupsError::DbIntegrityError(_))
    ));
    let mut incomplete = vec![feeder(0, "a", "b", 5, 2), feeder(1, "c", "d", 1, 0)];
    incomplete[1].animation_b_votes = None;
    assert!(matches!(
        promote_round(&incomplete, 2, 1),
        Err(CalculateNewRoundMatchupsError::DbIntegrityError(_))
    ));
    assert_eq!(promote_round(&rows, 2, 2), Err(CalculateNewRoundMatchupsError::InvalidTotalRounds));
}

#[test]
fn sorting_is_stable_and_heaviest_first() {
    let e = |id: &str, w: u64| RankedEntry { animation_id: id.to_string(), weight: w };
    let sorted = sort_heaviest_first(&vec![e("x", 1), e("y", 3), e("z", 1), e("w", 3), e("v", 2)]);
    let order: Vec<&str> = sorted.iter().map(|r| r.animation_id.as_str()).collect();
    assert_eq!(order, vec!["y", "w", "v", "x", "z"]);
    assert!(sort_heaviest_first(&vec![]).is_empty());
}
