use gifdome::animation::{check_file_size, AnimationParams, SaveAnimationError};
use gifdome::submission::{
    check_mime_type, classify_duplicate, duplicate_role, rows_are_unique, pool_entries, similar_animations, DuplicateLink, has_submitted_any, record_submission,
    submission_reply_text, too_large_text, too_long_text, user_id, vote_weight, DuplicateRole,
    HandleSubmissionError, SubmissionRow,
};
use gifdome::text::{decimal_string, signed_decimal_string, times_text, Kaomoji};

fn row(a: &str, u: i64) -> SubmissionRow {
    SubmissionRow { animation_id: a.to_string(), submitter_id: u }
}

#[test]
fn resubmitting_adds_no_row_and_changes_the_reply() {
    let mut rows = Vec::new();
    let gif = "gif".to_string();
    assert!(record_submission(&mut rows, &gif, 1));
    let first = submission_reply_text(false, false, vote_weight(&rows, &vec![gif.clone()]) as i64);
    assert_eq!(first, format!("Thanks for the GIF, you are the first to send it! {}", Kaomoji::HAPPY));
    assert!(!record_submission(&mut rows, &gif, 1));
    assert_eq!(rows.len(), 1);
    let second = submission_reply_text(true, false, vote_weight(&rows, &vec![gif.clone()]) as i64);
    assert_eq!(second, "You have already sent this GIF. It has been sent once.");
}

#[test]
fn reply_wording_by_count() {
    assert_eq!(
        submission_reply_text(false, false, 2),
        "Your vote has been counted. This GIF has now been sent twice."
    );
    assert_eq!(
        submission_reply_text(false, false, 5),
        "Your vote has been counted. This GIF has now been sent 5 times."
    );
    assert_eq!(
        submission_reply_text(false, true, 3),
        "You have already sent a similar GIF. It has been sent 3 times."
    );
    assert_eq!(
        submission_reply_text(true, true, 2),
        "You have already sent this GIF. It has been sent twice."
    );
}

#[test]
fn vote_weight_counts_distinct_submitters_across_a_cluster() {
    let rows = vec![row("a", 1), row("b", 1), row("b", 2), row("c", 3), row("d", 4)];
    let cluster = vec!["a".to_string(), "b".to_string()];
    assert_eq!(vote_weight(&rows, &cluster), 2);
    assert_eq!(vote_weight(&rows, &vec!["c".to_string()]), 1);
    assert_eq!(vote_weight(&rows, &vec!["zz".to_string()]), 0);
    assert_eq!(vote_weight(&vec![], &cluster), 0);
    assert!(has_submitted_any(&rows, &cluster, 2));
    assert!(!has_submitted_any(&rows, &cluster, 3));
}

#[test]
fn mime_types_are_checked() {
    let allowed = vec!["video/mp4".to_string()];
    assert_eq!(check_mime_type(Some(&"video/mp4".to_string()), &allowed), Ok(()));
    assert_eq!(
        check_mime_type(Some(&"image/gif".to_string()), &allowed),
        Err("I\u{2019}m not designed to handle GIFs of that file type (image/gif).".to_string())
    );
    assert_eq!(
        check_mime_type(None, &allowed),
        Err("I couldn\u{2019}t determine the file type of that GIF.".to_string())
    );
}

#[test]
fn long_animation_is_refused() {
    let params = AnimationParams { width: 320, height: 240, fps_num: 10, fps_denom: 1, frames: 100 };
    assert!(params.duration_exceeds(8));
    assert_eq!(too_long_text(8), "GIFs longer than 8 seconds are not accepted.");
    let exact = AnimationParams { frames: 80, ..params };
    assert!(!exact.duration_exceeds(8));
    let zero_rate = AnimationParams { fps_num: 0, ..params };
    assert!(zero_rate.duration_exceeds(8));
    let empty = AnimationParams { fps_num: 0, frames: 0, ..params };
    assert!(!empty.duration_exceeds(8));
    let negative_rate = AnimationParams { fps_num: -10, ..params };
    assert!(!negative_rate.duration_exceeds(8));
}

#[test]
fn file_size_limits() {
    assert_eq!(check_file_size(Some(10), 10), Ok(()));
    assert_eq!(check_file_size(Some(11), 10), Err(SaveAnimationError::TooLarge(11)));
    assert_eq!(check_file_size(None, 10), Err(SaveAnimationError::ApiResponseMissingSize));
    assert_eq!(too_large_text(), format!("The file size is too big {}", Kaomoji::SHOCKED));
}

#[test]
fn duplicate_roles() {
    assert_eq!(classify_duplicate(true, false), Ok(DuplicateRole::Primary));
    assert_eq!(classify_duplicate(false, true), Ok(DuplicateRole::Duplicate));
    assert_eq!(classify_duplicate(false, false), Ok(DuplicateRole::Neither));
    assert!(matches!(classify_duplicate(true, true), Err(HandleSubmissionError::DbIntegrityError(_))));
    assert_eq!(user_id(5), Ok(5));
    assert_eq!(user_id(u64::MAX), Err(HandleSubmissionError::InvalidUserId));
}

#[test]
fn numbers_in_words() {
    assert_eq!(times_text(1), "once");
    assert_eq!(times_text(2), "twice");
    assert_eq!(times_text(3), "3 times");
    assert_eq!(times_text(0), "0 times");
    assert_eq!(decimal_string(0), "0");
    assert_eq!(decimal_string(1234567890), "1234567890");
    assert_eq!(decimal_string(u64::MAX), u64::MAX.to_string());
    assert_eq!(signed_decimal_string(-42), "-42");
    assert_eq!(signed_decimal_string(i64::MIN), i64::MIN.to_string());
}

#[test]
fn pool_counts_duplicates_with_their_primary() {
    let rows = vec![row("p", 1), row("d1", 2), row("d2", 1), row("x", 3), row("d1", 3), row("y", 4)];
    let links = vec![
        DuplicateLink { duplicate_id: "d1".to_string(), primary_id: "p".to_string() },
        DuplicateLink { duplicate_id: "d2".to_string(), primary_id: "p".to_string() },
    ];
    let mut pool: Vec<(String, u64)> =
        pool_entries(&rows, &links).into_iter().map(|e| (e.animation_id, e.weight)).collect();
    pool.sort();
    assert_eq!(
        pool,
        vec![("p".to_string(), 3), ("x".to_string(), 1), ("y".to_string(), 1)]
    );
    assert!(pool_entries(&vec![], &links).is_empty());
}

#[test]
fn clusters_of_confirmed_duplicates() {
    let link = |d: &str, p: &str| DuplicateLink { duplicate_id: d.to_string(), primary_id: p.to_string() };
    let links = vec![link("d1", "p"), link("d2", "p"), link("e1", "q")];
    let sorted = |mut v: Vec<String>| {
        v.sort();
        v
    };
    assert_eq!(sorted(similar_animations(&links, &"p".to_string())), vec!["d1", "d2"]);
    assert_eq!(sorted(similar_animations(&links, &"d1".to_string())), vec!["d2", "p"]);
    assert_eq!(similar_animations(&links, &"q".to_string()), vec!["e1"]);
    assert!(similar_animations(&links, &"z".to_string()).is_empty());
    assert_eq!(duplicate_role(&links, &"p".to_string()), Ok(DuplicateRole::Primary));
    assert_eq!(duplicate_role(&links, &"d2".to_string()), Ok(DuplicateRole::Duplicate));
    assert_eq!(duplicate_role(&links, &"z".to_string()), Ok(DuplicateRole::Neither));
    let broken = vec![link("a", "b"), link("b", "c")];
    assert!(duplicate_role(&broken, &"b".to_string()).is_err());
}

#[test]
fn submission_rows_uniqueness() {
    assert!(rows_are_unique(&vec![row("a", 1), row("a", 2), row("b", 1)]));
    assert!(!rows_are_unique(&vec![row("a", 1), row("b", 1), row("a", 1)]));
}
