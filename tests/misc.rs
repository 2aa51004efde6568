use gifdome::animation::{parse_i32, AnimationParams, AnimationParamsError, StreamInfo};
use gifdome::config::{
    alphanum_token_length, validate_config, AnimationConfig, BotConfig, Config,
    ConfigValidationError, PollConfig, SchedulerConfig, ServerConfig, TournamentConfig,
    WebhookConfig,
};
use gifdome::db::{
    enum_variants, escape_sql_string, plan_init_db, sanitize_db_identifier, ChatGroupType, ChatKind, InitDbError, MatchupState,
    TournamentState,
};
use gifdome::poll::{latest_updates, poll_votes, PollData, PollOption, PollUpdate};
use gifdome::replies::{
    help_text, poll_caption, poll_caption_with, round_name_text, winner_announcement,
};
use gifdome::text::Kaomoji;
use gifdome::request::{authorize_request, parse_tournament_ref, RequestVerdict, TournamentRef};
use gifdome::token::generate_token;

fn config() -> Config {
    Config {
        animation: AnimationConfig {
            allowed_mime_types: vec!["video/mp4".to_string()],
            max_duration_secs: 8,
            max_size_bytes: 1000,
            save_dir: "s".to_string(),
            temp_filename_length: 8,
            temp_save_dir: "t".to_string(),
            thumbnail_fingerprint_file: "f".to_string(),
            thumbnail_fingerprint_threshold: "90%".to_string(),
            thumbnail_save_dir: "th".to_string(),
            vspipe_working_dir: "v".to_string(),
        },
        bot: BotConfig { token: "SECRET-REDACTED".to_string() },
        poll: PollConfig { option_a_text: "A".to_string(), option_b_text: "B".to_string() },
        scheduler: SchedulerConfig { job_interval_secs: 5, job_timeout_secs: 30, poll_interval_millis: 100 },
        server: ServerConfig { socket_path: "x.sock".to_string(), socket_permissions: 0o660 },
        tournament: TournamentConfig { id_length: 8, max_rounds: 2, round_lengths_secs: vec![60, 120] },
        webhook: WebhookConfig {
            secret: "s".to_string(),
            socket_path: "w.sock".to_string(),
            socket_permissions: 0o660,
            url: "https://example.org/hook".to_string(),
        },
    }
}

fn poll(id: &str, closed: bool, options: &[(&str, u32)]) -> PollData {
    PollData {
        id: id.to_string(),
        is_closed: closed,
        options: options
            .iter()
            .map(|(t, c)| PollOption { text: t.to_string(), voter_count: *c })
            .collect(),
    }
}

#[test]
fn config_validation() {
    assert_eq!(validate_config(&config()), Ok(()));
    let mut c = config();
    c.animation.allowed_mime_types.clear();
    assert_eq!(validate_config(&c), Err(ConfigValidationError::NoAllowedMimeTypes));
    let mut c = config();
    c.bot.token.clear();
    assert_eq!(validate_config(&c), Err(ConfigValidationError::EmptyValue("bot.token")));
    let mut c = config();
    c.poll.option_b_text = "A".to_string();
    assert_eq!(validate_config(&c), Err(ConfigValidationError::PollOptionsEqual));
    let mut c = config();
    c.tournament.max_rounds = 3;
    assert_eq!(validate_config(&c), Err(ConfigValidationError::InvalidRoundLengths));
    let mut c = config();
    c.webhook.secret.clear();
    assert_eq!(validate_config(&c), Err(ConfigValidationError::EmptyValue("webhook.secret")));
    let mut c = config();
    c.webhook.url.clear();
    assert_eq!(validate_config(&c), Err(ConfigValidationError::EmptyValue("webhook.url")));
}

#[test]
fn token_lengths_for_entropy() {
    assert_eq!(alphanum_token_length(0), 0);
    assert_eq!(alphanum_token_length(1), 1);
    assert_eq!(alphanum_token_length(64), 11);
    assert_eq!(alphanum_token_length(128), 22);
    assert_eq!(alphanum_token_length(u16::MAX), 11007);
}

#[test]
fn tokens_are_alphanumeric() {
    let t = generate_token(40);
    assert_eq!(t.chars().count(), 40);
    assert!(t.chars().all(|c| c.is_ascii_alphanumeric()));
    assert_eq!(generate_token(0), "");
}

#[test]
fn enum_value_lists() {
    assert_eq!(enum_variants(ChatGroupType::variants()), "'group', 'supergroup'");
    assert_eq!(
        enum_variants(MatchupState::variants()),
        "'not_started', 'started', 'finished', 'aborted'"
    );
    assert_eq!(
        enum_variants(TournamentState::variants()),
        "'submitting', 'voting', 'finished', 'aborted'"
    );
    assert_eq!(enum_variants(vec![]), "");
    assert_eq!(MatchupState::NotStarted.display_name(), "not-started");
    assert_eq!(TournamentState::Voting.sql_name(), "voting");
    assert_eq!(ChatGroupType::try_from_kind(ChatKind::Supergroup), Some(ChatGroupType::Supergroup));
    assert_eq!(ChatGroupType::try_from_kind(ChatKind::Private), None);
    assert!(ChatKind::Group.is_group());
    assert!(!ChatKind::Channel.is_group());
}

#[test]
fn identifiers_are_escaped() {
    assert_eq!(sanitize_db_identifier("gif\"dome"), Ok("gif\"\"dome".to_string()));
    assert_eq!(sanitize_db_identifier("plain_name"), Ok("plain_name".to_string()));
    assert_eq!(sanitize_db_identifier("\u{e9}\"\""), Ok("\u{e9}\"\"\"\"".to_string()));
    assert_eq!(sanitize_db_identifier("bad\0name"), Err(InitDbError::NullCharacterInIdentifier));
}

#[test]
fn closed_polls_record_nothing() {
    let p = poll("p", true, &[("A", 3), ("B", 1)]);
    assert_eq!(poll_votes(&p, &"A".to_string(), &"B".to_string()), None);
}

#[test]
fn poll_vote_counts() {
    let a = "A".to_string();
    let b = "B".to_string();
    assert_eq!(poll_votes(&poll("p", false, &[("A", 3), ("B", 1)]), &a, &b), Some((3, 1)));
    assert_eq!(poll_votes(&poll("p", false, &[("B", 1), ("x", 9), ("A", 0)]), &a, &b), Some((0, 1)));
    assert_eq!(poll_votes(&poll("p", false, &[("A", 3), ("A", 1), ("B", 1)]), &a, &b), None);
    assert_eq!(poll_votes(&poll("p", false, &[("A", 3)]), &a, &b), None);
}

#[test]
fn poll_bursts_keep_the_latest_update() {
    let us = vec![
        PollUpdate { update_id: 5, poll: poll("p1", false, &[]) },
        PollUpdate { update_id: 7, poll: poll("p2", false, &[]) },
        PollUpdate { update_id: 9, poll: poll("p1", false, &[]) },
        PollUpdate { update_id: 6, poll: poll("p2", false, &[]) },
        PollUpdate { update_id: 9, poll: poll("p1", false, &[]) },
    ];
    let kept = latest_updates(&us);
    assert_eq!(kept, vec![2, 1]);
    assert!(latest_updates(&vec![]).is_empty());
}

#[test]
fn probe_reports_are_read() {
    let stream = |rate: &str, frames: &str| StreamInfo {
        width: 320,
        height: 200,
        r_frame_rate: rate.to_string(),
        nb_read_frames: frames.to_string(),
    };
    assert_eq!(
        AnimationParams::from_streams(&vec![stream("30000/1001", "90")]),
        Ok(AnimationParams { width: 320, height: 200, fps_num: 30000, fps_denom: 1001, frames: 90 })
    );
    assert_eq!(
        AnimationParams::from_streams(&vec![stream("30", "90")]),
        Err(AnimationParamsError::InvalidFrameRate("30".to_string()))
    );
    assert_eq!(
        AnimationParams::from_streams(&vec![stream("30/1/2", "90")]),
        Err(AnimationParamsError::InvalidFrameRate("30/1/2".to_string()))
    );
    assert_eq!(
        AnimationParams::from_streams(&vec![stream("30/1", "N/A")]),
        Err(AnimationParamsError::InvalidFrameCount("N/A".to_string()))
    );
    assert_eq!(AnimationParams::from_streams(&vec![]), Err(AnimationParamsError::NoStreams));
}

#[test]
fn integers_parse_like_rust() {
    for s in ["0", "-0", "+7", "2147483647", "-2147483648", "0042"] {
        assert_eq!(parse_i32(s), s.parse::<i32>().ok(), "{s}");
    }
    for s in ["", "-", "+", "2147483648", "-2147483649", "1 ", " 1", "1e3", "--1", "99999999999999999999"] {
        assert_eq!(parse_i32(s), None, "{s}");
    }
}

#[test]
fn help_texts() {
    let intro = "The GIFdome aims to find the ultimate GIF by process of elimination.\n\n";
    assert_eq!(
        help_text(false, None, true, 5),
        format!("{intro}Invite me to a group to start a tournament {}", Kaomoji::WINK)
    );
    assert_eq!(
        help_text(true, None, true, 5),
        format!("{intro}There is currently no tournament running.\n\nAvailable commands:\n\u{2022} /start - start the tournament")
    );
    assert_eq!(
        help_text(true, Some(TournamentState::Voting), false, 5),
        format!("{intro}The tournament is currently in voting phase. See the pinned message for the current poll.")
    );
    let submitting = help_text(true, Some(TournamentState::Submitting), true, 5);
    assert!(submitting.contains("  \u{2022} rounds=<number between 1 and 5>\n"));
    assert!(submitting.ends_with("\u{2022} /abort - abort the current tournament"));
}

#[test]
fn captions() {
    assert_eq!(round_name_text(1), "This is the final round!");
    assert_eq!(round_name_text(2), "We\u{2019}re in the semifinals.");
    assert_eq!(round_name_text(3), "We\u{2019}re in the quarterfinals.");
    assert_eq!(round_name_text(4), "We\u{2019}re in the round of 16.");
    assert_eq!(
        poll_caption_with(0, 2, "3 minutes"),
        "Match #1 begins! We\u{2019}re in the semifinals.\n\nThis poll stays open for at least 3 minutes."
    );
    assert_eq!(
        poll_caption(4, 1, 180),
        "Match #5 begins! This is the final round!\n\nThis poll stays open for at least 3 minutes."
    );
    assert_eq!(winner_announcement(2, "B"), "GIF B wins match #3!");
}

#[test]
fn webhook_requests_need_post_and_secret() {
    let secret = b"s3cret".to_vec();
    assert_eq!(authorize_request(true, Some(&b"s3cret".to_vec()), &secret), RequestVerdict::Accepted);
    assert_eq!(authorize_request(true, Some(&b"s3cre".to_vec()), &secret), RequestVerdict::NotFound);
    assert_eq!(authorize_request(true, Some(&b"s3creT".to_vec()), &secret), RequestVerdict::NotFound);
    assert_eq!(authorize_request(true, None, &secret), RequestVerdict::NotFound);
    assert_eq!(authorize_request(false, Some(&b"s3cret".to_vec()), &secret), RequestVerdict::NotFound);
}

#[test]
fn tournament_references() {
    assert_eq!(parse_tournament_ref("@gifchat"), TournamentRef::ChatUsername("gifchat".to_string()));
    assert_eq!(parse_tournament_ref("abc123"), TournamentRef::Id("abc123".to_string()));
    assert_eq!(parse_tournament_ref("@"), TournamentRef::ChatUsername(String::new()));
    assert_eq!(parse_tournament_ref(""), TournamentRef::Id(String::new()));
}

#[test]
fn init_db_plans() {
    let plan = plan_init_db(true, Some("gif\"db"), Some("bot"), Some("it's"), true, true).unwrap();
    assert_eq!(plan.create_user.as_deref(), Some("CREATE USER \"bot\" PASSWORD 'it''s'"));
    assert_eq!(plan.create_database.as_deref(), Some("CREATE DATABASE \"gif\"\"db\" WITH OWNER \"bot\""));
    assert_eq!(plan.grant.as_deref(), Some("GRANT ALL ON ALL TABLES IN SCHEMA \"public\" TO \"bot\""));
    let none = plan_init_db(true, None, None, None, false, false).unwrap();
    assert_eq!((none.create_user, none.create_database, none.grant), (None, None, None));
    assert_eq!(plan_init_db(false, None, None, None, false, false), Err(InitDbError::MissingInitConfig));
    assert_eq!(plan_init_db(true, Some("a\0"), None, None, false, false), Err(InitDbError::NullCharacterInIdentifier));
    assert_eq!(plan_init_db(true, None, None, Some("p"), true, false), Err(InitDbError::MissingUser));
    assert_eq!(plan_init_db(true, None, Some("u"), None, true, false), Err(InitDbError::MissingPassword));
    assert_eq!(plan_init_db(true, None, Some("u"), None, false, true), Err(InitDbError::MissingDbName));
    assert_eq!(plan_init_db(true, Some("d"), None, None, false, true), Err(InitDbError::MissingUser));
    assert_eq!(escape_sql_string("a'b''"), "a''b''''");
}
