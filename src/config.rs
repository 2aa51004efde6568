//! Settings of the engine and their validation.

use vstd::prelude::*;

verus! {

#[derive(Debug, Clone)]
pub struct AnimationConfig {
    pub allowed_mime_types: Vec<String>,
    pub max_duration_secs: u16,
    pub max_size_bytes: u64,
    pub save_dir: String,
    pub temp_filename_length: u16,
    pub temp_save_dir: String,
    pub thumbnail_fingerprint_file: String,
    pub thumbnail_fingerprint_threshold: String,
    pub thumbnail_save_dir: String,
    pub vspipe_working_dir: String,
}

#[derive(Debug, Clone)]
pub struct BotConfig {
    pub token: String,
}

#[derive(Debug, Clone)]
pub struct PollConfig {
    pub option_a_text: String,
    pub option_b_text: String,
}

#[derive(Debug, Clone, Copy, PartialEq, Eq, Structural)]
pub struct SchedulerConfig {
    pub job_interval_secs: u32,
    pub job_timeout_secs: u64,
    pub poll_interval_millis: u64,
}

#[derive(Debug, Clone)]
pub struct ServerConfig {
    pub socket_path: String,
    pub socket_permissions: u32,
}

#[derive(Debug, Clone)]
pub struct TournamentConfig {
    pub id_length: u16,
    pub max_rounds: u8,
    pub round_lengths_secs: Vec<u16>,
}

#[derive(Debug, Clone)]
pub struct WebhookConfig {
    pub secret: String,
    pub socket_path: String,
    pub socket_permissions: u32,
    pub url: String,
}

/// The engine's settings (the database settings stand apart).
#[derive(Debug, Clone)]
pub struct Config {
    pub animation: AnimationConfig,
    pub bot: BotConfig,
    pub poll: PollConfig,
    pub scheduler: SchedulerConfig,
    pub server: ServerConfig,
    pub tournament: TournamentConfig,
    pub webhook: WebhookConfig,
}

#[derive(Debug, Clone, Copy, PartialEq, Eq)]
pub enum ConfigValidationError {
    /// The named setting is empty.
    EmptyValue(&'static str),
    InvalidRoundLengths,
    NoAllowedMimeTypes,
    PollOptionsEqual,
}

/// Checks the settings: at least one MIME type, a bot token, two distinct
/// poll options, one round length per round, and a webhook secret and URL.
/// The first failing check is reported.
pub fn validate_config(config: &Config) -> (r: Result<(), ConfigValidationError>)
    ensures
        config.animation.allowed_mime_types@.len() == 0 ==> r == Err::<(), _>(
            ConfigValidationError::NoAllowedMimeTypes,
        ),
        config.animation.allowed_mime_types@.len() > 0 && config.bot.token@.len() == 0 ==> (r matches Err(
            ConfigValidationError::EmptyValue(name),
        ) && name@ == "bot.token"@),
        config.animation.allowed_mime_types@.len() > 0 && config.bot.token@.len() > 0
            && config.poll.option_a_text@ == config.poll.option_b_text@ ==> r == Err::<(), _>(
            ConfigValidationError::PollOptionsEqual,
        ),
        config.animation.allowed_mime_types@.len() > 0 && config.bot.token@.len() > 0
            && config.poll.option_a_text@ != config.poll.option_b_text@
            && config.tournament.round_lengths_secs@.len() != config.tournament.max_rounds
            ==> r == Err::<(), _>(ConfigValidationError::InvalidRoundLengths),
        config.animation.allowed_mime_types@.len() > 0 && config.bot.token@.len() > 0
            && config.poll.option_a_text@ != config.poll.option_b_text@
            && config.tournament.round_lengths_secs@.len() == config.tournament.max_rounds
            && config.webhook.secret@.len() == 0 ==> (r matches Err(
            ConfigValidationError::EmptyValue(name),
        ) && name@ == "webhook.secret"@),
        config.animation.allowed_mime_types@.len() > 0 && config.bot.token@.len() > 0
            && config.poll.option_a_text@ != config.poll.option_b_text@
            && config.tournament.round_lengths_secs@.len() == config.tournament.max_rounds
            && config.webhook.secret@.len() > 0 && config.webhook.url@.len() == 0 ==> (r matches Err(
            ConfigValidationError::EmptyValue(name),
        ) && name@ == "webhook.url"@),
        r is Ok <==> (config.animation.allowed_mime_types@.len() > 0 && config.bot.token@.len() > 0
            && config.poll.option_a_text@ != config.poll.option_b_text@
            && config.tournament.round_lengths_secs@.len() == config.tournament.max_rounds
            && config.webhook.secret@.len() > 0 && config.webhook.url@.len() > 0),
{
    if config.animation.allowed_mime_types.len() == 0 {
        return Err(ConfigValidationError::NoAllowedMimeTypes);
    }
    if config.bot.token.as_str().is_empty() {
        return Err(ConfigValidationError::EmptyValue("bot.token"));
    }
    if config.poll.option_a_text == config.poll.option_b_text {
        return Err(ConfigValidationError::PollOptionsEqual);
    }
    if config.tournament.round_lengths_secs.len() != config.tournament.max_rounds as usize {
        return Err(ConfigValidationError::InvalidRoundLengths);
    }
    if config.webhook.secret.as_str().is_empty() {
        return Err(ConfigValidationError::EmptyValue("webhook.secret"));
    }
    if config.webhook.url.as_str().is_empty() {
        return Err(ConfigValidationError::EmptyValue("webhook.url"));
    }
    Ok(())
}

/// `log2(62)`, the entropy of one alphanumeric character, in units of
/// `10^-15` bits (rounded down).
pub const ENTROPY_PER_CHAR_FEMTOBITS: u128 = 5954196310386875;

pub const FEMTO: u128 = 1000000000000000;

/// How many alphanumeric characters carry `bits` bits of entropy: the least
/// `n` with `n * log2(62) >= bits`.
pub open spec fn token_length_for(bits: nat) -> nat {
    ((bits * FEMTO + ENTROPY_PER_CHAR_FEMTOBITS - 1) / ENTROPY_PER_CHAR_FEMTOBITS as int) as nat
}

/// The length of an alphanumeric token with `bits` bits of entropy.
pub fn alphanum_token_length(bits: u16) -> (r: u16)
    ensures
        r as nat == token_length_for(bits as nat),
{
    let scaled: u128 = bits as u128 * FEMTO + ENTROPY_PER_CHAR_FEMTOBITS - 1;
    let n: u128 = scaled / ENTROPY_PER_CHAR_FEMTOBITS;
    assert(n <= 11007) by (nonlinear_arith)
        requires
            n == scaled / 5954196310386875,
            scaled <= 65535 * 1000000000000000 + 5954196310386874,
    ;
    n as u16
}

} // verus!
