//! What the bot says: command replies, help, and the captions of matchups.

use crate::bracket::pow2;
use crate::bracket::pow2_u64;
use crate::db::TournamentState;
use crate::text::{decimal, decimal_string, Kaomoji};
use vstd::prelude::*;
use vstd::string::StringExecFns;

verus! {

pub fn not_admin_text() -> (r: String)
    ensures
        r@ == "Only group admins can use that command "@ + Kaomoji::WINK@,
{
    let mut t = String::from_str("Only group admins can use that command ");
    t.append(Kaomoji::WINK);
    t
}

pub fn invite_text() -> (r: String)
    ensures
        r@ == "Invite me to a group to start a tournament "@ + Kaomoji::WINK@,
{
    let mut t = String::from_str("Invite me to a group to start a tournament ");
    t.append(Kaomoji::WINK);
    t
}

pub fn already_running_text() -> (r: String)
    ensures
        r@ == "There is already a tournament running "@ + Kaomoji::CONFUSED@,
{
    let mut t = String::from_str("There is already a tournament running ");
    t.append(Kaomoji::CONFUSED);
    t
}

pub fn no_tournament_text() -> (r: String)
    ensures
        r@ == "There is no tournament running "@ + Kaomoji::CONFUSED@,
{
    let mut t = String::from_str("There is no tournament running ");
    t.append(Kaomoji::CONFUSED);
    t
}

pub fn stopped_text() -> (r: String)
    ensures
        r@ == "I have stopped the tournament "@ + Kaomoji::SAD@,
{
    let mut t = String::from_str("I have stopped the tournament ");
    t.append(Kaomoji::SAD);
    t
}

pub fn unexpected_error_text() -> (r: String)
    ensures
        r@ == "I ran into an unexpected error "@ + Kaomoji::FRUSTRATED@,
{
    let mut t = String::from_str("I ran into an unexpected error ");
    t.append(Kaomoji::FRUSTRATED);
    t
}

pub open spec fn how_to_submit() -> Seq<char> {
    "To submit a GIF, just send one to the group. You can cast your vote on an already submitted GIF by sending it again; forwarding a GIF sent by someone else also works."@
}

/// The message that opens a tournament.
pub fn started_text() -> (r: String)
    ensures
        r@ == "The GIFdome has started! Send me your best GIFs! "@ + Kaomoji::EXCITED@ + "\n\n"@
            + how_to_submit(),
{
    let mut t = String::from_str("The GIFdome has started! Send me your best GIFs! ");
    t.append(Kaomoji::EXCITED);
    t.append("\n\n");
    t.append("To submit a GIF, just send one to the group. You can cast your vote on an already submitted GIF by sending it again; forwarding a GIF sent by someone else also works.");
    t
}

pub fn invalid_parameters_text() -> (r: String)
    ensures
        r@ == "Invalid parameters; see /help for command usage."@,
{
    String::from_str("Invalid parameters; see /help for command usage.")
}

pub fn not_submitting_text() -> (r: String)
    ensures
        r@ == "The tournament must be in submission phase to start voting."@,
{
    String::from_str("The tournament must be in submission phase to start voting.")
}

pub open spec fn rounds_phrase(rounds: nat) -> Seq<char> {
    if rounds == 1 {
        "a single round"@
    } else {
        decimal(rounds) + " rounds"@
    }
}

/// The reply when the pool is too small for the requested bracket.
pub open spec fn not_enough_submissions(count: nat, needed: nat, rounds: nat) -> Seq<char> {
    let tail = " are needed for "@ + rounds_phrase(rounds) + "."@;
    if count == 0 {
        "There are no submissions. At least "@ + decimal(needed) + tail
    } else if count == 1 {
        "There is only one submission. At least "@ + decimal(needed) + tail
    } else {
        "There are only "@ + decimal(count) + " submissions. At least "@ + decimal(needed) + tail
    }
}

pub fn not_enough_submissions_text(count: u64, needed: u32, rounds: u32) -> (r: String)
    ensures
        r@ == not_enough_submissions(count as nat, needed as nat, rounds as nat),
{
    let mut t = if count == 0 {
        String::from_str("There are no submissions. At least ")
    } else if count == 1 {
        String::from_str("There is only one submission. At least ")
    } else {
        let mut t = String::from_str("There are only ");
        t.append(decimal_string(count).as_str());
        t.append(" submissions. At least ");
        t
    };
    t.append(decimal_string(needed as u64).as_str());
    t.append(" are needed for ");
    if rounds == 1 {
        t.append("a single round");
    } else {
        t.append(decimal_string(rounds as u64).as_str());
        t.append(" rounds");
    }
    t.append(".");
    t
}

pub open spec fn help_intro() -> Seq<char> {
    "The GIFdome aims to find the ultimate GIF by process of elimination.\n"@
}

/// The help text, by where it is asked and what runs there. `state` is the
/// chat's active tournament, if any; admins also see their commands.
pub open spec fn help(in_group: bool, state: Option<TournamentState>, is_admin: bool, max_rounds: nat) -> Seq<char> {
    if !in_group {
        help_intro() + "\n"@ + "Invite me to a group to start a tournament "@ + Kaomoji::WINK@
    } else if state == Some(TournamentState::Submitting) {
        let base = help_intro() + "\n"@
            + "The tournament is currently in submission phase. To submit a GIF, just send one to the group."@
            + "\n"@
            + "You can cast your vote on an already submitted GIF by sending it again; forwarding a GIF sent by someone else also works."@;
        if is_admin {
            base + "\n\nAvailable commands:\n"@
                + "\u{2022} /startvoting - close submissions and start the voting phase. After the command, specify:\n"@
                + "  \u{2022} minimumvotes=<number between 1 and 255>\n"@
                + "  \u{2022} rounds=<number between 1 and "@ + decimal(max_rounds) + ">\n"@
                + "\u{2022} /abort - abort the current tournament"@
        } else {
            base
        }
    } else if state == Some(TournamentState::Voting) {
        let base = help_intro() + "\n"@
            + "The tournament is currently in voting phase. See the pinned message for the current poll."@;
        if is_admin {
            base + "\n\nAvailable commands:\n"@ + "\u{2022} /abort - abort the current tournament"@
        } else {
            base
        }
    } else {
        let base = help_intro() + "\n"@ + "There is currently no tournament running."@;
        if is_admin {
            base + "\n\nAvailable commands:\n"@ + "\u{2022} /start - start the tournament"@
        } else {
            base
        }
    }
}

pub fn help_text(in_group: bool, state: Option<TournamentState>, is_admin: bool, max_rounds: u8) -> (r:
    String)
    ensures
        r@ == help(in_group, state, is_admin, max_rounds as nat),
{
    let mut t = String::from_str("The GIFdome aims to find the ultimate GIF by process of elimination.\n");
    t.append("\n");
    if !in_group {
        t.append("Invite me to a group to start a tournament ");
        t.append(Kaomoji::WINK);
        return t;
    }
    match state {
        Some(TournamentState::Submitting) => {
            t.append("The tournament is currently in submission phase. To submit a GIF, just send one to the group.");
            t.append("\n");
            t.append("You can cast your vote on an already submitted GIF by sending it again; forwarding a GIF sent by someone else also works.");
            if is_admin {
                t.append("\n\nAvailable commands:\n");
                t.append("\u{2022} /startvoting - close submissions and start the voting phase. After the command, specify:\n");
                t.append("  \u{2022} minimumvotes=<number between 1 and 255>\n");
                t.append("  \u{2022} rounds=<number between 1 and ");
                t.append(decimal_string(max_rounds as u64).as_str());
                t.append(">\n");
                t.append("\u{2022} /abort - abort the current tournament");
            }
        },
        Some(TournamentState::Voting) => {
            t.append("The tournament is currently in voting phase. See the pinned message for the current poll.");
            if is_admin {
                t.append("\n\nAvailable commands:\n");
                t.append("\u{2022} /abort - abort the current tournament");
            }
        },
        _ => {
            t.append("There is currently no tournament running.");
            if is_admin {
                t.append("\n\nAvailable commands:\n");
                t.append("\u{2022} /start - start the tournament");
            }
        },
    }
    t
}

/// How the caption of a matchup names its round.
pub open spec fn round_name(round: nat) -> Seq<char> {
    if round == 1 {
        "This is the final round!"@
    } else if round == 2 {
        "We\u{2019}re in the semifinals."@
    } else if round == 3 {
        "We\u{2019}re in the quarterfinals."@
    } else {
        "We\u{2019}re in the round of "@ + decimal(pow2(round)) + "."@
    }
}

pub fn round_name_text(round: u32) -> (r: String)
    requires
        round <= 63,
    ensures
        r@ == round_name(round as nat),
{
    if round == 1 {
        String::from_str("This is the final round!")
    } else if round == 2 {
        String::from_str("We\u{2019}re in the semifinals.")
    } else if round == 3 {
        String::from_str("We\u{2019}re in the quarterfinals.")
    } else {
        let mut t = String::from_str("We\u{2019}re in the round of ");
        t.append(decimal_string(pow2_u64(round)).as_str());
        t.append(".");
        t
    }
}

/// The text that `time_humanize` gives a duration of `secs` seconds, precise
/// and in the present tense.
pub uninterp spec fn humanized_duration(secs: nat) -> Seq<char>;

/// Relies on time_humanize's `HumanTime::to_text_en` (precise accuracy,
/// present tense) for a duration of `secs` seconds; the text depends on the
/// duration alone.
#[verifier::external_body]
fn humanize_duration(secs: u64) -> (r: String)
    ensures
        r@ == humanized_duration(secs as nat),
{
    time_humanize::HumanTime::from(std::time::Duration::from_secs(secs)).to_text_en(
        time_humanize::Accuracy::Precise,
        time_humanize::Tense::Present,
    )
}

/// The caption of the clip that opens matchup `index`.
pub open spec fn poll_caption_spec(index: nat, round: nat, duration: Seq<char>) -> Seq<char> {
    "Match #"@ + decimal(index + 1) + " begins! "@ + round_name(round)
        + "\n\nThis poll stays open for at least "@ + duration + "."@
}

/// The caption of matchup `index` of round `round`, given its duration in
/// words.
pub fn poll_caption_with(index: u32, round: u32, duration_text: &str) -> (r: String)
    requires
        round <= 63,
    ensures
        r@ == poll_caption_spec(index as nat, round as nat, duration_text@),
{
    let mut t = String::from_str("Match #");
    t.append(decimal_string(index as u64 + 1).as_str());
    t.append(" begins! ");
    t.append(round_name_text(round).as_str());
    t.append("\n\nThis poll stays open for at least ");
    t.append(duration_text);
    t.append(".");
    t
}

/// The caption of matchup `index` of round `round`, whose poll stays open for
/// `duration_secs` seconds.
pub fn poll_caption(index: u32, round: u32, duration_secs: u16) -> (r: String)
    requires
        round <= 63,
    ensures
        r@ == poll_caption_spec(
            index as nat,
            round as nat,
            humanized_duration(duration_secs as nat),
        ),
{
    let d = humanize_duration(duration_secs as u64);
    poll_caption_with(index, round, d.as_str())
}

/// The announcement of the winner of matchup `index`, under its poll option.
pub fn winner_announcement(index: u32, option_text: &str) -> (r: String)
    ensures
        r@ == "GIF "@ + option_text@ + " wins match #"@ + decimal(index as nat + 1) + "!"@,
{
    let mut t = String::from_str("GIF ");
    t.append(option_text);
    t.append(" wins match #");
    t.append(decimal_string(index as u64 + 1).as_str());
    t.append("!");
    t
}

pub fn champion_caption() -> (r: String)
    ensures
        r@ == "This is, officially, the best GIF. Thanks for voting!"@,
{
    String::from_str("This is, officially, the best GIF. Thanks for voting!")
}

} // verus!
