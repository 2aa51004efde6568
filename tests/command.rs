use gifdome::command::{
    parse_command, parse_start_voting, Command, CommandMessage, MessageEntity, ParseCommandError,
    StartVotingParams,
};

fn msg(text: &str, entities: Vec<(u16, u16)>) -> CommandMessage {
    CommandMessage {
        text: Some(text.as_bytes().to_vec()),
        caption: None,
        entities: Some(
            entities
                .into_iter()
                .map(|(offset, length)| MessageEntity { is_bot_command: true, offset, length })
                .collect(),
        ),
        caption_entities: None,
    }
}

fn whole(text: &str) -> CommandMessage {
    msg(text, vec![(0, text.len() as u16)])
}

#[test]
fn commands_by_name() {
    let bot = b"gifbot".to_vec();
    assert_eq!(parse_command(&whole("/start"), Some(&bot)), Ok(Some(Command::Start)));
    assert_eq!(parse_command(&whole("/abort"), Some(&bot)), Ok(Some(Command::Abort)));
    assert_eq!(parse_command(&whole("/help"), None), Ok(Some(Command::Help)));
    assert_eq!(parse_command(&whole("/startvoting"), None), Ok(Some(Command::StartVoting)));
    assert_eq!(parse_command(&whole("/Start"), None), Ok(None));
    assert_eq!(parse_command(&whole("/unknown"), None), Ok(None));
}

#[test]
fn addressed_commands() {
    let bot = b"gifbot".to_vec();
    assert_eq!(parse_command(&whole("/start@GifBot"), Some(&bot)), Ok(Some(Command::Start)));
    assert_eq!(parse_command(&whole("/start@otherbot"), Some(&bot)), Ok(None));
    assert_eq!(parse_command(&whole("/start@GifBot"), None), Ok(None));
    assert_eq!(parse_command(&whole("/start@"), Some(&bot)), Ok(None));
}

#[test]
fn command_entity_inside_text() {
    let text = "please /startvoting minimumvotes=3 rounds=2";
    assert_eq!(parse_command(&msg(text, vec![(7, 12)]), None), Ok(Some(Command::StartVoting)));
    assert_eq!(parse_command(&msg(text, vec![(7, 200)]), None), Ok(None));
    assert_eq!(parse_command(&msg("\u{e9}/help", vec![(1, 6)]), None), Ok(None));
}

#[test]
fn command_parse_errors() {
    assert_eq!(
        parse_command(&msg("/start /help", vec![(0, 6), (7, 5)]), None),
        Err(ParseCommandError::MultipleCommands)
    );
    let mut both = whole("/start");
    both.caption_entities = Some(vec![]);
    assert_eq!(parse_command(&both, None), Err(ParseCommandError::MultipleCommands));
    let mut no_text = whole("/start");
    no_text.text = None;
    assert_eq!(parse_command(&no_text, None), Err(ParseCommandError::MissingText));
    let plain = CommandMessage { text: Some(b"hi".to_vec()), caption: None, entities: None, caption_entities: None };
    assert_eq!(parse_command(&plain, None), Ok(None));
    let mut not_command = whole("/start");
    not_command.entities.as_mut().unwrap()[0].is_bot_command = false;
    assert_eq!(parse_command(&not_command, None), Ok(None));
    let caption = CommandMessage {
        text: None,
        caption: Some(b"/abort".to_vec()),
        entities: None,
        caption_entities: Some(vec![MessageEntity { is_bot_command: true, offset: 0, length: 6 }]),
    };
    assert_eq!(parse_command(&caption, None), Ok(Some(Command::Abort)));
}

#[test]
fn start_voting_parameters() {
    let p = |min_votes, rounds| Some(StartVotingParams { min_votes, rounds });
    assert_eq!(parse_start_voting("/startvoting minimumvotes=4 rounds=3", 5), p(4, 3));
    assert_eq!(parse_start_voting("/startvoting rounds=3 minimumvotes=4", 5), p(4, 3));
    assert_eq!(parse_start_voting("  /startvoting@gif_bot  minimumvotes=255\trounds=5 \n", 5), p(255, 5));
    assert_eq!(parse_start_voting("/startvoting minimumvotes=007 rounds=01", 5), p(7, 1));
    assert_eq!(parse_start_voting("/startvoting\u{a0}minimumvotes=4 rounds=3", 5), p(4, 3));
}

#[test]
fn start_voting_rejections() {
    assert_eq!(parse_start_voting("/startvoting minimumvotes=0 rounds=3", 5), None);
    assert_eq!(parse_start_voting("/startvoting minimumvotes=256 rounds=3", 5), None);
    assert_eq!(parse_start_voting("/startvoting minimumvotes=4 rounds=6", 5), None);
    assert_eq!(parse_start_voting("/startvoting minimumvotes=4 rounds=0", 5), None);
    assert_eq!(parse_start_voting("/startvoting minimumvotes=4", 5), None);
    assert_eq!(parse_start_voting("/startvoting minimumvotes=4 rounds=3 extra", 5), None);
    assert_eq!(parse_start_voting("/startvotingminimumvotes=4 rounds=3", 5), None);
    assert_eq!(parse_start_voting("/startvoting@ minimumvotes=4 rounds=3", 5), None);
    assert_eq!(parse_start_voting("/startvoting minimumvotes=4 minimumvotes=3", 5), None);
    assert_eq!(parse_start_voting("/startvoting minimumvotes=99999999999999999999 rounds=3", 5), None);
    assert_eq!(parse_start_voting("", 5), None);
}
