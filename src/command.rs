//! The in-chat command grammar: which command a message carries, and the
//! parameters of `/startvoting`.

use vstd::prelude::*;
use vstd::string::{StrSliceExecFns, StringExecFns};

verus! {

#[derive(Debug, Clone, Copy, PartialEq, Eq, Structural)]
pub enum Command {
    Abort,
    Help,
    Start,
    StartVoting,
}

#[derive(Debug, Clone, Copy, PartialEq, Eq, Structural)]
pub enum ParseCommandError {
    MissingText,
    MultipleCommands,
}

/// A formatting entity of a message: its byte range, and whether it marks a
/// bot command.
#[derive(Debug, Clone, Copy, PartialEq, Eq, Structural)]
pub struct MessageEntity {
    pub is_bot_command: bool,
    pub offset: u16,
    pub length: u16,
}

/// What the command parser reads of a message: its text or caption (as
/// UTF-8 bytes) and their entities.
#[derive(Debug)]
pub struct CommandMessage {
    pub text: Option<Vec<u8>>,
    pub caption: Option<Vec<u8>>,
    pub entities: Option<Vec<MessageEntity>>,
    pub caption_entities: Option<Vec<MessageEntity>>,
}

/// `[0-9A-Za-z_]`
pub open spec fn is_word_byte(b: u8) -> bool {
    (48 <= b <= 57) || (65 <= b <= 90) || (97 <= b <= 122) || b == 95
}

pub open spec fn is_word(s: Seq<u8>) -> bool {
    s.len() > 0 && forall|i: int| 0 <= i < s.len() ==> is_word_byte(#[trigger] s[i])
}

pub open spec fn ascii_lower(b: u8) -> u8 {
    if 65 <= b <= 90 {
        (b + 32) as u8
    } else {
        b
    }
}

pub open spec fn lower_bytes(s: Seq<u8>) -> Seq<u8> {
    Seq::new(s.len(), |i: int| ascii_lower(s[i]))
}

/// The command with this exact lower-case name.
pub open spec fn command_named(s: Seq<u8>) -> Option<Command> {
    if s == seq![97u8, 98, 111, 114, 116] {
        Some(Command::Abort)
    } else if s == seq![104u8, 101, 108, 112] {
        Some(Command::Help)
    } else if s == seq![115u8, 116, 97, 114, 116] {
        Some(Command::Start)
    } else if s == seq![115u8, 116, 97, 114, 116, 118, 111, 116, 105, 110, 103] {
        Some(Command::StartVoting)
    } else {
        None
    }
}

/// `s` is `/name@user` with `@` at position `p`.
pub open spec fn addressed_at(s: Seq<u8>, p: int) -> bool {
    &&& 1 < p < s.len() - 1
    &&& s[0] == 47
    &&& s[p] == 64
    &&& is_word(s.subrange(1, p))
    &&& is_word(s.subrange(p + 1, s.len() as int))
}

/// The command that the text `s` of a bot-command entity names: `/name`, or
/// `/name@user` where `user` is, ignoring ASCII case, the bot's lower-case
/// username `bot`.
pub open spec fn command_in(s: Seq<u8>, bot: Option<Seq<u8>>) -> Option<Command> {
    if s.len() >= 2 && s[0] == 47 && is_word(s.subrange(1, s.len() as int)) {
        command_named(s.subrange(1, s.len() as int))
    } else if bot is Some && exists|p: int| addressed_at(s, p) {
        let p = choose|p: int| addressed_at(s, p);
        if lower_bytes(s.subrange(p + 1, s.len() as int)) == bot.unwrap() {
            command_named(s.subrange(1, p))
        } else {
            None
        }
    } else {
        None
    }
}

/// The bot-command entities among `es`, in order.
pub open spec fn bot_commands(es: Seq<MessageEntity>) -> Seq<MessageEntity>
    decreases es.len(),
{
    if es.len() == 0 {
        es
    } else if es.last().is_bot_command {
        bot_commands(es.drop_last()).push(es.last())
    } else {
        bot_commands(es.drop_last())
    }
}

pub open spec fn command_from(es: Seq<MessageEntity>, text: Option<Vec<u8>>, bot: Option<Seq<u8>>) -> Result<
    Option<Command>,
    ParseCommandError,
> {
    if text is None {
        Err(ParseCommandError::MissingText)
    } else {
        let cs = bot_commands(es);
        let t = text.unwrap()@;
        if cs.len() == 0 {
            Ok(None)
        } else if cs.len() > 1 {
            Err(ParseCommandError::MultipleCommands)
        } else if cs[0].offset + cs[0].length > t.len() {
            Ok(None)
        } else {
            Ok(command_in(t.subrange(cs[0].offset as int, cs[0].offset + cs[0].length), bot))
        }
    }
}

/// The command that a message carries: its single bot-command entity, read
/// from the text (or the caption, whichever the entities belong to).
pub open spec fn parse_command_spec(m: CommandMessage, bot: Option<Seq<u8>>) -> Result<
    Option<Command>,
    ParseCommandError,
> {
    match (m.entities, m.caption_entities) {
        (Some(_), Some(_)) => Err(ParseCommandError::MultipleCommands),
        (None, None) => Ok(None),
        (Some(es), None) => command_from(es@, m.text, bot),
        (None, Some(es)) => command_from(es@, m.caption, bot),
    }
}

fn is_word_byte_exec(b: u8) -> (r: bool)
    ensures
        r == is_word_byte(b),
{
    (48 <= b && b <= 57) || (65 <= b && b <= 90) || (97 <= b && b <= 122) || b == 95
}

fn is_word_range(s: &Vec<u8>, from: usize, to: usize) -> (r: bool)
    requires
        from <= to <= s@.len(),
    ensures
        r == is_word(s@.subrange(from as int, to as int)),
{
    if from == to {
        return false;
    }
    let mut i: usize = from;
    while i < to
        invariant
            from <= i <= to <= s@.len(),
            forall|k: int| from <= k < i ==> is_word_byte(#[trigger] s@[k]),
        decreases to - i,
    {
        if !is_word_byte_exec(s[i]) {
            assert(!is_word_byte(s@.subrange(from as int, to as int)[i - from]));
            return false;
        }
        i = i + 1;
    }
    assert forall|k: int| 0 <= k < to - from implies is_word_byte(
        #[trigger] s@.subrange(from as int, to as int)[k],
    ) by {
        assert(s@.subrange(from as int, to as int)[k] == s@[from + k]);
    }
    true
}

fn range_is(s: &Vec<u8>, from: usize, to: usize, w: &Vec<u8>) -> (r: bool)
    requires
        from <= to <= s@.len(),
    ensures
        r == (s@.subrange(from as int, to as int) == w@),
{
    if to - from != w.len() {
        return false;
    }
    let mut i: usize = 0;
    while i < w.len()
        invariant
            to - from == w@.len(),
            from <= to <= s@.len(),
            i <= w@.len(),
            forall|k: int| 0 <= k < i ==> s@[from + k] == #[trigger] w@[k],
        decreases w@.len() - i,
    {
        if s[from + i] != w[i] {
            assert(s@.subrange(from as int, to as int)[i as int] != w@[i as int]);
            return false;
        }
        i = i + 1;
    }
    assert(s@.subrange(from as int, to as int) =~= w@);
    true
}

fn command_named_range(s: &Vec<u8>, from: usize, to: usize) -> (r: Option<Command>)
    requires
        from <= to <= s@.len(),
    ensures
        r == command_named(s@.subrange(from as int, to as int)),
{
    let abort: Vec<u8> = vec![97u8, 98, 111, 114, 116];
    let help: Vec<u8> = vec![104u8, 101, 108, 112];
    let start: Vec<u8> = vec![115u8, 116, 97, 114, 116];
    let start_voting: Vec<u8> = vec![115u8, 116, 97, 114, 116, 118, 111, 116, 105, 110, 103];
    assert(abort@ == seq![97u8, 98, 111, 114, 116]);
    assert(help@ == seq![104u8, 101, 108, 112]);
    assert(start@ == seq![115u8, 116, 97, 114, 116]);
    assert(start_voting@ == seq![115u8, 116, 97, 114, 116, 118, 111, 116, 105, 110, 103]);
    if range_is(s, from, to, &abort) {
        Some(Command::Abort)
    } else if range_is(s, from, to, &help) {
        Some(Command::Help)
    } else if range_is(s, from, to, &start) {
        Some(Command::Start)
    } else if range_is(s, from, to, &start_voting) {
        Some(Command::StartVoting)
    } else {
        None
    }
}

fn lower_equals(s: &Vec<u8>, from: usize, to: usize, bot: &Vec<u8>) -> (r: bool)
    requires
        from <= to <= s@.len(),
    ensures
        r == (lower_bytes(s@.subrange(from as int, to as int)) == bot@),
{
    if to - from != bot.len() {
        return false;
    }
    let mut i: usize = 0;
    while i < bot.len()
        invariant
            to - from == bot@.len(),
            from <= to <= s@.len(),
            i <= bot@.len(),
            forall|k: int| 0 <= k < i ==> ascii_lower(s@[from + k]) == #[trigger] bot@[k],
        decreases bot@.len() - i,
    {
        let b = s[from + i];
        let lb: u8 = if 65 <= b && b <= 90 {
            b + 32
        } else {
            b
        };
        if lb != bot[i] {
            assert(lower_bytes(s@.subrange(from as int, to as int))[i as int] != bot@[i as int]);
            return false;
        }
        i = i + 1;
    }
    assert(lower_bytes(s@.subrange(from as int, to as int)) =~= bot@);
    true
}

/// The command named by `s[from..to]`, the text of a bot-command entity.
fn command_in_range(s: &Vec<u8>, from: usize, to: usize, bot: Option<&Vec<u8>>) -> (r: Option<
    Command,
>)
    requires
        from <= to <= s@.len(),
    ensures
        r == command_in(
            s@.subrange(from as int, to as int),
            match bot {
                Some(b) => Some(b@),
                None => None,
            },
        ),
{
    let ghost t = s@.subrange(from as int, to as int);
    let ghost bv: Option<Seq<u8>> = match bot {
        Some(b) => Some(b@),
        None => None,
    };
    if to - from < 2 || s[from] != 47 {
        proof {
            assert forall|p: int| !addressed_at(t, p) by {
            }
        }
        return None;
    }
    let mut q: usize = from + 1;
    while q < to && s[q] != 64
        invariant
            from + 1 <= q <= to <= s@.len(),
            forall|k: int| from + 1 <= k < q ==> s@[k] != 64,
        decreases to - q,
    {
        q = q + 1;
    }
    proof {
        assert(t.subrange(1, t.len() as int) =~= s@.subrange(from + 1, to as int));
    }
    if q == to {
        proof {
            assert forall|p: int| !addressed_at(t, p) by {
                if 1 < p < t.len() - 1 {
                    assert(t[p] == s@[from + p]);
                }
            }
        }
        if is_word_range(s, from + 1, to) {
            return command_named_range(s, from + 1, to);
        }
        return None;
    }
    proof {
        assert(t[q - from] == 64);
        assert(!is_word_byte(t.subrange(1, t.len() as int)[q - from - 1]));
        assert(!is_word(t.subrange(1, t.len() as int)));
    }
    let p: usize = q - from;
    let head = is_word_range(s, from + 1, q);
    let tail = if q + 1 <= to {
        is_word_range(s, q + 1, to)
    } else {
        false
    };
    proof {
        assert(t.subrange(1, p as int) =~= s@.subrange(from + 1, q as int));
        assert(t.subrange(p + 1, t.len() as int) =~= s@.subrange(q + 1, to as int));
        assert forall|other: int| addressed_at(t, other) implies other == p by {
            if other < p {
                assert(!is_word_byte(t.subrange(other + 1, t.len() as int)[p - other - 1]));
            } else if other > p {
                assert(!is_word_byte(t.subrange(1, other)[p - 1]));
            }
        }
    }
    match bot {
        None => None,
        Some(b) => {
            if head && tail && q + 1 < to {
                proof {
                    assert(addressed_at(t, p as int));
                }
                if lower_equals(s, q + 1, to, b) {
                    command_named_range(s, from + 1, q)
                } else {
                    None
                }
            } else {
                proof {
                    assert(!addressed_at(t, p as int));
                }
                None
            }
        },
    }
}

fn single_bot_command(es: &Vec<MessageEntity>) -> (r: Result<Option<MessageEntity>, ()>)
    ensures
        bot_commands(es@).len() == 0 ==> r == Ok::<Option<MessageEntity>, ()>(None),
        bot_commands(es@).len() == 1 ==> r == Ok::<_, ()>(Some(bot_commands(es@)[0])),
        bot_commands(es@).len() > 1 ==> r is Err,
{
    let mut found: Vec<MessageEntity> = Vec::new();
    let mut i: usize = 0;
    while i < es.len()
        invariant
            i <= es@.len(),
            found@ == bot_commands(es@.subrange(0, i as int)),
        decreases es@.len() - i,
    {
        proof {
            assert(es@.subrange(0, i + 1).drop_last() =~= es@.subrange(0, i as int));
        }
        if es[i].is_bot_command {
            found.push(es[i]);
        }
        i = i + 1;
    }
    proof {
        assert(es@.subrange(0, es@.len() as int) =~= es@);
    }
    if found.len() == 0 {
        Ok(None)
    } else if found.len() == 1 {
        Ok(Some(found[0]))
    } else {
        Err(())
    }
}

fn command_from_exec(es: &Vec<MessageEntity>, text: &Option<Vec<u8>>, bot: Option<&Vec<u8>>) -> (r:
    Result<Option<Command>, ParseCommandError>)
    ensures
        r == command_from(
            es@,
            *text,
            match bot {
                Some(b) => Some(b@),
                None => None,
            },
        ),
{
    let t = match text {
        None => return Err(ParseCommandError::MissingText),
        Some(t) => t,
    };
    let e = match single_bot_command(es) {
        Err(()) => return Err(ParseCommandError::MultipleCommands),
        Ok(None) => return Ok(None),
        Ok(Some(e)) => e,
    };
    let end: usize = e.offset as usize + e.length as usize;
    if end > t.len() {
        return Ok(None);
    }
    Ok(command_in_range(t, e.offset as usize, end, bot))
}

/// The command that `message` carries, if any. `bot_username` is the bot's
/// username in lower case; without one, commands addressed to a user are
/// ignored.
pub fn parse_command(message: &CommandMessage, bot_username: Option<&Vec<u8>>) -> (r: Result<
    Option<Command>,
    ParseCommandError,
>)
    ensures
        r == parse_command_spec(
            *message,
            match bot_username {
                Some(b) => Some(b@),
                None => None,
            },
        ),
{
    match (&message.entities, &message.caption_entities) {
        (Some(_), Some(_)) => Err(ParseCommandError::MultipleCommands),
        (None, None) => Ok(None),
        (Some(es), None) => command_from_exec(es, &message.text, bot_username),
        (None, Some(es)) => command_from_exec(es, &message.caption, bot_username),
    }
}

/// Unicode white space, as regular expressions read `\s`.
pub open spec fn is_space(c: char) -> bool {
    ('\u{9}' <= c <= '\u{d}') || c == ' ' || c == '\u{85}' || c == '\u{a0}' || c == '\u{1680}'
        || ('\u{2000}' <= c <= '\u{200a}') || c == '\u{2028}' || c == '\u{2029}' || c
        == '\u{202f}' || c == '\u{205f}' || c == '\u{3000}'
}

pub open spec fn is_word_char(c: char) -> bool {
    ('0' <= c <= '9') || ('A' <= c <= 'Z') || ('a' <= c <= 'z') || c == '_'
}

pub open spec fn is_digit(c: char) -> bool {
    '0' <= c <= '9'
}

/// The first position at or after `i` where `s` holds no white space.
pub open spec fn skip_spaces(s: Seq<char>, i: int) -> int
    decreases s.len() - i,
{
    if 0 <= i < s.len() && is_space(s[i]) {
        skip_spaces(s, i + 1)
    } else {
        i
    }
}

pub open spec fn skip_word(s: Seq<char>, i: int) -> int
    decreases s.len() - i,
{
    if 0 <= i < s.len() && is_word_char(s[i]) {
        skip_word(s, i + 1)
    } else {
        i
    }
}

pub open spec fn skip_digits(s: Seq<char>, i: int) -> int
    decreases s.len() - i,
{
    if 0 <= i < s.len() && is_digit(s[i]) {
        skip_digits(s, i + 1)
    } else {
        i
    }
}

/// The number that the digits `s[i..j]` write.
pub open spec fn digits_value(s: Seq<char>, i: int, j: int) -> nat
    decreases j - i,
{
    if j <= i {
        0
    } else {
        digits_value(s, i, j - 1) * 10 + (s[j - 1] as nat - 48) as nat
    }
}

pub open spec fn has_at(s: Seq<char>, i: int, w: Seq<char>) -> bool {
    0 <= i && i + w.len() <= s.len() && s.subrange(i, i + w.len()) == w
}

/// `key=<digits>` at `i`: the end of the digits, or -1.
pub open spec fn key_value_end(s: Seq<char>, i: int, key: Seq<char>) -> int {
    if has_at(s, i, key) && skip_digits(s, i + key.len()) > i + key.len() {
        skip_digits(s, i + key.len())
    } else {
        -1
    }
}

/// Position after `/startvoting`, with an optional `@user` suffix, or -1.
pub open spec fn command_end(s: Seq<char>) -> int {
    let a = skip_spaces(s, 0);
    let b = a + "/startvoting"@.len();
    if !has_at(s, a, "/startvoting"@) {
        -1
    } else if b < s.len() && s[b] == '@' {
        if skip_word(s, b + 1) > b + 1 {
            skip_word(s, b + 1)
        } else {
            -1
        }
    } else {
        b
    }
}

/// The parameters `(minimumvotes, rounds)` of a `/startvoting` message: the
/// command, then `minimumvotes=<digits>` and `rounds=<digits>` in either order,
/// separated by white space.
pub open spec fn start_voting_args(s: Seq<char>) -> Option<(nat, nat)> {
    let c = command_end(s);
    let d = skip_spaces(s, c);
    if c < 0 || d == c {
        None
    } else {
        let first_min = key_value_end(s, d, "minimumvotes="@);
        let first_rounds = key_value_end(s, d, "rounds="@);
        if first_min >= 0 {
            let e = skip_spaces(s, first_min);
            let f = key_value_end(s, e, "rounds="@);
            if e > first_min && f >= 0 && skip_spaces(s, f) == s.len() {
                Some(
                    (
                        digits_value(s, d + "minimumvotes="@.len(), first_min),
                        digits_value(s, e + "rounds="@.len(), f),
                    ),
                )
            } else {
                None
            }
        } else if first_rounds >= 0 {
            let e = skip_spaces(s, first_rounds);
            let f = key_value_end(s, e, "minimumvotes="@);
            if e > first_rounds && f >= 0 && skip_spaces(s, f) == s.len() {
                Some(
                    (
                        digits_value(s, e + "minimumvotes="@.len(), f),
                        digits_value(s, d + "rounds="@.len(), first_rounds),
                    ),
                )
            } else {
                None
            }
        } else {
            None
        }
    }
}

/// Validated parameters of `/startvoting`.
#[derive(Debug, Clone, Copy, PartialEq, Eq, Structural)]
pub struct StartVotingParams {
    pub min_votes: i16,
    pub rounds: i16,
}

fn is_space_exec(c: char) -> (r: bool)
    ensures
        r == is_space(c),
{
    ('\u{9}' <= c && c <= '\u{d}') || c == ' ' || c == '\u{85}' || c == '\u{a0}' || c
        == '\u{1680}' || ('\u{2000}' <= c && c <= '\u{200a}') || c == '\u{2028}' || c
        == '\u{2029}' || c == '\u{202f}' || c == '\u{205f}' || c == '\u{3000}'
}

fn is_digit_exec(c: char) -> (r: bool)
    ensures
        r == is_digit(c),
{
    '0' <= c && c <= '9'
}

fn is_word_char_exec(c: char) -> (r: bool)
    ensures
        r == is_word_char(c),
{
    ('0' <= c && c <= '9') || ('A' <= c && c <= 'Z') || ('a' <= c && c <= 'z') || c == '_'
}

fn skip_spaces_exec(s: &str, n: usize, i: usize) -> (r: usize)
    requires
        n == s@.len(),
        i <= n,
    ensures
        r as int == skip_spaces(s@, i as int),
        i <= r <= n,
    decreases n - i,
{
    if i < n && is_space_exec(s.get_char(i)) {
        skip_spaces_exec(s, n, i + 1)
    } else {
        i
    }
}

fn skip_word_exec(s: &str, n: usize, i: usize) -> (r: usize)
    requires
        n == s@.len(),
        i <= n,
    ensures
        r as int == skip_word(s@, i as int),
        i <= r <= n,
    decreases n - i,
{
    if i < n && is_word_char_exec(s.get_char(i)) {
        skip_word_exec(s, n, i + 1)
    } else {
        i
    }
}

/// Skips digits from `i`; also returns their value, capped at 100000.
fn skip_digits_exec(s: &str, n: usize, i: usize) -> (r: (usize, u64))
    requires
        n == s@.len(),
        i <= n,
    ensures
        r.0 as int == skip_digits(s@, i as int),
        i <= r.0 <= n,
        r.1 == if digits_value(s@, i as int, r.0 as int) < 100000 {
            digits_value(s@, i as int, r.0 as int)
        } else {
            100000
        },
{
    let mut j: usize = i;
    let mut v: u64 = 0;
    while j < n && is_digit_exec(s.get_char(j))
        invariant
            n == s@.len(),
            i <= j <= n,
            skip_digits(s@, i as int) == skip_digits(s@, j as int),
            v == if digits_value(s@, i as int, j as int) < 100000 {
                digits_value(s@, i as int, j as int)
            } else {
                100000
            },
        decreases n - j,
    {
        let d: u64 = (s.get_char(j) as u32 - 48) as u64;
        let ghost before = digits_value(s@, i as int, j as int);
        proof {
            assert(digits_value(s@, i as int, j + 1) == before * 10 + d);
            assert(before * 10 + d >= before) by (nonlinear_arith)
                requires
                    before >= 0,
                    d >= 0,
            ;
        }
        if v < 100000 {
            let w: u64 = v * 10 + d;
            v = if w < 100000 {
                w
            } else {
                100000
            };
        }
        j = j + 1;
    }
    (j, v)
}

fn has_at_exec(s: &str, n: usize, i: usize, w: &str) -> (r: bool)
    requires
        n == s@.len(),
        i <= n,
    ensures
        r == has_at(s@, i as int, w@),
{
    let m = w.unicode_len();
    if m > n - i {
        return false;
    }
    let mut k: usize = 0;
    while k < m
        invariant
            n == s@.len(),
            m == w@.len(),
            i + m <= n,
            k <= m,
            forall|t: int| 0 <= t < k ==> s@[i + t] == #[trigger] w@[t],
        decreases m - k,
    {
        if s.get_char(i + k) != w.get_char(k) {
            assert(s@.subrange(i as int, i + m)[k as int] != w@[k as int]);
            return false;
        }
        k = k + 1;
    }
    assert(s@.subrange(i as int, i + m) =~= w@);
    true
}

fn key_value_end_exec(s: &str, n: usize, i: usize, key: &str) -> (r: Option<(usize, u64)>)
    requires
        n == s@.len(),
        i <= n,
    ensures
        r is None ==> key_value_end(s@, i as int, key@) == -1,
        r matches Some(p) ==> {
            &&& p.0 as int == key_value_end(s@, i as int, key@)
            &&& i + key@.len() < p.0 <= n
            &&& p.1 == if digits_value(s@, i + key@.len(), p.0 as int) < 100000 {
                digits_value(s@, i + key@.len(), p.0 as int)
            } else {
                100000
            }
        },
{
    if !has_at_exec(s, n, i, key) {
        return None;
    }
    let start = i + key.unicode_len();
    let (end, v) = skip_digits_exec(s, n, start);
    if end > start {
        Some((end, v))
    } else {
        None
    }
}

fn command_end_exec(s: &str, n: usize) -> (r: Option<usize>)
    requires
        n == s@.len(),
    ensures
        r is None ==> command_end(s@) == -1,
        r matches Some(p) ==> p as int == command_end(s@) && p <= n,
{
    let a = skip_spaces_exec(s, n, 0);
    if !has_at_exec(s, n, a, "/startvoting") {
        return None;
    }
    let b = a + "/startvoting".unicode_len();
    if b < n && s.get_char(b) == '@' {
        let e = skip_word_exec(s, n, b + 1);
        if e > b + 1 {
            Some(e)
        } else {
            None
        }
    } else {
        Some(b)
    }
}

/// The parameters of a `/startvoting` message, if they are well formed and in
/// range: `minimumvotes` in `1..=255`, `rounds` in `1..=max_rounds`.
pub fn parse_start_voting(text: &str, max_rounds: u8) -> (r: Option<StartVotingParams>)
    ensures
        r matches Some(p) ==> start_voting_args(text@) == Some(
            (p.min_votes as nat, p.rounds as nat),
        ),
        r matches Some(p) ==> 1 <= p.min_votes <= 255 && 1 <= p.rounds <= max_rounds,
        r is None ==> match start_voting_args(text@) {
            Some((m, k)) => !(1 <= m <= 255 && 1 <= k <= max_rounds),
            None => true,
        },
{
    let n = text.unicode_len();
    let c = match command_end_exec(text, n) {
        Some(c) => c,
        None => return None,
    };
    let d = skip_spaces_exec(text, n, c);
    if d == c {
        return None;
    }
    let (min_v, rounds_v) = match key_value_end_exec(text, n, d, "minimumvotes=") {
        Some((first_end, first_v)) => {
            let e = skip_spaces_exec(text, n, first_end);
            if e == first_end {
                return None;
            }
            match key_value_end_exec(text, n, e, "rounds=") {
                Some((f, second_v)) => {
                    if skip_spaces_exec(text, n, f) != n {
                        return None;
                    }
                    (first_v, second_v)
                },
                None => return None,
            }
        },
        None => match key_value_end_exec(text, n, d, "rounds=") {
            Some((first_end, first_v)) => {
                let e = skip_spaces_exec(text, n, first_end);
                if e == first_end {
                    return None;
                }
                match key_value_end_exec(text, n, e, "minimumvotes=") {
                    Some((f, second_v)) => {
                        if skip_spaces_exec(text, n, f) != n {
                            return None;
                        }
                        (second_v, first_v)
                    },
                    None => return None,
                }
            },
            None => return None,
        },
    };
    if 1 <= min_v && min_v <= 255 && 1 <= rounds_v && rounds_v <= max_rounds as u64 {
        Some(StartVotingParams { min_votes: min_v as i16, rounds: rounds_v as i16 })
    } else {
        None
    }
}

} // verus!
