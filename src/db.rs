//! The store's enumerations and the pieces of its schema text that are
//! computed.

use vstd::prelude::*;
use vstd::string::{StrSliceExecFns, StringExecFns};

verus! {

/// The kinds of chat the platform reports.
#[derive(Debug, Clone, Copy, PartialEq, Eq, Structural)]
pub enum ChatKind {
    Private,
    Group,
    Supergroup,
    Channel,
}

/// The chat kinds a tournament can run in.
#[derive(Debug, Clone, Copy, PartialEq, Eq, Structural)]
pub enum ChatGroupType {
    Group,
    Supergroup,
}

#[derive(Debug, Clone, Copy, PartialEq, Eq, Structural)]
pub enum MatchupState {
    NotStarted,
    Started,
    Finished,
    Aborted,
}

#[derive(Debug, Clone, Copy, PartialEq, Eq, Structural)]
pub enum TournamentState {
    Submitting,
    Voting,
    Finished,
    Aborted,
}

impl ChatKind {
    pub fn is_group(&self) -> (r: bool)
        ensures
            r == (*self == ChatKind::Group || *self == ChatKind::Supergroup),
    {
        match self {
            ChatKind::Group | ChatKind::Supergroup => true,
            _ => false,
        }
    }
}

impl ChatGroupType {
    /// The group type of a chat kind; `None` for chats that are not groups.
    pub fn try_from_kind(kind: ChatKind) -> (r: Option<ChatGroupType>)
        ensures
            kind == ChatKind::Group ==> r == Some(ChatGroupType::Group),
            kind == ChatKind::Supergroup ==> r == Some(ChatGroupType::Supergroup),
            kind != ChatKind::Group && kind != ChatKind::Supergroup ==> r is None,
    {
        match kind {
            ChatKind::Group => Some(ChatGroupType::Group),
            ChatKind::Supergroup => Some(ChatGroupType::Supergroup),
            _ => None,
        }
    }

    /// The value's name in the store.
    pub fn sql_name(&self) -> (r: &'static str)
        ensures
            r@ == match *self {
                ChatGroupType::Group => "group"@,
                ChatGroupType::Supergroup => "supergroup"@,
            },
    {
        match self {
            ChatGroupType::Group => "group",
            ChatGroupType::Supergroup => "supergroup",
        }
    }

    /// The names of all values, in declaration order.
    pub fn variants() -> (r: Vec<String>)
        ensures
            r@.len() == 2,
            r@[0]@ == "group"@,
            r@[1]@ == "supergroup"@,
    {
        vec![String::from_str("group"), String::from_str("supergroup")]
    }
}

impl MatchupState {
    /// The value's name in the store.
    pub fn sql_name(&self) -> (r: &'static str)
        ensures
            r@ == match *self {
                MatchupState::NotStarted => "not_started"@,
                MatchupState::Started => "started"@,
                MatchupState::Finished => "finished"@,
                MatchupState::Aborted => "aborted"@,
            },
    {
        match self {
            MatchupState::NotStarted => "not_started",
            MatchupState::Started => "started",
            MatchupState::Finished => "finished",
            MatchupState::Aborted => "aborted",
        }
    }

    /// The value's name as shown to users.
    pub fn display_name(&self) -> (r: &'static str)
        ensures
            r@ == match *self {
                MatchupState::NotStarted => "not-started"@,
                MatchupState::Started => "started"@,
                MatchupState::Finished => "finished"@,
                MatchupState::Aborted => "aborted"@,
            },
    {
        match self {
            MatchupState::NotStarted => "not-started",
            MatchupState::Started => "started",
            MatchupState::Finished => "finished",
            MatchupState::Aborted => "aborted",
        }
    }

    /// The names of all values, in declaration order.
    pub fn variants() -> (r: Vec<String>)
        ensures
            r@.len() == 4,
            r@[0]@ == "not_started"@,
            r@[1]@ == "started"@,
            r@[2]@ == "finished"@,
            r@[3]@ == "aborted"@,
    {
        vec![
            String::from_str("not_started"),
            String::from_str("started"),
            String::from_str("finished"),
            String::from_str("aborted"),
        ]
    }
}

impl TournamentState {
    /// The value's name in the store.
    pub fn sql_name(&self) -> (r: &'static str)
        ensures
            r@ == match *self {
                TournamentState::Submitting => "submitting"@,
                TournamentState::Voting => "voting"@,
                TournamentState::Finished => "finished"@,
                TournamentState::Aborted => "aborted"@,
            },
    {
        match self {
            TournamentState::Submitting => "submitting",
            TournamentState::Voting => "voting",
            TournamentState::Finished => "finished",
            TournamentState::Aborted => "aborted",
        }
    }

    /// Whether a tournament in this state is active: taking submissions or
    /// votes.
    pub fn is_active(&self) -> (r: bool)
        ensures
            r == (*self == TournamentState::Submitting || *self == TournamentState::Voting),
    {
        match self {
            TournamentState::Submitting | TournamentState::Voting => true,
            _ => false,
        }
    }

    /// The names of all values, in declaration order.
    pub fn variants() -> (r: Vec<String>)
        ensures
            r@.len() == 4,
            r@[0]@ == "submitting"@,
            r@[1]@ == "voting"@,
            r@[2]@ == "finished"@,
            r@[3]@ == "aborted"@,
    {
        vec![
            String::from_str("submitting"),
            String::from_str("voting"),
            String::from_str("finished"),
            String::from_str("aborted"),
        ]
    }
}

/// `'v'`
pub open spec fn sql_quoted(v: Seq<char>) -> Seq<char> {
    "'"@ + v + "'"@
}

/// The values, each single-quoted, separated by `, `.
pub open spec fn quoted_list(vs: Seq<String>) -> Seq<char>
    decreases vs.len(),
{
    if vs.len() == 0 {
        Seq::empty()
    } else if vs.len() == 1 {
        sql_quoted(vs[0]@)
    } else {
        quoted_list(vs.drop_last()) + ", "@ + sql_quoted(vs.last()@)
    }
}

/// The value list of an SQL enum type: `'a', 'b', 'c'`.
pub fn enum_variants(variants: Vec<String>) -> (r: String)
    ensures
        r@ == quoted_list(variants@),
{
    let mut out = String::new();
    let mut i: usize = 0;
    while i < variants.len()
        invariant
            i <= variants@.len(),
            out@ == quoted_list(variants@.subrange(0, i as int)),
        decreases variants@.len() - i,
    {
        proof {
            assert(variants@.subrange(0, i + 1).drop_last() =~= variants@.subrange(0, i as int));
            assert(variants@.subrange(0, 0) =~= Seq::<String>::empty());
        }
        if i > 0 {
            out.append(", ");
        }
        out.append("'");
        out.append(variants[i].as_str());
        out.append("'");
        proof {
            if i == 0 {
                assert(out@ =~= sql_quoted(variants@[0]@));
            } else {
                assert(out@ =~= quoted_list(variants@.subrange(0, i as int)) + ", "@ + sql_quoted(
                    variants@[i as int]@,
                ));
            }
        }
        i = i + 1;
    }
    proof {
        assert(variants@.subrange(0, variants@.len() as int) =~= variants@);
    }
    out
}

/// Errors in the configuration of database initialisation.
#[derive(Debug, Clone, Copy, PartialEq, Eq, Structural)]
pub enum InitDbError {
    MissingDbName,
    MissingInitConfig,
    MissingPassword,
    MissingUser,
    NullCharacterInIdentifier,
}

/// `s` with each `"` doubled, as SQL quoted identifiers escape it.
pub open spec fn double_quotes(s: Seq<char>) -> Seq<char>
    decreases s.len(),
{
    if s.len() == 0 {
        s
    } else if s.last() == '"' {
        double_quotes(s.drop_last()) + seq!['"', '"']
    } else {
        double_quotes(s.drop_last()).push(s.last())
    }
}

/// Prepares `value` to stand inside a double-quoted SQL identifier: refuses
/// a NUL character, and doubles each `"`.
pub fn sanitize_db_identifier(value: &str) -> (r: Result<String, InitDbError>)
    ensures
        value@.contains('\0') ==> r == Err::<String, _>(InitDbError::NullCharacterInIdentifier),
        !value@.contains('\0') ==> (r matches Ok(s) && s@ == double_quotes(value@)),
{
    let n = value.unicode_len();
    let mut out = String::new();
    let mut i: usize = 0;
    while i < n
        invariant
            n == value@.len(),
            i <= n,
            out@ == double_quotes(value@.subrange(0, i as int)),
            forall|k: int| 0 <= k < i ==> value@[k] != '\0',
        decreases n - i,
    {
        let c = value.get_char(i);
        proof {
            reveal_strlit("\"\"");
            assert(value@.subrange(0, i + 1).drop_last() =~= value@.subrange(0, i as int));
            assert(value@.subrange(0, i + 1).last() == c);
        }
        if c == '\0' {
            return Err(InitDbError::NullCharacterInIdentifier);
        }
        if c == '"' {
            out.append("\"\"");
        } else {
            out.append(value.substring_char(i, i + 1));
            proof {
                assert(value@.subrange(i as int, i + 1) =~= seq![c]);
            }
        }
        i = i + 1;
    }
    proof {
        assert(value@.subrange(0, n as int) =~= value@);
    }
    Ok(out)
}

/// `s` with each `'` doubled, as SQL string literals escape it.
pub open spec fn double_apostrophes(s: Seq<char>) -> Seq<char>
    decreases s.len(),
{
    if s.len() == 0 {
        s
    } else if s.last() == '\'' {
        double_apostrophes(s.drop_last()) + seq!['\'', '\'']
    } else {
        double_apostrophes(s.drop_last()).push(s.last())
    }
}

/// Prepares `value` to stand inside a single-quoted SQL string literal.
pub fn escape_sql_string(value: &str) -> (r: String)
    ensures
        r@ == double_apostrophes(value@),
{
    let n = value.unicode_len();
    let mut out = String::new();
    let mut i: usize = 0;
    while i < n
        invariant
            n == value@.len(),
            i <= n,
            out@ == double_apostrophes(value@.subrange(0, i as int)),
        decreases n - i,
    {
        let c = value.get_char(i);
        proof {
            reveal_strlit("''");
            assert(value@.subrange(0, i + 1).drop_last() =~= value@.subrange(0, i as int));
            assert(value@.subrange(0, i + 1).last() == c);
        }
        if c == '\'' {
            out.append("''");
        } else {
            out.append(value.substring_char(i, i + 1));
            proof {
                assert(value@.subrange(i as int, i + 1) =~= seq![c]);
            }
        }
        i = i + 1;
    }
    proof {
        assert(value@.subrange(0, n as int) =~= value@);
    }
    out
}

pub open spec fn has_nul(v: Option<&str>) -> bool {
    match v {
        Some(s) => s@.contains('\0'),
        None => false,
    }
}

/// The first problem with the settings of database initialisation, in the
/// order the steps meet them.
pub open spec fn init_db_error(
    has_init_config: bool,
    dbname: Option<&str>,
    user: Option<&str>,
    password: Option<&str>,
    create_user: bool,
    create_database: bool,
) -> Option<InitDbError> {
    if !has_init_config {
        Some(InitDbError::MissingInitConfig)
    } else if has_nul(dbname) || has_nul(user) {
        Some(InitDbError::NullCharacterInIdentifier)
    } else if create_user && user is None {
        Some(InitDbError::MissingUser)
    } else if create_user && password is None {
        Some(InitDbError::MissingPassword)
    } else if create_database && dbname is None {
        Some(InitDbError::MissingDbName)
    } else if create_database && user is None {
        Some(InitDbError::MissingUser)
    } else {
        None
    }
}

/// The statements that database initialisation runs before and after
/// creating the schema.
#[derive(Debug, Clone, PartialEq, Eq)]
pub struct InitDbPlan {
    pub create_user: Option<String>,
    pub create_database: Option<String>,
    pub grant: Option<String>,
}

pub open spec fn create_user_statement(user: Seq<char>, password: Seq<char>) -> Seq<char> {
    "CREATE USER \""@ + double_quotes(user) + "\" PASSWORD '"@ + double_apostrophes(password) + "'"@
}

pub open spec fn create_database_statement(dbname: Seq<char>, user: Seq<char>) -> Seq<char> {
    "CREATE DATABASE \""@ + double_quotes(dbname) + "\" WITH OWNER \""@ + double_quotes(user) + "\""@
}

pub open spec fn grant_statement(user: Seq<char>) -> Seq<char> {
    "GRANT ALL ON ALL TABLES IN SCHEMA \"public\" TO \""@ + double_quotes(user) + "\""@
}

/// Plans database initialisation: checks the settings each requested step
/// needs, and writes its statements with identifiers and the password
/// escaped.
pub fn plan_init_db(
    has_init_config: bool,
    dbname: Option<&str>,
    user: Option<&str>,
    password: Option<&str>,
    create_user: bool,
    create_database: bool,
) -> (r: Result<InitDbPlan, InitDbError>)
    ensures
        match init_db_error(has_init_config, dbname, user, password, create_user, create_database) {
            Some(e) => r == Err::<InitDbPlan, _>(e),
            None => r is Ok,
        },
        r matches Ok(plan) ==> {
            &&& (create_user ==> (plan.create_user matches Some(s) && s@ == create_user_statement(
                user.unwrap()@,
                password.unwrap()@,
            )))
            &&& (create_user ==> (plan.grant matches Some(s) && s@ == grant_statement(user.unwrap()@)))
            &&& (!create_user ==> plan.create_user is None && plan.grant is None)
            &&& (create_database ==> (plan.create_database matches Some(s) && s@
                == create_database_statement(dbname.unwrap()@, user.unwrap()@)))
            &&& (!create_database ==> plan.create_database is None)
        },
{
    if !has_init_config {
        return Err(InitDbError::MissingInitConfig);
    }
    let db = match dbname {
        Some(d) => match sanitize_db_identifier(d) {
            Ok(v) => Some(v),
            Err(e) => return Err(e),
        },
        None => None,
    };
    let u = match user {
        Some(name) => match sanitize_db_identifier(name) {
            Ok(v) => Some(v),
            Err(e) => return Err(e),
        },
        None => None,
    };
    let mut plan = InitDbPlan { create_user: None, create_database: None, grant: None };
    if create_user {
        let name = match &u {
            Some(name) => name,
            None => return Err(InitDbError::MissingUser),
        };
        let secret = match password {
            Some(p) => escape_sql_string(p),
            None => return Err(InitDbError::MissingPassword),
        };
        let mut statement = String::from_str("CREATE USER \"");
        statement.append(name.as_str());
        statement.append("\" PASSWORD '");
        statement.append(secret.as_str());
        statement.append("'");
        plan.create_user = Some(statement);
        let mut grant = String::from_str("GRANT ALL ON ALL TABLES IN SCHEMA \"public\" TO \"");
        grant.append(name.as_str());
        grant.append("\"");
        plan.grant = Some(grant);
    }
    if create_database {
        let d = match &db {
            Some(d) => d,
            None => return Err(InitDbError::MissingDbName),
        };
        let name = match &u {
            Some(name) => name,
            None => return Err(InitDbError::MissingUser),
        };
        let mut statement = String::from_str("CREATE DATABASE \"");
        statement.append(d.as_str());
        statement.append("\" WITH OWNER \"");
        statement.append(name.as_str());
        statement.append("\"");
        plan.create_database = Some(statement);
    }
    Ok(plan)
}

} // verus!
