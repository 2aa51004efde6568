//! The command menus the bot shows: which commands each audience sees.

use crate::db::TournamentState;
use vstd::prelude::*;
use vstd::string::StringExecFns;

verus! {

/// One entry of a command menu.
#[derive(Debug, PartialEq, Eq)]
pub struct MenuCommand {
    pub command: String,
    pub description: String,
}

pub open spec fn entry(m: MenuCommand) -> (Seq<char>, Seq<char>) {
    (m.command@, m.description@)
}

pub open spec fn entries(ms: Seq<MenuCommand>) -> Seq<(Seq<char>, Seq<char>)> {
    Seq::new(ms.len(), |i: int| entry(ms[i]))
}

fn menu_command(command: &str, description: &str) -> (r: MenuCommand)
    ensures
        entry(r) == (command@, description@),
{
    MenuCommand { command: String::from_str(command), description: String::from_str(description) }
}

/// The menu a chat's administrators see, by the chat's active tournament;
/// `None` means the chat has no menu of its own.
pub open spec fn admin_menu_spec(state: Option<TournamentState>) -> Option<Seq<(Seq<char>, Seq<char>)>> {
    if state == Some(TournamentState::Submitting) {
        Some(
            seq![
                ("startvoting"@, "Start the voting phase"@),
                ("abort"@, "Stop the tournament"@),
                ("help"@, "Get help"@),
            ],
        )
    } else if state == Some(TournamentState::Voting) {
        Some(seq![("abort"@, "Stop the tournament"@), ("help"@, "Get help"@)])
    } else {
        None
    }
}

/// The menu of a chat's administrators while `state` is its active
/// tournament's state.
pub fn admin_menu(state: Option<TournamentState>) -> (r: Option<Vec<MenuCommand>>)
    ensures
        match r {
            Some(v) => admin_menu_spec(state) == Some(entries(v@)),
            None => admin_menu_spec(state) is None,
        },
{
    match state {
        Some(TournamentState::Submitting) => {
            let v = vec![
                menu_command("startvoting", "Start the voting phase"),
                menu_command("abort", "Stop the tournament"),
                menu_command("help", "Get help"),
            ];
            assert(entries(v@) =~= seq![
                ("startvoting"@, "Start the voting phase"@),
                ("abort"@, "Stop the tournament"@),
                ("help"@, "Get help"@),
            ]);
            Some(v)
        },
        Some(TournamentState::Voting) => {
            let v = vec![menu_command("abort", "Stop the tournament"), menu_command("help", "Get help")];
            assert(entries(v@) =~= seq![("abort"@, "Stop the tournament"@), ("help"@, "Get help"@)]);
            Some(v)
        },
        _ => None,
    }
}

/// The menu everyone sees.
pub fn global_menu() -> (r: Vec<MenuCommand>)
    ensures
        entries(r@) == seq![("help"@, "Get help"@)],
{
    let v = vec![menu_command("help", "Get help")];
    assert(entries(v@) =~= seq![("help"@, "Get help"@)]);
    v
}

/// The menu administrators of every chat see.
pub fn global_admin_menu() -> (r: Vec<MenuCommand>)
    ensures
        entries(r@) == seq![("start"@, "Start the GIFdome"@), ("help"@, "Get help"@)],
{
    let v = vec![menu_command("start", "Start the GIFdome"), menu_command("help", "Get help")];
    assert(entries(v@) =~= seq![("start"@, "Start the GIFdome"@), ("help"@, "Get help"@)]);
    v
}

/// The per-chat menus after updating chat `chat_id` for its tournament state:
/// its menu is set, or removed when it has none.
pub open spec fn apply_admin_menu(
    menus: Map<i64, Seq<(Seq<char>, Seq<char>)>>,
    chat_id: i64,
    state: Option<TournamentState>,
) -> Map<i64, Seq<(Seq<char>, Seq<char>)>> {
    match admin_menu_spec(state) {
        Some(m) => menus.insert(chat_id, m),
        None => menus.remove(chat_id),
    }
}

/// Updating a chat's menu twice for the same state leaves the menus as one
/// update does.
pub proof fn lemma_menu_update_idempotent(
    menus: Map<i64, Seq<(Seq<char>, Seq<char>)>>,
    chat_id: i64,
    state: Option<TournamentState>,
)
    ensures
        apply_admin_menu(apply_admin_menu(menus, chat_id, state), chat_id, state)
            == apply_admin_menu(menus, chat_id, state),
{
    let once = apply_admin_menu(menus, chat_id, state);
    assert(apply_admin_menu(once, chat_id, state) =~= once);
}

} // verus!
