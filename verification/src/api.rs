//! Plain shapes of the upstream collaborators' answers, and the decisions
//! this library takes over them: picking a member's display name, reading
//! the first answer out of a completion, and the administrative commands.

use vstd::prelude::*;
use vstd::string::StringExecFns;
use crate::text::{dec_str_int, i64_to_dec};

verus! {

/// A group member's record, as the platform reports it.
#[derive(Debug, PartialEq, Eq)]
pub struct GroupMemberInfoResponse {
    pub group_id: i64,
    pub user_id: i64,
    pub nickname: String,
    pub card: String,
    pub sex: String,
    pub age: i32,
    pub area: String,
    pub join_time: i32,
    pub last_sent_time: i32,
    pub level: String,
    pub role: String,
    pub unfriendly: bool,
    pub title: String,
    pub card_changeable: bool,
}

/// The name a member's record yields, best first: the group-local card, the
/// global nickname, or the bare user id.
pub open spec fn display_name_of(card: Seq<char>, nickname: Seq<char>, user_id: int) -> Seq<
    char,
> {
    if card.len() > 0 {
        card
    } else if nickname.len() > 0 {
        nickname
    } else {
        dec_str_int(user_id)
    }
}

/// Picks a member's human-readable name from their record: the first
/// non-empty of card and nickname, falling back to the user id in decimal.
pub fn pick_display_name(info: &GroupMemberInfoResponse, user_id: i64) -> (r: String)
    ensures
        r@ == display_name_of(info.card@, info.nickname@, user_id as int),
{
    if info.card.as_str().unicode_len() > 0 {
        info.card.clone()
    } else if info.nickname.as_str().unicode_len() > 0 {
        info.nickname.clone()
    } else {
        i64_to_dec(user_id)
    }
}

/// One answer inside a completion.
#[derive(Debug, PartialEq, Eq)]
pub struct Answer {
    pub content: String,
}

/// One choice of a completion.
#[derive(Debug, PartialEq, Eq)]
pub struct Choice {
    pub message: Answer,
    pub finish_reason: String,
}

/// A completion's token accounting.
#[derive(Debug, PartialEq, Eq)]
pub struct Usage {
    pub total_tokens: usize,
}

/// A completion, as the language-model collaborator answers it.
#[derive(Debug, PartialEq, Eq)]
pub struct GptResponse {
    pub id: String,
    pub model: String,
    pub choices: Vec<Choice>,
    pub usage: Usage,
}

/// The first answer of a completion; `None` when it offers no choice.
pub fn first_answer(resp: &GptResponse) -> (r: Option<&String>)
    ensures
        (r is Some) == (resp.choices@.len() > 0),
        r matches Some(s) ==> s@ == resp.choices@[0].message.content@,
{
    if resp.choices.len() > 0 {
        Some(&resp.choices[0].message.content)
    } else {
        None
    }
}

/// An administrative command addressed to the bot in a group.
#[derive(Debug, PartialEq, Eq)]
pub enum GroupCommand {
    Mute,
    Unmute,
    SwitchModel(String),
    DumpHistory(i64),
    DumpLog(i64),
}

} // verus!
