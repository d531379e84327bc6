//! Group notices: the closed sum of everything the platform can announce,
//! and the recall reconciler, which answers a retraction by replaying the
//! retracted message's stored segments behind an audit tombstone.

use vstd::prelude::*;
use vstd::string::StringExecFns;
use crate::store::{GroupChatSegment, SegView};
use crate::text::{dec_str_int, i64_to_dec};
use crate::timefmt::{iso8601_from_timestamp, iso_time_of};

verus! {

#[derive(Debug, PartialEq, Eq, Structural, Clone, Copy)]
pub enum GroupAdminSubType {
    Grant,
    Revoke,
}

#[derive(Debug, PartialEq, Eq, Structural, Clone, Copy)]
pub enum GroupDecreaseSubType {
    Leave,
    Kick,
    KickMe,
}

#[derive(Debug, PartialEq, Eq, Structural, Clone, Copy)]
pub enum GroupIncreaseSubType {
    Approve,
    Invite,
}

#[derive(Debug, PartialEq, Eq, Structural, Clone, Copy)]
pub enum GroupBanSubType {
    Ban,
    LiftBan,
}

#[derive(Debug, PartialEq, Eq, Structural, Clone, Copy)]
pub enum HonorType {
    Talkative,
    Performer,
    Emotion,
}

#[derive(Debug, PartialEq, Eq, Structural, Clone, Copy)]
pub struct GroupUpload {
    pub time: i64,
    pub self_id: i64,
    pub group_id: i64,
    pub user_id: i64,
}

#[derive(Debug, PartialEq, Eq, Structural, Clone, Copy)]
pub struct GroupAdmin {
    pub time: i64,
    pub self_id: i64,
    pub sub_type: GroupAdminSubType,
    pub group_id: i64,
    pub user_id: i64,
}

#[derive(Debug, PartialEq, Eq, Structural, Clone, Copy)]
pub struct GroupDecrease {
    pub time: i64,
    pub self_id: i64,
    pub sub_type: GroupDecreaseSubType,
    pub group_id: i64,
    pub operator_id: i64,
    pub user_id: i64,
}

#[derive(Debug, PartialEq, Eq, Structural, Clone, Copy)]
pub struct GroupIncrease {
    pub time: i64,
    pub self_id: i64,
    pub sub_type: GroupIncreaseSubType,
    pub group_id: i64,
    pub operator_id: i64,
    pub user_id: i64,
}

#[derive(Debug, PartialEq, Eq, Structural, Clone, Copy)]
pub struct GroupBan {
    pub time: i64,
    pub self_id: i64,
    pub sub_type: GroupBanSubType,
    pub group_id: i64,
    pub operator_id: i64,
    pub user_id: i64,
    pub duration: i64,
}

#[derive(Debug, PartialEq, Eq, Structural, Clone, Copy)]
pub struct FriendAdd {
    pub time: i64,
    pub self_id: i64,
    pub user_id: i64,
}

#[derive(Debug, PartialEq, Eq, Structural, Clone, Copy)]
pub struct GroupRecall {
    pub time: i64,
    pub self_id: i64,
    pub group_id: i64,
    pub user_id: i64,
    pub operator_id: i64,
    pub message_id: i64,
}

#[derive(Debug, PartialEq, Eq, Structural, Clone, Copy)]
pub struct Poke {
    pub time: i64,
    pub self_id: i64,
    pub group_id: i64,
    pub user_id: i64,
    pub target_id: i64,
}

#[derive(Debug, PartialEq, Eq, Structural, Clone, Copy)]
pub struct Honor {
    pub time: i64,
    pub self_id: i64,
    pub group_id: i64,
    pub honor_type: HonorType,
    pub user_id: i64,
}

/// The interaction notices.
#[derive(Debug, PartialEq, Eq, Structural, Clone, Copy)]
pub enum Notify {
    Poke(Poke),
    Honor(Honor),
}

/// Everything the platform can announce, as a closed sum: a new notice kind
/// cannot be dropped silently, the compiler asks for its arm.
#[derive(Debug, PartialEq, Eq, Structural, Clone, Copy)]
pub enum NoticeResponse {
    GroupUpload(GroupUpload),
    GroupAdmin(GroupAdmin),
    GroupDecrease(GroupDecrease),
    GroupIncrease(GroupIncrease),
    GroupBan(GroupBan),
    FriendAdd(FriendAdd),
    GroupRecall(GroupRecall),
    Notify(Notify),
}

/// The narration a tombstone carries: who retracted whose message.
pub open spec fn recall_text(op_name: Seq<char>, user_name: Seq<char>, message_id: int) -> Seq<
    char,
> {
    op_name + " 撤回了 "@ + user_name + " 的消息, id="@ + dec_str_int(message_id)
}

/// The tombstone row recording one retraction: message id zero and the
/// sentinel sender name mark it apart from every real segment.
pub open spec fn tombstone_view(
    time: Seq<char>,
    sender_id: int,
    op_name: Seq<char>,
    user_name: Seq<char>,
    message_id: int,
) -> SegView {
    SegView {
        message_id: 0,
        time,
        sender_id,
        sender_name: "RECALL_INDICATOR"@,
        seg_type: "text"@,
        content: recall_text(op_name, user_name, message_id),
        interpret: "RECALL_INDICATOR"@,
    }
}

/// Builds the tombstone segment for one retraction.
pub fn make_recall_indicator(
    time: String,
    sender_id: i64,
    op_name: &str,
    user_name: &str,
    message_id: i64,
) -> (r: GroupChatSegment)
    ensures
        r@ == tombstone_view(time@, sender_id as int, op_name@, user_name@, message_id as int),
{
    let mut content = String::from_str(op_name);
    content.append(" 撤回了 ");
    content.append(user_name);
    content.append(" 的消息, id=");
    let digits = i64_to_dec(message_id);
    content.append(digits.as_str());
    GroupChatSegment {
        message_id: 0,
        time,
        sender_id,
        sender_name: String::from_str("RECALL_INDICATOR"),
        seg_type: String::from_str("text"),
        content,
        interpret: String::from_str("RECALL_INDICATOR"),
    }
}

/// What a retraction notice comes to.
#[derive(Debug)]
pub enum RecallOutcome {
    /// The rows to append: the tombstone first, then every original segment
    /// unchanged, in their stored order.
    Replay(Vec<GroupChatSegment>),
    /// No stored segment carries the retracted id: log a warning and stop;
    /// the message may never have been persisted.
    NotFound,
    /// The notice's timestamp cannot be represented: log an error and stop.
    BadTimestamp,
}

/// Answers a retraction notice.  Given the stored segments of the retracted
/// message, yields the rows to append: one tombstone narrating who retracted
/// whose message, ordered before the unchanged originals.
pub fn reconcile_recall(
    notice: &GroupRecall,
    bot_id: i64,
    op_name: &str,
    user_name: &str,
    segs: Vec<GroupChatSegment>,
) -> (r: RecallOutcome)
    ensures
        (r is NotFound) <==> segs@.len() == 0,
        (r is BadTimestamp) <==> (segs@.len() > 0 && iso_time_of(notice.time) is None),
        r matches RecallOutcome::Replay(plan) ==> {
            &&& iso_time_of(notice.time) matches Some(t) && plan@.len() == segs@.len() + 1
                && plan@[0]@ == tombstone_view(
                t,
                bot_id as int,
                op_name@,
                user_name@,
                notice.message_id as int,
            )
            &&& plan@.skip(1) == segs@
        },
{
    if segs.len() == 0 {
        return RecallOutcome::NotFound;
    }
    let time = match iso8601_from_timestamp(notice.time) {
        Some(t) => t,
        None => {
            return RecallOutcome::BadTimestamp;
        },
    };
    let indicator = make_recall_indicator(time, bot_id, op_name, user_name, notice.message_id);
    let ghost sv = segs@;
    let mut plan = segs;
    plan.insert(0, indicator);
    proof {
        assert(plan@.skip(1) =~= sv);
    }
    RecallOutcome::Replay(plan)
}

} // verus!
