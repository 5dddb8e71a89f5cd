//! What an administrator's chat command decides, before the round store is
//! read or written: refuse a member, answer with a usage or status text,
//! create or close a round, or record an administrator event.
use vstd::prelude::*;

use crate::llm::{strip_prefix_chars, strip_prefixes};
use crate::parser::reply::BotReply;
use crate::text::{append_str, chars_of, owned, string_of, trim, trim_chars};

verus! {

/// The administrator commands a chat message can carry.
pub enum AdminIntent {
    CreateRound,
    AddItem,
    AddEligibility,
    SetDiscount,
    LockSlot,
    CloseRound,
    Export,
    FixUser,
}

/// An administrator event to record in the active round.
pub enum AdminEventKind {
    /// `admin_slot_locked`
    SlotLocked,
    /// `admin_allocation_adjusted`
    AllocationAdjusted,
    /// `discount_rules_set`, carrying the message text
    DiscountRulesSet,
}

/// What to do with an administrator command.
pub enum AdminStep {
    /// Answer with this reply; nothing else changes.
    Reply(BotReply),
    /// Create a round with this title (then answer with `created_reply`).
    CreateRound(String),
    /// Close the first active round (then answer with `closed_reply`).
    CloseRound,
    /// Record this event in the first active round and answer with the text.
    Append(AdminEventKind, String),
}

/// The title of a round-creating command: the text without its leading
/// slashes, trimmed.
pub open spec fn round_title(text: Seq<char>) -> Seq<char> {
    trim(strip_prefixes(text, seq!['/']))
}

/// A text reply.
pub open spec fn replies(r: AdminStep, t: Seq<char>) -> bool {
    r matches AdminStep::Reply(BotReply::Text(x)) && x@ == t
}

/// The step of an administrator command: members are refused; a round is
/// created with the command's title (usage text when it is blank); the
/// commands on the active round answer "没有活跃的团。" (closing: "当前没有
/// 活跃的拼团可关闭。") when there is none, and otherwise close it, record
/// their event or answer; adding items or priorities answers with its usage.
pub open spec fn admin_step(is_admin: bool, intent: AdminIntent, text: Seq<char>, has_active: bool, r: AdminStep) -> bool {
    if !is_admin {
        r matches AdminStep::Reply(BotReply::AdminOnly(x)) && x@ == "此命令仅管理员可用。"@
    } else {
        match intent {
            AdminIntent::CreateRound => if round_title(text).len() == 0 {
                replies(r, "用法：/开团 标题=ES5月新谷"@)
            } else {
                r matches AdminStep::CreateRound(t) && t@ == round_title(text)
            },
            AdminIntent::CloseRound => if !has_active {
                replies(r, "当前没有活跃的拼团可关闭。"@)
            } else {
                r is CloseRound
            },
            AdminIntent::LockSlot => if !has_active {
                replies(r, "没有活跃的团。"@)
            } else {
                r matches AdminStep::Append(AdminEventKind::SlotLocked, x) && x@ == "已锁位。"@
            },
            AdminIntent::FixUser => if !has_active {
                replies(r, "没有活跃的团。"@)
            } else {
                r matches AdminStep::Append(AdminEventKind::AllocationAdjusted, x) && x@ == "已执行管理员修正。"@
            },
            AdminIntent::SetDiscount => if !has_active {
                replies(r, "没有活跃的团。"@)
            } else {
                r matches AdminStep::Append(AdminEventKind::DiscountRulesSet, x) && x@ == "已记录优惠规则。"@
            },
            AdminIntent::Export => if !has_active {
                replies(r, "没有活跃的团。"@)
            } else {
                replies(r, "导出功能请调用管理后台 API。"@)
            },
            AdminIntent::AddItem => replies(r, "请使用 /加商品 名称=... 类型=拼团 单价=... 格式添加商品。"@),
            AdminIntent::AddEligibility => replies(r, "请使用 /加优先 用户=@A 等级=10 格式添加优先权。"@),
        }
    }
}

fn text_reply(t: &str) -> (r: AdminStep)
    ensures
        replies(r, t@),
{
    AdminStep::Reply(BotReply::Text(owned(t)))
}

/// The step of an administrator command (see `admin_step`); `has_active`
/// tells whether the group has an active round.
pub fn admin_message_step(is_admin: bool, intent: AdminIntent, text: &str, has_active: bool) -> (r: AdminStep)
    ensures
        admin_step(is_admin, intent, text@, has_active, r),
{
    if !is_admin {
        return AdminStep::Reply(BotReply::AdminOnly(owned("此命令仅管理员可用。")));
    }
    match intent {
        AdminIntent::CreateRound => {
            let slash = ['/'];
            let title = trim_chars(&strip_prefix_chars(chars_of(text), &slash));
            assert(slash@ =~= seq!['/']);
            if title.len() == 0 {
                text_reply("用法：/开团 标题=ES5月新谷")
            } else {
                AdminStep::CreateRound(string_of(&title))
            }
        },
        AdminIntent::CloseRound => if !has_active {
            text_reply("当前没有活跃的拼团可关闭。")
        } else {
            AdminStep::CloseRound
        },
        AdminIntent::LockSlot => if !has_active {
            text_reply("没有活跃的团。")
        } else {
            AdminStep::Append(AdminEventKind::SlotLocked, owned("已锁位。"))
        },
        AdminIntent::FixUser => if !has_active {
            text_reply("没有活跃的团。")
        } else {
            AdminStep::Append(AdminEventKind::AllocationAdjusted, owned("已执行管理员修正。"))
        },
        AdminIntent::SetDiscount => if !has_active {
            text_reply("没有活跃的团。")
        } else {
            AdminStep::Append(AdminEventKind::DiscountRulesSet, owned("已记录优惠规则。"))
        },
        AdminIntent::Export => if !has_active {
            text_reply("没有活跃的团。")
        } else {
            text_reply("导出功能请调用管理后台 API。")
        },
        AdminIntent::AddItem => text_reply("请使用 /加商品 名称=... 类型=拼团 单价=... 格式添加商品。"),
        AdminIntent::AddEligibility => text_reply("请使用 /加优先 用户=@A 等级=10 格式添加优先权。"),
    }
}

/// The answer once a round is created: `已创建团 <title> (ID: <round_id>)`.
pub fn created_reply(title: &str, round_id: &str) -> (r: String)
    ensures
        r@ == "已创建团 "@ + title@ + " (ID: "@ + round_id@ + ")"@,
{
    let mut m = chars_of("已创建团 ");
    append_str(&mut m, title);
    append_str(&mut m, " (ID: ");
    append_str(&mut m, round_id);
    append_str(&mut m, ")");
    string_of(&m)
}

/// The answer once the active round is closed: `已结团：<title>`.
pub fn closed_reply(title: &str) -> (r: String)
    ensures
        r@ == "已结团："@ + title@,
{
    let mut m = chars_of("已结团：");
    append_str(&mut m, title);
    string_of(&m)
}

} // verus!
