use paigu::parser::reply::BotReply;
use paigu::services::admin_messages::{
    admin_message_step, closed_reply, created_reply, AdminEventKind, AdminIntent, AdminStep,
};

fn text_of(step: AdminStep) -> String {
    match step {
        AdminStep::Reply(BotReply::Text(t)) => t,
        _ => panic!("expected a text reply"),
    }
}

#[test]
fn members_are_refused() {
    match admin_message_step(false, AdminIntent::CreateRound, "/开团 标题", true) {
        AdminStep::Reply(BotReply::AdminOnly(t)) => assert_eq!(t, "此命令仅管理员可用。"),
        _ => panic!("expected admin-only"),
    }
}

#[test]
fn create_round_takes_trimmed_title() {
    match admin_message_step(true, AdminIntent::CreateRound, "// ES5月新谷 ", false) {
        AdminStep::CreateRound(t) => assert_eq!(t, "ES5月新谷"),
        _ => panic!("expected a round to create"),
    }
    assert_eq!(
        text_of(admin_message_step(true, AdminIntent::CreateRound, "//  ", false)),
        "用法：/开团 标题=ES5月新谷"
    );
    assert_eq!(created_reply("春团", "r9"), "已创建团 春团 (ID: r9)");
}

#[test]
fn active_round_commands_need_a_round() {
    assert_eq!(
        text_of(admin_message_step(true, AdminIntent::CloseRound, "/结团", false)),
        "当前没有活跃的拼团可关闭。"
    );
    assert!(matches!(admin_message_step(true, AdminIntent::CloseRound, "/结团", true), AdminStep::CloseRound));
    assert_eq!(closed_reply("春团"), "已结团：春团");
    assert_eq!(text_of(admin_message_step(true, AdminIntent::LockSlot, "/锁位", false)), "没有活跃的团。");
    match admin_message_step(true, AdminIntent::LockSlot, "/锁位", true) {
        AdminStep::Append(AdminEventKind::SlotLocked, t) => assert_eq!(t, "已锁位。"),
        _ => panic!("expected a lock event"),
    }
    match admin_message_step(true, AdminIntent::FixUser, "/修正", true) {
        AdminStep::Append(AdminEventKind::AllocationAdjusted, t) => assert_eq!(t, "已执行管理员修正。"),
        _ => panic!("expected an adjustment"),
    }
    match admin_message_step(true, AdminIntent::SetDiscount, "/优惠 满300减30", true) {
        AdminStep::Append(AdminEventKind::DiscountRulesSet, t) => assert_eq!(t, "已记录优惠规则。"),
        _ => panic!("expected discount rules"),
    }
    assert_eq!(
        text_of(admin_message_step(true, AdminIntent::Export, "/导出", true)),
        "导出功能请调用管理后台 API。"
    );
    assert_eq!(text_of(admin_message_step(true, AdminIntent::Export, "/导出", false)), "没有活跃的团。");
}

#[test]
fn usage_replies_for_items_and_priorities() {
    assert_eq!(
        text_of(admin_message_step(true, AdminIntent::AddItem, "/加商品", false)),
        "请使用 /加商品 名称=... 类型=拼团 单价=... 格式添加商品。"
    );
    assert_eq!(
        text_of(admin_message_step(true, AdminIntent::AddEligibility, "/加优先", true)),
        "请使用 /加优先 用户=@A 等级=10 格式添加优先权。"
    );
}
