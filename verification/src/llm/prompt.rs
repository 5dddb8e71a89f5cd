//! System and user prompts: the catalogue-aware parsing prompt, the
//! first-match clarification prompts and the alias-suggestion prompts.
use vstd::prelude::*;

use crate::bus::IncomingEvent;
use crate::domain::{kind_name, Item};
use crate::parser::alias_match::{is_splittable, splittable_kind};
use crate::settings::{item_matches_config, AppConfig, ItemConfig, RoundSettings, VariantConfig};
use crate::text::{
    append_chars, append_joined, append_str, chars_of, int_text, join, push_i64, trim, views,
};

verus! {

// ---------------------------------------------------------------------------
// Specifications
// ---------------------------------------------------------------------------
/// The parsing prompt used when no template is configured.
pub open spec fn default_prompt_text() -> Seq<char> {
    "你是排谷消息解析器。只抽取结构化信息，不计算价格、不排序、不生成回复。"@
}

/// The output contract appended to the parsing prompt.
pub open spec fn output_contract() -> Seq<char> {
    "\n\n# 输出契约\n只输出 JSON：\
{\"intent\":\"claim|cancel|admin|unknown\",\
\"items\":[{\"item\":\"商品名\",\"variant\":\"变体名\",\"quantity\":1,\
\"claim_type\":\"split|single\",\"slot_policy\":\"normal|tail|fullbox|wholebox\"}],\
\"confidence\":0.0,\"ambiguous_parts\":[]}。\
非排谷消息 → intent=unknown；商品歧义 → 填入 ambiguous_parts。\
种类：整盒 → claim_type=single & slot_policy=wholebox；包盒 → split & fullbox；包尾 → split & tail。"@
}

/// The first-match clarification system prompt.
pub open spec fn first_match_system_text() -> Seq<char> {
    "你是排谷解析澄清器。用户只报了角色名/变体名，未报商品大类，且无法唯一匹配。\
请依据给出的商品列表，按目录顺序选择第一个含该角色名的**可拼团商品**（拼团类/特典类）。\
允许修正错别字/同音字。只输出 JSON：\
{\"matches\":[{\"name\":\"用户所报名\",\"item\":\"商品名\",\"variant\":\"变体名\"}]}。\
不要计算价格、不要生成回复。"@
}

/// The alias-suggestion system prompt.
pub open spec fn alias_system_text() -> Seq<char> {
    "你是排谷商品的别名整理助手。为每个商品补全/优化便于群友口语匹配的别名\
（中文简称、常见错别字或同音字、系列/作品相关称呼等），不要编造与原商品无关的别名，\
不要计算价格、不要生成回复。只输出 JSON：\
{\"suggestions\":[{\"item_id\":\"原样返回 item_id\",\"aliases\":[\"...\"],\"verdict\":\"filled\"}]}。\
suggestions 必须覆盖输入中的每个 item_id；若该商品现有别名已足够完善、无需改动，\
则 `aliases` 原样返回且 `verdict=\"best\"`；否则返回新别名集合且 `verdict=\"filled\"`。"@
}

/// ` 变体: a、b、c` for an item with variants, nothing otherwise.
pub open spec fn variants_suffix(names: Seq<Seq<char>>) -> Seq<char> {
    if names.len() > 0 {
        " 变体: "@ + join(names, "、"@)
    } else {
        Seq::empty()
    }
}

/// One catalogue line: `- name (id=…, kind=…, 别名: a/b)` and the variant names.
pub open spec fn catalogue_line(
    name: Seq<char>,
    id: Seq<char>,
    kind: Seq<char>,
    aliases: Seq<Seq<char>>,
    variants: Seq<Seq<char>>,
) -> Seq<char> {
    "- "@ + name + " (id="@ + id + ", kind="@ + kind + ", 别名: "@ + join(aliases, "/"@) + ")"@
        + variants_suffix(variants) + "\n"@
}

/// Names of configured variants.
pub open spec fn config_variant_names(vs: Seq<VariantConfig>) -> Seq<Seq<char>> {
    vs.map_values(|v: VariantConfig| v.name@)
}

/// The configured catalogue, one line per item.
pub open spec fn config_catalogue(items: Seq<ItemConfig>) -> Seq<char>
    decreases items.len(),
{
    if items.len() == 0 {
        Seq::empty()
    } else {
        let it = items.last();
        config_catalogue(items.drop_last()) + catalogue_line(
            it.name@,
            it.item_id@,
            it.kind@,
            views(it.aliases@),
            config_variant_names(it.variants@),
        )
    }
}

/// The priority window as the prompt states it.
pub open spec fn window_text(round: RoundSettings) -> Seq<char> {
    match round.priority_window {
        Some(w) => "["@ + int_text(w.start_ms as int) + "ms, "@ + int_text(w.end_ms as int)
            + "ms) 内仅预存用户可排"@,
        None => "无"@,
    }
}

/// The parsing system prompt: the template (or the default), the catalogue,
/// the priority users, the priority window and the output contract.
pub open spec fn system_prompt_text(cfg: AppConfig) -> Seq<char> {
    let base = if trim(cfg.llm.prompt_template@).len() == 0 {
        default_prompt_text()
    } else {
        cfg.llm.prompt_template@
    };
    base + "\n\n# 商品目录\n"@ + config_catalogue(cfg.round.items@) + "\n# 预存(购物金)用户\n"@
        + join(views(cfg.round.priority_users@), "、"@) + "\n\n# 优先时段\n"@ + window_text(
        cfg.round,
    ) + output_contract()
}

/// Names of catalogue variants.
pub open spec fn item_variant_names(item: Item) -> Seq<Seq<char>> {
    item.variants@.map_values(|v: crate::domain::ItemVariant| v.name@)
}

/// The group-buy and gift items of a catalogue, one line per item.
pub open spec fn splittable_catalogue(items: Seq<Item>) -> Seq<char>
    decreases items.len(),
{
    if items.len() == 0 {
        Seq::empty()
    } else {
        let it = items.last();
        splittable_catalogue(items.drop_last()) + if splittable_kind(it.kind) {
            catalogue_line(
                it.name@,
                it.item_id.0@,
                kind_name(it.kind),
                views(it.aliases@),
                item_variant_names(it),
            )
        } else {
            Seq::empty()
        }
    }
}

/// The first-match clarification user prompt over catalogue items.
pub open spec fn first_match_user_text(items: Seq<Item>, message: Seq<char>, unresolved: Seq<Seq<char>>) -> Seq<char> {
    "# 可拼团商品目录（按目录顺序，first-match 取第一个命中）\n"@ + splittable_catalogue(items)
        + "\n# 待澄清的角色名\n"@ + join(unresolved, "、"@) + "\n\n# 原始消息\n"@ + message
}

/// One item to suggest aliases for.
pub struct AliasPromptItem<'a> {
    pub item_id: &'a str,
    pub name: &'a str,
    pub aliases: &'a [String],
}

/// The lines of the alias-suggestion user prompt.
pub open spec fn alias_lines(items: Seq<AliasPromptItem>) -> Seq<char>
    decreases items.len(),
{
    if items.len() == 0 {
        Seq::empty()
    } else {
        let it = items.last();
        alias_lines(items.drop_last()) + "- item_id="@ + it.item_id@ + " name="@ + it.name@
            + " 现有别名: "@ + join(views(it.aliases@), "/"@) + "\n"@
    }
}

// ---------------------------------------------------------------------------
// Implementation
// ---------------------------------------------------------------------------
/// Appends the names of configured variants joined with `、`, after ` 变体: `.
fn append_config_variants(out: &mut Vec<char>, vs: &Vec<VariantConfig>)
    ensures
        final(out)@ == old(out)@ + variants_suffix(config_variant_names(vs@)),
{
    if vs.len() == 0 {
        assert(old(out)@ + variants_suffix(config_variant_names(vs@)) =~= old(out)@);
        return;
    }
    let ghost names = config_variant_names(vs@);
    let ghost start = out@;
    append_str(out, " 变体: ");
    let ghost mid = out@;
    let mut i: usize = 0;
    while i < vs.len()
        invariant
            i <= vs@.len(),
            names == config_variant_names(vs@),
            out@ == mid + join(names.take(i as int), "、"@),
        decreases vs@.len() - i,
    {
        assert(names.take(i + 1).drop_last() =~= names.take(i as int));
        if i > 0 {
            append_str(out, "、");
        } else {
            assert(join(names.take(0), "、"@) =~= Seq::<char>::empty());
        }
        append_str(out, vs[i].name.as_str());
        proof {
            if i == 0 {
                assert(out@ =~= mid + names.take(1)[0]);
            } else {
                assert(out@ =~= mid + join(names.take(i + 1), "、"@));
            }
        }
        i = i + 1;
    }
    assert(names.take(vs@.len() as int) =~= names);
    assert(out@ =~= start + variants_suffix(names));
}

/// Appends the names of catalogue variants joined with `、`, after ` 变体: `.
fn append_item_variants(out: &mut Vec<char>, item: &Item)
    ensures
        final(out)@ == old(out)@ + variants_suffix(item_variant_names(*item)),
{
    let vs = &item.variants;
    if vs.len() == 0 {
        assert(old(out)@ + variants_suffix(item_variant_names(*item)) =~= old(out)@);
        return;
    }
    let ghost names = item_variant_names(*item);
    let ghost start = out@;
    append_str(out, " 变体: ");
    let ghost mid = out@;
    let mut i: usize = 0;
    while i < vs.len()
        invariant
            i <= vs@.len(),
            vs@ == item.variants@,
            names == item_variant_names(*item),
            out@ == mid + join(names.take(i as int), "、"@),
        decreases vs@.len() - i,
    {
        assert(names.take(i + 1).drop_last() =~= names.take(i as int));
        if i > 0 {
            append_str(out, "、");
        } else {
            assert(join(names.take(0), "、"@) =~= Seq::<char>::empty());
        }
        append_str(out, vs[i].name.as_str());
        proof {
            if i == 0 {
                assert(out@ =~= mid + names.take(1)[0]);
            } else {
                assert(out@ =~= mid + join(names.take(i + 1), "、"@));
            }
        }
        i = i + 1;
    }
    assert(names.take(vs@.len() as int) =~= names);
    assert(out@ =~= start + variants_suffix(names));
}

/// Appends one catalogue line up to (not including) the variant suffix.
fn append_line_head(out: &mut Vec<char>, name: &str, id: &str, kind: &str, aliases: &[String])
    ensures
        final(out)@ == old(out)@ + "- "@ + name@ + " (id="@ + id@ + ", kind="@ + kind@
            + ", 别名: "@ + join(views(aliases@), "/"@) + ")"@,
{
    append_str(out, "- ");
    append_str(out, name);
    append_str(out, " (id=");
    append_str(out, id);
    append_str(out, ", kind=");
    append_str(out, kind);
    append_str(out, ", 别名: ");
    append_joined(out, aliases, "/");
    append_str(out, ")");
}

/// Appends the catalogue line of a configured item.
fn append_config_line(out: &mut Vec<char>, it: &ItemConfig)
    ensures
        final(out)@ == old(out)@ + catalogue_line(
            it.name@,
            it.item_id@,
            it.kind@,
            views(it.aliases@),
            config_variant_names(it.variants@),
        ),
{
    let ghost start = out@;
    append_line_head(out, it.name.as_str(), it.item_id.as_str(), it.kind.as_str(), &it.aliases);
    append_config_variants(out, &it.variants);
    append_str(out, "\n");
    assert(out@ =~= start + catalogue_line(
        it.name@,
        it.item_id@,
        it.kind@,
        views(it.aliases@),
        config_variant_names(it.variants@),
    ));
}

/// Appends the catalogue line of a catalogue item.
fn append_item_line(out: &mut Vec<char>, it: &Item)
    ensures
        final(out)@ == old(out)@ + catalogue_line(
            it.name@,
            it.item_id.0@,
            kind_name(it.kind),
            views(it.aliases@),
            item_variant_names(*it),
        ),
{
    let ghost start = out@;
    append_line_head(out, it.name.as_str(), it.item_id.0.as_str(), it.kind.as_str(), &it.aliases);
    append_item_variants(out, it);
    append_str(out, "\n");
    assert(out@ =~= start + catalogue_line(
        it.name@,
        it.item_id.0@,
        kind_name(it.kind),
        views(it.aliases@),
        item_variant_names(*it),
    ));
}

/// The parsing system prompt (see `system_prompt_text`).
pub fn build_system_prompt(cfg: &AppConfig) -> (r: String)
    ensures
        r@ == system_prompt_text(*cfg),
{
    let mut out: Vec<char> = Vec::new();
    let tpl = chars_of(cfg.llm.prompt_template.as_str());
    let tt = crate::text::trim_chars(&tpl);
    if tt.len() == 0 {
        append_str(&mut out, "你是排谷消息解析器。只抽取结构化信息，不计算价格、不排序、不生成回复。");
    } else {
        append_str(&mut out, cfg.llm.prompt_template.as_str());
    }
    append_str(&mut out, "\n\n# 商品目录\n");
    let ghost head = out@;
    let items = &cfg.round.items;
    let mut i: usize = 0;
    while i < items.len()
        invariant
            i <= items@.len(),
            items@ == cfg.round.items@,
            out@ == head + config_catalogue(items@.take(i as int)),
        decreases items@.len() - i,
    {
        assert(items@.take(i + 1).drop_last() =~= items@.take(i as int));
        append_config_line(&mut out, &items[i]);
        assert(out@ =~= head + config_catalogue(items@.take(i + 1)));
        i = i + 1;
    }
    assert(items@.take(items@.len() as int) =~= items@);
    append_str(&mut out, "\n# 预存(购物金)用户\n");
    append_joined(&mut out, &cfg.round.priority_users, "、");
    append_str(&mut out, "\n\n# 优先时段\n");
    match &cfg.round.priority_window {
        Some(w) => {
            append_str(&mut out, "[");
            push_i64(&mut out, w.start_ms);
            append_str(&mut out, "ms, ");
            push_i64(&mut out, w.end_ms);
            append_str(&mut out, "ms) 内仅预存用户可排");
        },
        None => {
            append_str(&mut out, "无");
        },
    }
    append_str(
        &mut out,
        "\n\n# 输出契约\n只输出 JSON：\
{\"intent\":\"claim|cancel|admin|unknown\",\
\"items\":[{\"item\":\"商品名\",\"variant\":\"变体名\",\"quantity\":1,\
\"claim_type\":\"split|single\",\"slot_policy\":\"normal|tail|fullbox|wholebox\"}],\
\"confidence\":0.0,\"ambiguous_parts\":[]}。\
非排谷消息 → intent=unknown；商品歧义 → 填入 ambiguous_parts。\
种类：整盒 → claim_type=single & slot_policy=wholebox；包盒 → split & fullbox；包尾 → split & tail。",
    );
    assert(out@ =~= system_prompt_text(*cfg));
    crate::text::string_of(&out)
}

/// The first-match clarification system prompt.
pub fn build_first_match_system_prompt() -> (r: String)
    ensures
        r@ == first_match_system_text(),
{
    crate::text::owned(
        "你是排谷解析澄清器。用户只报了角色名/变体名，未报商品大类，且无法唯一匹配。\
请依据给出的商品列表，按目录顺序选择第一个含该角色名的**可拼团商品**（拼团类/特典类）。\
允许修正错别字/同音字。只输出 JSON：\
{\"matches\":[{\"name\":\"用户所报名\",\"item\":\"商品名\",\"variant\":\"变体名\"}]}。\
不要计算价格、不要生成回复。",
    )
}

/// The first-match clarification user prompt: the group-buy and gift items
/// of the configured catalogue, the names to clarify, and the message.
pub fn build_first_match_user_prompt(cfg: &AppConfig, message: &str, unresolved: &[String]) -> (r:
    String)
    ensures
        exists|items: Seq<Item>|
            items.len() == cfg.round.items@.len() && (forall|i: int|
                0 <= i < items.len() ==> item_matches_config(
                    #[trigger] items[i],
                    cfg.round.items@[i],
                    cfg.round.round_id@,
                    i,
                )) && r@ == first_match_user_text(items, message@, views(unresolved@)),
{
    let items = cfg.round.to_items();
    let mut out: Vec<char> = Vec::new();
    append_str(&mut out, "# 可拼团商品目录（按目录顺序，first-match 取第一个命中）\n");
    let ghost head = out@;
    let mut i: usize = 0;
    while i < items.len()
        invariant
            i <= items@.len(),
            out@ == head + splittable_catalogue(items@.take(i as int)),
        decreases items@.len() - i,
    {
        assert(items@.take(i + 1).drop_last() =~= items@.take(i as int));
        let it = &items[i];
        if is_splittable(it) {
            append_item_line(&mut out, it);
        }
        assert(out@ =~= head + splittable_catalogue(items@.take(i + 1)));
        i = i + 1;
    }
    assert(items@.take(items@.len() as int) =~= items@);
    append_str(&mut out, "\n# 待澄清的角色名\n");
    append_joined(&mut out, unresolved, "、");
    append_str(&mut out, "\n\n# 原始消息\n");
    append_str(&mut out, message);
    assert(out@ =~= first_match_user_text(items@, message@, views(unresolved@)));
    crate::text::string_of(&out)
}

/// The user prompt for one incoming message.
pub fn build_user_prompt(ev: &IncomingEvent) -> (r: String)
    ensures
        r@ == "群: "@ + ev.group_id@ + "\n用户ID: "@ + ev.user_id@ + "\n昵称: "@ + ev.nickname@
            + "\n消息: "@ + ev.text@,
{
    let mut out: Vec<char> = Vec::new();
    append_str(&mut out, "群: ");
    append_str(&mut out, ev.group_id.as_str());
    append_str(&mut out, "\n用户ID: ");
    append_str(&mut out, ev.user_id.as_str());
    append_str(&mut out, "\n昵称: ");
    append_str(&mut out, ev.nickname.as_str());
    append_str(&mut out, "\n消息: ");
    append_str(&mut out, ev.text.as_str());
    crate::text::string_of(&out)
}

/// The alias-suggestion system prompt.
pub fn build_alias_system_prompt() -> (r: String)
    ensures
        r@ == alias_system_text(),
{
    crate::text::owned(
        "你是排谷商品的别名整理助手。为每个商品补全/优化便于群友口语匹配的别名\
（中文简称、常见错别字或同音字、系列/作品相关称呼等），不要编造与原商品无关的别名，\
不要计算价格、不要生成回复。只输出 JSON：\
{\"suggestions\":[{\"item_id\":\"原样返回 item_id\",\"aliases\":[\"...\"],\"verdict\":\"filled\"}]}。\
suggestions 必须覆盖输入中的每个 item_id；若该商品现有别名已足够完善、无需改动，\
则 `aliases` 原样返回且 `verdict=\"best\"`；否则返回新别名集合且 `verdict=\"filled\"`。",
    )
}

/// The alias-suggestion user prompt: one line per item with its id, name
/// and current aliases.
pub fn build_alias_user_prompt(items: &[AliasPromptItem<'_>]) -> (r: String)
    ensures
        r@ == "# 待整理商品（请一次性全部处理）\n"@ + alias_lines(items@)
            + "\n只输出 JSON，suggestions 覆盖上面每个 item_id。"@,
{
    let mut out: Vec<char> = Vec::new();
    append_str(&mut out, "# 待整理商品（请一次性全部处理）\n");
    let ghost head = out@;
    let mut i: usize = 0;
    while i < items.len()
        invariant
            i <= items@.len(),
            out@ == head + alias_lines(items@.take(i as int)),
        decreases items@.len() - i,
    {
        assert(items@.take(i + 1).drop_last() =~= items@.take(i as int));
        let it = &items[i];
        append_str(&mut out, "- item_id=");
        append_str(&mut out, it.item_id);
        append_str(&mut out, " name=");
        append_str(&mut out, it.name);
        append_str(&mut out, " 现有别名: ");
        append_joined(&mut out, it.aliases, "/");
        append_str(&mut out, "\n");
        assert(out@ =~= head + alias_lines(items@.take(i + 1)));
        i = i + 1;
    }
    assert(items@.take(items@.len() as int) =~= items@);
    append_str(&mut out, "\n只输出 JSON，suggestions 覆盖上面每个 item_id。");
    crate::text::string_of(&out)
}

} // verus!
