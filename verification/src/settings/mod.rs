//! Runtime configuration: gateway whitelists, LLM settings, the active
//! round's catalogue and priority rules, member name overrides; and the
//! rules derived from it (item class, catalogue items, list prices,
//! priority-user and display-name resolution).
use vstd::prelude::*;

use crate::domain::{Item, ItemId, ItemKind, ItemVariant, MoneyCents, RoundId};
use crate::llm::{find_char, first_index};
use crate::parser::normalize::{clean_nickname, nickname_parts};
use crate::parser::rule_parser::{dec_value, parse_digits};
use crate::round::{class_named, ItemClass, PhaseWindow};
use crate::settlement::{SettlementConfig, UnitPrice};
use crate::text::{
    ascii_lower, chars_of, clone_opt, clone_strings, insert_sorted_unique, is_blank, lower_ascii,
    opt_view, owned, str_eq, strictly_sorted, trim, trim_chars, trimmed, views, is_digit,
    is_ascii_digit, slice_chars,
};

/// Round library: round-id validation.
pub mod rounds;

verus! {

/// The whole configuration.
pub struct AppConfig {
    pub revision: u64,
    pub gateway: GatewayConfig,
    pub llm: LlmSettings,
    pub round: RoundSettings,
    pub display: DisplaySettings,
    pub members: MembersSettings,
    pub settlement: SettlementConfig,
    /// Id of the active round file.
    pub active_round_id: Option<String>,
}

/// Chat gateway settings.
pub struct GatewayConfig {
    pub bind: String,
    pub whitelist_groups: Vec<String>,
    /// Member whitelist (user id / identity / display name); empty means unrestricted.
    pub whitelist_members: Vec<String>,
    pub heartbeat_secs: u64,
    pub reply_enabled: bool,
    pub allowed_actions: Vec<String>,
    /// Whether administrator slash commands are executed (otherwise only recorded).
    pub admin_commands_enabled: bool,
}

/// LLM client settings. The sampling temperature is kept in thousandths
/// (`temperature_milli`).
pub struct LlmSettings {
    pub enabled: bool,
    pub base_url: String,
    pub model: String,
    pub api_key_env: String,
    pub timeout_secs: u64,
    pub max_tokens: u32,
    pub temperature_milli: u32,
    pub fallback_to_rules: bool,
    pub prompt_template: String,
}

/// Priority window `[start_ms, end_ms)`.
pub struct PriorityWindow {
    pub start_ms: i64,
    pub end_ms: i64,
}

/// The active round.
pub struct RoundSettings {
    pub round_id: String,
    pub title: String,
    pub group_id: String,
    pub priority_users: Vec<String>,
    pub priority_window: Option<PriorityWindow>,
    /// Phase windows; empty means unrestricted.
    pub phases: Vec<PhaseWindow>,
    pub items: Vec<ItemConfig>,
}

/// A catalogue item as configured.
pub struct ItemConfig {
    pub item_id: String,
    pub name: String,
    /// Kind: `拼团`/`单领`/`整盒`/`特典` (or `group`/`single`/`box`/`gift`, legacy `split`).
    pub kind: String,
    /// Explicit class `"A"` or `"B"`; derived from the variants when absent.
    pub class: Option<String>,
    pub aliases: Vec<String>,
    /// List price in cents.
    pub unit_price_cents: i64,
    /// Per-person cap for single claims.
    pub max_quantity: Option<u32>,
    pub variants: Vec<VariantConfig>,
}

/// A configured variant.
pub struct VariantConfig {
    pub variant_id: String,
    pub name: String,
    /// List price A in cents.
    pub unit_price_cents: i64,
    /// Adjustment B in cents (may be negative); the final price is C = A + B.
    pub adjust_cents: i64,
    pub capacity: Option<u32>,
    pub aliases: Vec<String>,
}

/// Display settings.
pub struct DisplaySettings {
    pub refresh_ms: u64,
    pub data_source: String,
    pub remote_base_url: String,
}

/// Member list settings.
pub struct MembersSettings {
    pub group_id: String,
    pub cache_path: String,
    pub daily_pull_at: String,
    /// Display-name (CN) overrides bound to user ids.
    pub cn_overrides: Vec<CnOverride>,
}

/// A member's display name (CN) with aliases, bound to a user id.
pub struct CnOverride {
    pub user_id: String,
    pub cn: String,
    pub aliases: Vec<String>,
}

/// Kind of a catalogue item.
#[derive(Clone, Copy, Debug, PartialEq, Eq, Structural)]
pub enum ItemCategory {
    /// Group buy (with variants).
    Group,
    /// Single claim (no variants).
    Single,
    /// Whole sealed box (no variants).
    Box,
    /// Bonus item (with variants).
    Gift,
}

// ---------------------------------------------------------------------------
// Specifications
// ---------------------------------------------------------------------------
/// `x + y` clamped to the range of `i64`.
pub open spec fn sat_add(x: i64, y: i64) -> i64 {
    if x + y > i64::MAX {
        i64::MAX
    } else if x + y < i64::MIN {
        i64::MIN
    } else {
        (x + y) as i64
    }
}

/// The category named by a kind string (trimmed, ASCII case-insensitive).
pub open spec fn category_named(s: Seq<char>) -> Option<ItemCategory> {
    let l = ascii_lower(trim(s));
    if l == "拼团"@ || l == "group"@ || l == "split"@ {
        Some(ItemCategory::Group)
    } else if l == "单领"@ || l == "single"@ {
        Some(ItemCategory::Single)
    } else if l == "整盒"@ || l == "box"@ || l == "whole_box"@ || l == "fullbox"@ {
        Some(ItemCategory::Box)
    } else if l == "特典"@ || l == "gift"@ {
        Some(ItemCategory::Gift)
    } else {
        None
    }
}

/// Canonical name of a category.
pub open spec fn category_key(c: ItemCategory) -> Seq<char> {
    match c {
        ItemCategory::Group => "group"@,
        ItemCategory::Single => "single"@,
        ItemCategory::Box => "box"@,
        ItemCategory::Gift => "gift"@,
    }
}

/// Class derived from the variants: with variants A, without B.
pub open spec fn derived_class_of(it: ItemConfig) -> ItemClass {
    if it.variants@.len() > 0 {
        ItemClass::A
    } else {
        ItemClass::B
    }
}

/// Class of one configured item: a valid explicit class wins, else derived.
pub open spec fn config_class(it: ItemConfig) -> ItemClass {
    match it.class {
        Some(c) => match class_named(c@) {
            Some(k) => k,
            None => derived_class_of(it),
        },
        None => derived_class_of(it),
    }
}

/// Index of the first item with id `id`, or -1.
pub open spec fn first_item_index(items: Seq<ItemConfig>, id: Seq<char>) -> int
    decreases items.len(),
{
    if items.len() == 0 {
        -1
    } else if first_item_index(items.drop_last(), id) >= 0 {
        first_item_index(items.drop_last(), id)
    } else if items.last().item_id@ == id {
        items.len() - 1
    } else {
        -1
    }
}

/// Class of item `id` in a catalogue: the first matching item's class, B if absent.
pub open spec fn class_in(items: Seq<ItemConfig>, id: Seq<char>) -> ItemClass {
    let k = first_item_index(items, id);
    if k >= 0 {
        config_class(items[k])
    } else {
        ItemClass::B
    }
}

/// The engine kind of a configured item.
pub open spec fn item_kind_of(kind: Seq<char>) -> ItemKind {
    match category_named(kind) {
        Some(ItemCategory::Single) => ItemKind::Single,
        Some(ItemCategory::Box) => ItemKind::WholeBox,
        Some(ItemCategory::Gift) => ItemKind::Gift,
        Some(ItemCategory::Group) => ItemKind::Split,
        None => if kind == "shipping"@ {
            ItemKind::Shipping
        } else if kind == "adjustment"@ {
            ItemKind::Adjustment
        } else {
            ItemKind::Split
        },
    }
}

/// A catalogue item is the engine image of a configured item at position `idx`.
pub open spec fn item_matches_config(item: Item, it: ItemConfig, round_id: Seq<char>, idx: int) -> bool {
    &&& item.item_id.0 == it.item_id
    &&& item.round_id.0@ == round_id
    &&& item.name == it.name
    &&& item.kind == item_kind_of(it.kind@)
    &&& item.unit_price == MoneyCents(it.unit_price_cents)
    &&& item.box_size is None
    &&& item.max_quantity == it.max_quantity
    &&& !item.is_blind
    &&& !item.is_proxy_card
    &&& views(item.aliases@) == views(it.aliases@)
    &&& item.sort_order == idx as i32
    &&& item.variants@.len() == it.variants@.len()
    &&& forall|j: int|
        0 <= j < it.variants@.len() ==> variant_matches_config(
            #[trigger] item.variants@[j],
            it.variants@[j],
        )
}

/// A catalogue variant is the engine image of a configured variant.
pub open spec fn variant_matches_config(v: ItemVariant, c: VariantConfig) -> bool {
    &&& v.variant_id == c.variant_id
    &&& v.name == c.name
    &&& v.unit_price == MoneyCents(c.unit_price_cents)
    &&& v.capacity == c.capacity
    &&& views(v.aliases@) == views(c.aliases@)
}

/// `(item_id, variant_id, price)` triple of a list price.
pub open spec fn price_view(p: UnitPrice) -> (Seq<char>, Option<Seq<char>>, i64) {
    (p.item_id@, opt_view(p.variant_id), p.unit_price_cents)
}

/// List prices of the variants of one item.
pub open spec fn variant_prices(item_id: Seq<char>, vs: Seq<VariantConfig>) -> Seq<
    (Seq<char>, Option<Seq<char>>, i64),
> {
    vs.map_values(
        |v: VariantConfig| (item_id, Some(v.variant_id@), v.unit_price_cents),
    )
}

/// List prices of a catalogue: each item's own price followed by its variants' prices.
pub open spec fn catalogue_prices(items: Seq<ItemConfig>) -> Seq<(Seq<char>, Option<Seq<char>>, i64)>
    decreases items.len(),
{
    if items.len() == 0 {
        Seq::empty()
    } else {
        let it = items.last();
        catalogue_prices(items.drop_last()) + seq![(it.item_id@, None::<Seq<char>>, it.unit_price_cents)]
            + variant_prices(it.item_id@, it.variants@)
    }
}

/// `ts` lies in the window `[start, end)`.
pub open spec fn in_window(window: Option<(i64, i64)>, ts: i64) -> bool {
    match window {
        Some((start, end)) => start <= ts && ts < end,
        None => false,
    }
}

/// Some priority user, trimmed, equals one of the candidates.
pub open spec fn priority_match(users: Seq<Seq<char>>, candidates: Seq<Seq<char>>) -> bool {
    exists|i: int, k: int|
        0 <= i < users.len() && 0 <= k < candidates.len() && candidates[k] == trim(users[i])
}

/// The views of a slice of string slices.
pub open spec fn str_views(v: Seq<&str>) -> Seq<Seq<char>> {
    v.map_values(|s: &str| s@)
}

/// Index of the first name override for `user_id`, or -1.
pub open spec fn first_override(os: Seq<CnOverride>, user_id: Seq<char>) -> int
    decreases os.len(),
{
    if os.len() == 0 {
        -1
    } else if first_override(os.drop_last(), user_id) >= 0 {
        first_override(os.drop_last(), user_id)
    } else if os.last().user_id@ == user_id {
        os.len() - 1
    } else {
        -1
    }
}

/// Display name of a member: the override's CN, else the cleaned nickname
/// (identity, then display), else the trimmed user id; `None` when all are blank.
pub open spec fn display_name(os: Seq<CnOverride>, user_id: Seq<char>, raw: Seq<char>) -> Option<
    Seq<char>,
> {
    let k = first_override(os, user_id);
    if k >= 0 && trim(os[k].cn@).len() > 0 {
        Some(trim(os[k].cn@))
    } else {
        let (identity, display) = nickname_parts(raw);
        if trim(identity).len() > 0 {
            Some(identity)
        } else if trim(display).len() > 0 {
            Some(display)
        } else if trim(user_id).len() > 0 {
            Some(trim(user_id))
        } else {
            None
        }
    }
}

/// The raw candidate strings for priority matching: user id, raw nickname,
/// identity, display, and the override's CN and aliases.
pub open spec fn raw_candidates(os: Seq<CnOverride>, user_id: Seq<char>, raw: Seq<char>) -> Seq<
    Seq<char>,
> {
    let (identity, display) = nickname_parts(raw);
    let base = seq![user_id, raw, identity, display];
    let k = first_override(os, user_id);
    if k >= 0 {
        base + seq![os[k].cn@] + views(os[k].aliases@)
    } else {
        base
    }
}

// ---------------------------------------------------------------------------
// Implementation
// ---------------------------------------------------------------------------
/// `x + y` clamped to the range of `i64`.
pub fn saturating_add_i64(x: i64, y: i64) -> (r: i64)
    ensures
        r == sat_add(x, y),
{
    match x.checked_add(y) {
        Some(v) => v,
        None => if y > 0 {
            i64::MAX
        } else {
            i64::MIN
        },
    }
}

impl VariantConfig {
    /// Final price C = list price A + adjustment B (saturating).
    pub fn final_price_cents(&self) -> (r: i64)
        ensures
            r == sat_add(self.unit_price_cents, self.adjust_cents),
    {
        saturating_add_i64(self.unit_price_cents, self.adjust_cents)
    }
}

impl ItemCategory {
    /// Parses a kind (Chinese or English names, trimmed, ASCII case-insensitive).
    pub fn parse(s: &str) -> (r: Option<ItemCategory>)
        ensures
            r == category_named(s@),
    {
        let t = trimmed(s);
        let l = lower_ascii(&t);
        let l = crate::text::string_of(&l);
        let l = l.as_str();
        if str_eq(l, "拼团") || str_eq(l, "group") || str_eq(l, "split") {
            Some(ItemCategory::Group)
        } else if str_eq(l, "单领") || str_eq(l, "single") {
            Some(ItemCategory::Single)
        } else if str_eq(l, "整盒") || str_eq(l, "box") || str_eq(l, "whole_box") || str_eq(
            l,
            "fullbox",
        ) {
            Some(ItemCategory::Box)
        } else if str_eq(l, "特典") || str_eq(l, "gift") {
            Some(ItemCategory::Gift)
        } else {
            None
        }
    }

    /// Canonical name.
    pub fn as_str(&self) -> (r: &'static str)
        ensures
            r@ == category_key(*self),
    {
        match self {
            ItemCategory::Group => "group",
            ItemCategory::Single => "single",
            ItemCategory::Box => "box",
            ItemCategory::Gift => "gift",
        }
    }

    /// Whether items of this kind must have variants (group buys and gifts).
    pub fn requires_variants(&self) -> (r: bool)
        ensures
            r == (*self == ItemCategory::Group || *self == ItemCategory::Gift),
    {
        match self {
            ItemCategory::Group | ItemCategory::Gift => true,
            _ => false,
        }
    }
}

impl ItemConfig {
    /// The item's kind, parsed from `kind`.
    pub fn category(&self) -> (r: Option<ItemCategory>)
        ensures
            r == category_named(self.kind@),
    {
        ItemCategory::parse(self.kind.as_str())
    }

    /// Whether the item has variants.
    pub fn has_variants(&self) -> (r: bool)
        ensures
            r == (self.variants@.len() > 0),
    {
        self.variants.len() > 0
    }

    /// Class derived from the variants: with variants A (phase-restricted), without B.
    pub fn derived_class(&self) -> (r: ItemClass)
        ensures
            r == derived_class_of(*self),
    {
        if self.has_variants() {
            ItemClass::A
        } else {
            ItemClass::B
        }
    }
}

impl RoundSettings {
    /// Class of an item: a valid explicit class overrides the derivation; an
    /// item missing from the catalogue counts as B (unrestricted).
    pub fn item_class(&self, item_id: &str) -> (r: ItemClass)
        ensures
            r == class_in(self.items@, item_id@),
    {
        let mut i: usize = 0;
        while i < self.items.len()
            invariant
                i <= self.items@.len(),
                first_item_index(self.items@.take(i as int), item_id@) == -1,
            decreases self.items@.len() - i,
        {
            assert(self.items@.take(i + 1).drop_last() =~= self.items@.take(i as int));
            if str_eq(self.items[i].item_id.as_str(), item_id) {
                proof {
                    lemma_first_item_index(self.items@, item_id@, i as int);
                }
                let it = &self.items[i];
                let explicit = match &it.class {
                    Some(c) => ItemClass::parse(c.as_str()),
                    None => None,
                };
                return match explicit {
                    Some(k) => k,
                    None => it.derived_class(),
                };
            }
            i = i + 1;
        }
        proof {
            assert(self.items@.take(self.items@.len() as int) =~= self.items@);
        }
        ItemClass::B
    }

    /// The catalogue as engine items (in configuration order).
    pub fn to_items(&self) -> (r: Vec<Item>)
        ensures
            r@.len() == self.items@.len(),
            forall|i: int|
                0 <= i < r@.len() ==> item_matches_config(
                    #[trigger] r@[i],
                    self.items@[i],
                    self.round_id@,
                    i,
                ),
    {
        let mut out: Vec<Item> = Vec::new();
        let mut idx: usize = 0;
        while idx < self.items.len()
            invariant
                idx <= self.items@.len(),
                out@.len() == idx,
                forall|i: int|
                    0 <= i < idx ==> item_matches_config(
                        #[trigger] out@[i],
                        self.items@[i],
                        self.round_id@,
                        i,
                    ),
            decreases self.items@.len() - idx,
        {
            let it = &self.items[idx];
            let cat = it.category();
            let kind = match cat {
                Some(ItemCategory::Single) => ItemKind::Single,
                Some(ItemCategory::Box) => ItemKind::WholeBox,
                Some(ItemCategory::Gift) => ItemKind::Gift,
                Some(ItemCategory::Group) => ItemKind::Split,
                None => if str_eq(it.kind.as_str(), "shipping") {
                    ItemKind::Shipping
                } else if str_eq(it.kind.as_str(), "adjustment") {
                    ItemKind::Adjustment
                } else {
                    ItemKind::Split
                },
            };
            let mut variants: Vec<ItemVariant> = Vec::new();
            let mut j: usize = 0;
            while j < it.variants.len()
                invariant
                    j <= it.variants@.len(),
                    variants@.len() == j,
                    forall|k: int|
                        0 <= k < j ==> variant_matches_config(
                            #[trigger] variants@[k],
                            it.variants@[k],
                        ),
                decreases it.variants@.len() - j,
            {
                let v = &it.variants[j];
                variants.push(
                    ItemVariant {
                        variant_id: v.variant_id.clone(),
                        name: v.name.clone(),
                        unit_price: MoneyCents(v.unit_price_cents),
                        capacity: v.capacity,
                        aliases: clone_strings(&v.aliases),
                    },
                );
                j = j + 1;
            }
            #[verifier::truncate]
            let sort_order = idx as i32;
            out.push(
                Item {
                    item_id: ItemId(it.item_id.clone()),
                    round_id: RoundId(self.round_id.clone()),
                    name: it.name.clone(),
                    kind,
                    unit_price: MoneyCents(it.unit_price_cents),
                    box_size: None,
                    max_quantity: it.max_quantity,
                    is_blind: false,
                    is_proxy_card: false,
                    aliases: clone_strings(&it.aliases),
                    sort_order,
                    variants,
                },
            );
            idx = idx + 1;
        }
        out
    }

    /// List prices of the catalogue: each item's own price, then its
    /// variants' prices (the price table used by settlement and planning).
    pub fn to_unit_prices(&self) -> (r: Vec<UnitPrice>)
        ensures
            r@.map_values(|p: UnitPrice| price_view(p)) == catalogue_prices(self.items@),
    {
        let mut out: Vec<UnitPrice> = Vec::new();
        let mut i: usize = 0;
        while i < self.items.len()
            invariant
                i <= self.items@.len(),
                out@.map_values(|p: UnitPrice| price_view(p)) == catalogue_prices(
                    self.items@.take(i as int),
                ),
            decreases self.items@.len() - i,
        {
            let it = &self.items[i];
            let ghost before = out@.map_values(|p: UnitPrice| price_view(p));
            out.push(
                UnitPrice {
                    item_id: it.item_id.clone(),
                    variant_id: None,
                    unit_price_cents: it.unit_price_cents,
                },
            );
            let mut j: usize = 0;
            while j < it.variants.len()
                invariant
                    j <= it.variants@.len(),
                    out@.map_values(|p: UnitPrice| price_view(p)) == before + seq![
                        (it.item_id@, None::<Seq<char>>, it.unit_price_cents),
                    ] + variant_prices(it.item_id@, it.variants@.take(j as int)),
                decreases it.variants@.len() - j,
            {
                let v = &it.variants[j];
                let ghost mid = out@.map_values(|p: UnitPrice| price_view(p));
                out.push(
                    UnitPrice {
                        item_id: it.item_id.clone(),
                        variant_id: Some(v.variant_id.clone()),
                        unit_price_cents: v.unit_price_cents,
                    },
                );
                assert(out@.map_values(|p: UnitPrice| price_view(p)) =~= mid.push(
                    (it.item_id@, Some(v.variant_id@), v.unit_price_cents),
                ));
                assert(variant_prices(it.item_id@, it.variants@.take(j + 1)) =~= variant_prices(
                    it.item_id@,
                    it.variants@.take(j as int),
                ).push((it.item_id@, Some(v.variant_id@), v.unit_price_cents)));
                j = j + 1;
            }
            assert(it.variants@.take(it.variants@.len() as int) =~= it.variants@);
            assert(self.items@.take(i + 1).drop_last() =~= self.items@.take(i as int));
            i = i + 1;
        }
        assert(self.items@.take(self.items@.len() as int) =~= self.items@);
        out
    }
}

proof fn lemma_first_item_index(items: Seq<ItemConfig>, id: Seq<char>, i: int)
    requires
        0 <= i < items.len(),
        first_item_index(items.take(i), id) == -1,
        items[i].item_id@ == id,
    ensures
        first_item_index(items, id) == i,
    decreases items.len() - i,
{
    if i + 1 == items.len() {
        assert(items.drop_last() =~= items.take(i));
    } else {
        assert(items.drop_last().take(i) =~= items.take(i));
        lemma_first_item_index(items.drop_last(), id, i);
    }
}

proof fn lemma_first_override(os: Seq<CnOverride>, id: Seq<char>, i: int)
    requires
        0 <= i < os.len(),
        first_override(os.take(i), id) == -1,
        os[i].user_id@ == id,
    ensures
        first_override(os, id) == i,
    decreases os.len() - i,
{
    if i + 1 == os.len() {
        assert(os.drop_last() =~= os.take(i));
    } else {
        assert(os.drop_last().take(i) =~= os.take(i));
        lemma_first_override(os.drop_last(), id, i);
    }
}

/// Index of the first override for `user_id`.
fn find_override(os: &Vec<CnOverride>, user_id: &str) -> (r: Option<usize>)
    ensures
        match r {
            Some(i) => i < os@.len() && first_override(os@, user_id@) == i,
            None => first_override(os@, user_id@) == -1,
        },
{
    let mut i: usize = 0;
    while i < os.len()
        invariant
            i <= os@.len(),
            first_override(os@.take(i as int), user_id@) == -1,
        decreases os@.len() - i,
    {
        assert(os@.take(i + 1).drop_last() =~= os@.take(i as int));
        if str_eq(os[i].user_id.as_str(), user_id) {
            proof {
                lemma_first_override(os@, user_id@, i as int);
            }
            return Some(i);
        }
        i = i + 1;
    }
    proof {
        assert(os@.take(os@.len() as int) =~= os@);
    }
    None
}

/// Whether `timestamp_ms` falls in the priority window `[start, end)` (end exclusive).
pub fn in_priority_window(window: Option<(i64, i64)>, timestamp_ms: i64) -> (r: bool)
    ensures
        r == in_window(window, timestamp_ms),
{
    match window {
        Some((start, end)) => timestamp_ms >= start && timestamp_ms < end,
        None => false,
    }
}

/// Whether `candidates` holds one of the slice's strings.
fn candidates_contain(candidates: &[&str], x: &[char]) -> (r: bool)
    ensures
        r == exists|k: int| 0 <= k < candidates@.len() && candidates@[k]@ == x@,
{
    let mut k: usize = 0;
    while k < candidates.len()
        invariant
            k <= candidates@.len(),
            forall|j: int| 0 <= j < k ==> candidates@[j]@ != x@,
        decreases candidates@.len() - k,
    {
        if crate::text::str_eq_chars(candidates[k], x) {
            return true;
        }
        k = k + 1;
    }
    false
}

/// A member is a priority (pre-paid) user when some entry of the list,
/// trimmed, equals one of the candidate strings (user id, nickname, identity,
/// display name).
pub fn is_priority_user(priority_users: &[String], candidates: &[&str]) -> (r: bool)
    ensures
        r == priority_match(views(priority_users@), str_views(candidates@)),
{
    let mut i: usize = 0;
    while i < priority_users.len()
        invariant
            i <= priority_users@.len(),
            forall|a: int, k: int|
                0 <= a < i && 0 <= k < candidates@.len() ==> candidates@[k]@ != trim(
                    priority_users@[a]@,
                ),
        decreases priority_users@.len() - i,
    {
        let u = trimmed(priority_users[i].as_str());
        if candidates_contain(candidates, &u) {
            proof {
                let k = choose|k: int| 0 <= k < candidates@.len() && candidates@[k]@ == u@;
                assert(str_views(candidates@)[k] == trim(views(priority_users@)[i as int]));
            }
            return true;
        }
        i = i + 1;
    }
    proof {
        assert forall|a: int, k: int|
            0 <= a < views(priority_users@).len() && 0 <= k < str_views(
                candidates@,
            ).len() implies str_views(candidates@)[k] != trim(views(priority_users@)[a]) by {
            assert(candidates@[k]@ != trim(priority_users@[a]@));
        }
    }
    false
}

/// Display name of a member: the CN override bound to the user id, else the
/// cleaned nickname, else the user id; `None` when all of them are blank.
pub fn resolve_cn(cfg: &AppConfig, user_id: &str, raw_or_clean_nickname: &str) -> (r: Option<String>)
    ensures
        opt_view(r) == display_name(cfg.members.cn_overrides@, user_id@, raw_or_clean_nickname@),
{
    if let Some(k) = find_override(&cfg.members.cn_overrides, user_id) {
        let cn = trimmed(cfg.members.cn_overrides[k].cn.as_str());
        if cn.len() > 0 {
            return Some(crate::text::string_of(&cn));
        }
    }
    let (identity, display) = clean_nickname(raw_or_clean_nickname);
    if !is_blank(identity.as_str()) {
        return Some(identity);
    }
    if !is_blank(display.as_str()) {
        return Some(display);
    }
    let uid = trimmed(user_id);
    if uid.len() > 0 {
        Some(crate::text::string_of(&uid))
    } else {
        None
    }
}

/// Candidate strings for priority matching: user id, raw nickname, cleaned
/// identity and display, plus the member's CN override and its aliases;
/// blank strings dropped, distinct, in ascending order.
pub fn priority_candidates(cfg: &AppConfig, user_id: &str, raw_nickname: &str) -> (r: Vec<String>)
    ensures
        strictly_sorted(views(r@)),
        forall|x: Seq<char>|
            views(r@).contains(x) <==> (raw_candidates(
                cfg.members.cn_overrides@,
                user_id@,
                raw_nickname@,
            ).contains(x) && trim(x).len() > 0),
{
    let (identity, display) = clean_nickname(raw_nickname);
    let mut all: Vec<String> = Vec::new();
    all.push(owned(user_id));
    all.push(owned(raw_nickname));
    all.push(identity);
    all.push(display);
    let ghost base = views(all@);
    if let Some(k) = find_override(&cfg.members.cn_overrides, user_id) {
        let over = &cfg.members.cn_overrides[k];
        all.push(over.cn.clone());
        let aliases = clone_strings(&over.aliases);
        let mut j: usize = 0;
        while j < aliases.len()
            invariant
                j <= aliases@.len(),
                views(all@) == base + seq![over.cn@] + views(aliases@).take(j as int),
            decreases aliases@.len() - j,
        {
            let ghost prev = views(all@);
            all.push(aliases[j].clone());
            assert(views(all@) =~= prev.push(aliases@[j as int]@));
            assert(views(aliases@).take(j + 1) =~= views(aliases@).take(j as int).push(
                aliases@[j as int]@,
            ));
            assert(views(all@) =~= base + seq![over.cn@] + views(aliases@).take(j + 1));
            j = j + 1;
        }
        assert(views(aliases@).take(aliases@.len() as int) =~= views(aliases@));
        assert(views(over.aliases@) == views(aliases@));
    }
    let ghost cands = views(all@);
    assert(cands =~= raw_candidates(cfg.members.cn_overrides@, user_id@, raw_nickname@));
    let mut out: Vec<String> = Vec::new();
    let mut i: usize = 0;
    while i < all.len()
        invariant
            i <= all@.len(),
            cands == views(all@),
            strictly_sorted(views(out@)),
            forall|x: Seq<char>|
                views(out@).contains(x) <==> (cands.take(i as int).contains(x) && trim(x).len()
                    > 0),
        decreases all@.len() - i,
    {
        let ghost before = views(out@);
        let blank = is_blank(all[i].as_str());
        if !blank {
            insert_sorted_unique(&mut out, all[i].clone());
        }
        proof {
            let after = views(out@);
            let c = cands[i as int];
            assert(cands.take(i + 1) =~= cands.take(i as int).push(c));
            assert forall|x: Seq<char>|
                after.contains(x) <==> (cands.take(i + 1).contains(x) && trim(x).len() > 0) by {
                if !blank {
                    assert(after.to_set() == before.to_set().insert(c));
                    assert(after.contains(x) <==> after.to_set().contains(x));
                    assert(before.contains(x) <==> before.to_set().contains(x));
                }
                if cands.take(i + 1).contains(x) && !cands.take(i as int).contains(x) {
                    let k = choose|k: int| 0 <= k < i + 1 && #[trigger] cands.take(i + 1)[k] == x;
                    if k < i {
                        assert(cands.take(i as int)[k] == x);
                    }
                    assert(x == c);
                }
                if cands.take(i as int).contains(x) {
                    let k = choose|k: int| 0 <= k < i && cands.take(i as int)[k] == x;
                    assert(cands.take(i + 1)[k] == x);
                }
                if x == c {
                    assert(cands.take(i + 1)[i as int] == x);
                }
            }
        }
        i = i + 1;
    }
    assert(cands.take(cands.len() as int) =~= cands);
    out
}

/// Priority test including the member's CN override and its aliases.
pub fn is_priority_with_cn(cfg: &AppConfig, user_id: &str, raw_nickname: &str) -> (r: bool)
    ensures
        r == exists|i: int, x: Seq<char>|
            0 <= i < cfg.round.priority_users@.len() && raw_candidates(
                cfg.members.cn_overrides@,
                user_id@,
                raw_nickname@,
            ).contains(x) && trim(x).len() > 0 && x == trim(cfg.round.priority_users@[i]@),
{
    let owned_cands = priority_candidates(cfg, user_id, raw_nickname);
    let mut refs: Vec<&str> = Vec::new();
    let mut k: usize = 0;
    while k < owned_cands.len()
        invariant
            k <= owned_cands@.len(),
            refs@.len() == k,
            forall|j: int| 0 <= j < k ==> #[trigger] refs@[j]@ == owned_cands@[j]@,
        decreases owned_cands@.len() - k,
    {
        refs.push(owned_cands[k].as_str());
        k = k + 1;
    }
    let r = is_priority_user(cfg.round.priority_users.as_slice(), refs.as_slice());
    proof {
        assert(str_views(refs@) =~= views(owned_cands@));
        let cands = raw_candidates(cfg.members.cn_overrides@, user_id@, raw_nickname@);
        if r {
            let (i, k) = choose|i: int, k: int|
                0 <= i < cfg.round.priority_users@.len() && 0 <= k < refs@.len()
                    && str_views(refs@)[k] == trim(views(cfg.round.priority_users@)[i]);
            assert(views(owned_cands@).contains(views(owned_cands@)[k]));
        }
        if exists|i: int, x: Seq<char>|
            0 <= i < cfg.round.priority_users@.len() && cands.contains(x) && trim(x).len() > 0
                && x == trim(cfg.round.priority_users@[i]@) {
            let (i, x) = choose|i: int, x: Seq<char>|
                0 <= i < cfg.round.priority_users@.len() && cands.contains(x) && trim(x).len() > 0
                    && x == trim(cfg.round.priority_users@[i]@);
            assert(views(owned_cands@).contains(x));
            let k = choose|k: int| 0 <= k < views(owned_cands@).len() && views(owned_cands@)[k] == x;
            assert(str_views(refs@)[k] == trim(views(cfg.round.priority_users@)[i]));
        }
    }
    r
}

// ---------------------------------------------------------------------------
// Daily member pull
// ---------------------------------------------------------------------------
/// The text after an optional leading `+`.
pub open spec fn unsigned_part(s: Seq<char>) -> Seq<char> {
    if s.len() > 0 && s[0] == '+' {
        s.drop_first()
    } else {
        s
    }
}

/// Every character is an ASCII digit.
pub open spec fn all_digits(d: Seq<char>) -> bool {
    forall|j: int| 0 <= j < d.len() ==> is_digit(#[trigger] d[j])
}

/// `str::parse::<u32>`: an optional `+` and one or more ASCII digits whose
/// value fits in `u32`.
pub open spec fn u32_text(s: Seq<char>) -> Option<u32> {
    let d = unsigned_part(s);
    if d.len() > 0 && all_digits(d) && dec_value(d) <= u32::MAX {
        Some(dec_value(d) as u32)
    } else {
        None
    }
}

/// The hour and minute of a daily time `HH:MM`: each side of the first
/// colon trimmed and read as a number, 19 and 0 where that fails (also
/// when there is no colon).
pub open spec fn daily_time(s: Seq<char>) -> (u32, u32) {
    let a = first_index(s, ':');
    if a < 0 {
        (19, 0)
    } else {
        (
            match u32_text(trim(s.take(a))) {
                Some(h) => h,
                None => 19,
            },
            match u32_text(trim(s.skip(a + 1))) {
                Some(m) => m,
                None => 0,
            },
        )
    }
}

/// `str::parse::<u32>` on characters.
pub fn parse_u32(s: &[char]) -> (r: Option<u32>)
    ensures
        r == u32_text(s@),
{
    let start: usize = if s.len() > 0 && s[0] == '+' {
        1
    } else {
        0
    };
    let ghost d = unsigned_part(s@);
    assert(d =~= s@.subrange(start as int, s@.len() as int));
    if start == s.len() {
        return None;
    }
    let mut i: usize = start;
    while i < s.len()
        invariant
            start <= i <= s@.len(),
            d == s@.subrange(start as int, s@.len() as int),
            d == unsigned_part(s@),
            forall|j: int| start <= j < i ==> is_digit(#[trigger] s@[j]),
        decreases s@.len() - i,
    {
        if !is_ascii_digit(s[i]) {
            assert(d[i - start] == s@[i as int]);
            assert(!is_digit(d[i - start]));
            return None;
        }
        i = i + 1;
    }
    assert forall|j: int| 0 <= j < d.len() implies is_digit(#[trigger] d[j]) by {
        assert(d[j] == s@[j + start]);
    }
    parse_digits(s, start, s.len())
}

/// The hour and minute of the daily member pull (see `daily_time`).
pub fn daily_pull_time(hhmm: &str) -> (r: (u32, u32))
    ensures
        r == daily_time(hhmm@),
{
    let s = chars_of(hhmm);
    match find_char(&s, ':') {
        Some(a) => {
            assert(a < s.len());
            let h = parse_u32(&trim_chars(&slice_chars(&s, 0, a)));
            let m = parse_u32(&trim_chars(&slice_chars(&s, a + 1, s.len())));
            assert(s@.subrange(0, a as int) =~= s@.take(a as int));
            assert(s@.subrange(a + 1, s@.len() as int) =~= s@.skip(a + 1));
            (
                match h {
                    Some(v) => v,
                    None => 19,
                },
                match m {
                    Some(v) => v,
                    None => 0,
                },
            )
        },
        None => (19, 0),
    }
}

} // verus!
