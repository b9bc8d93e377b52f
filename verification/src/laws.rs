//! The store's laws, stated once over the model so that callers need not
//! re-derive them from the operation contracts.

use vstd::prelude::*;

use crate::model::contains_trigger;
use crate::model::lemma_push_keeps_unique;
use crate::model::lemma_remove_trigger_missing_noop;
use crate::model::lemma_remove_trigger_unique;
use crate::model::lemma_rules_for_guild_scoped;
use crate::model::remove_trigger;
use crate::model::rules_for_guild;
use crate::model::unique_triggers;
use crate::rule::RuleView;

verus! {

/// Law (uniqueness): under serialized calls, an `add` that passed the
/// duplicate gate extends a duplicate-free cache into a duplicate-free
/// cache — so no sequence of serialized `add` calls ever caches two rules
/// with the same trigger.
pub proof fn law_add_keeps_triggers_unique(rules: Seq<RuleView>, rule: RuleView)
    requires
        unique_triggers(rules),
        !contains_trigger(rules, rule.trigger),
    ensures
        unique_triggers(rules.push(rule)),
{
    lemma_push_keeps_unique(rules, rule);
}

/// Law (remove idempotence): removing a trigger that is not cached changes
/// the cache not at all, so a second identical `remove` finds the same
/// cache, decides the same benign reply, and — like the first — never
/// reaches the durable store.
pub proof fn law_remove_missing_changes_nothing(rules: Seq<RuleView>, trigger: Seq<char>)
    requires
        !contains_trigger(rules, trigger),
    ensures
        remove_trigger(rules, trigger) == rules,
{
    lemma_remove_trigger_missing_noop(rules, trigger);
}

/// Law (removal is complete): after a committed `remove`, no cached rule
/// carries the removed trigger, and a duplicate-free cache stays
/// duplicate-free.
pub proof fn law_remove_leaves_no_trigger(rules: Seq<RuleView>, trigger: Seq<char>)
    requires
        unique_triggers(rules),
    ensures
        !contains_trigger(remove_trigger(rules, trigger), trigger),
        unique_triggers(remove_trigger(rules, trigger)),
{
    lemma_remove_trigger_unique(rules, trigger);
}

/// Law (list scoping): listing one guild never yields a rule of another
/// guild.
pub proof fn law_list_never_crosses_guilds(rules: Seq<RuleView>, guild: u64, other: u64)
    requires
        guild != other,
    ensures
        forall|i: int|
            0 <= i < rules_for_guild(rules, guild).len() ==> #[trigger] rules_for_guild(
                rules,
                guild,
            )[i].guild != other,
{
    lemma_rules_for_guild_scoped(rules, guild);
}

} // verus!
