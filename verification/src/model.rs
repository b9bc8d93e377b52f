//! The mathematical model of the rule store: spec functions over the
//! sequence of cached rules, in insertion order.

use vstd::prelude::*;

use crate::rule::RuleView;

verus! {

/// Some cached rule has this trigger.
pub open spec fn contains_trigger(rules: Seq<RuleView>, trigger: Seq<char>) -> bool {
    exists|i: int| 0 <= i < rules.len() && #[trigger] rules[i].trigger == trigger
}

/// No two cached rules share a trigger: uniqueness is global across the
/// whole cache, not merely per guild.
pub open spec fn unique_triggers(rules: Seq<RuleView>) -> bool {
    forall|i: int, j: int|
        0 <= i < j < rules.len() ==> #[trigger] rules[i].trigger != #[trigger] rules[j].trigger
}

/// The cache after deleting every rule with this trigger; the surviving
/// rules keep their insertion order.
pub open spec fn remove_trigger(rules: Seq<RuleView>, trigger: Seq<char>) -> Seq<RuleView>
    decreases rules.len(),
{
    if rules.len() == 0 {
        Seq::empty()
    } else {
        let rest = remove_trigger(rules.drop_last(), trigger);
        if rules.last().trigger == trigger {
            rest
        } else {
            rest.push(rules.last())
        }
    }
}

/// The rules that belong to this guild, in insertion order.
pub open spec fn rules_for_guild(rules: Seq<RuleView>, guild: u64) -> Seq<RuleView>
    decreases rules.len(),
{
    if rules.len() == 0 {
        Seq::empty()
    } else {
        let rest = rules_for_guild(rules.drop_last(), guild);
        if rules.last().guild == guild {
            rest.push(rules.last())
        } else {
            rest
        }
    }
}

/// Appending a rule whose trigger is absent keeps triggers unique.
pub proof fn lemma_push_keeps_unique(rules: Seq<RuleView>, rule: RuleView)
    requires
        unique_triggers(rules),
        !contains_trigger(rules, rule.trigger),
    ensures
        unique_triggers(rules.push(rule)),
{
    let pushed = rules.push(rule);
    assert forall|i: int, j: int| 0 <= i < j < pushed.len() implies #[trigger] pushed[i].trigger
        != #[trigger] pushed[j].trigger by {
        if j < rules.len() {
        } else {
            assert(pushed[i] == rules[i]);
        }
    }
}

/// Deleting a trigger keeps the surviving rules' triggers unique, and leaves
/// every survivor's trigger different from the deleted one.
pub proof fn lemma_remove_trigger_unique(rules: Seq<RuleView>, trigger: Seq<char>)
    requires
        unique_triggers(rules),
    ensures
        unique_triggers(remove_trigger(rules, trigger)),
        !contains_trigger(remove_trigger(rules, trigger), trigger),
    decreases rules.len(),
{
    if rules.len() == 0 {
    } else {
        let prefix = rules.drop_last();
        assert(unique_triggers(prefix)) by {
            assert forall|i: int, j: int| 0 <= i < j < prefix.len() implies #[trigger] prefix[i].trigger != #[trigger] prefix[j].trigger by {
                assert(rules[i].trigger != rules[j].trigger);
            }
        }
        lemma_remove_trigger_unique(prefix, trigger);
        let rest = remove_trigger(prefix, trigger);
        if rules.last().trigger == trigger {
        } else {
            lemma_remove_trigger_subset(prefix, trigger);
            assert(!contains_trigger(rest, rules.last().trigger)) by {
                if contains_trigger(rest, rules.last().trigger) {
                    let k = choose|k: int|
                        0 <= k < rest.len() && #[trigger] rest[k].trigger
                            == rules.last().trigger;
                    let m = choose|m: int|
                        0 <= m < prefix.len() && #[trigger] prefix[m] == rest[k];
                    assert(rules[m].trigger == rules[rules.len() - 1].trigger);
                }
            }
            lemma_push_keeps_unique(rest, rules.last());
        }
    }
}

/// Every rule that survives a deletion was already cached.
pub proof fn lemma_remove_trigger_subset(rules: Seq<RuleView>, trigger: Seq<char>)
    ensures
        forall|k: int|
            0 <= k < remove_trigger(rules, trigger).len() ==> rules.contains(
                #[trigger] remove_trigger(rules, trigger)[k],
            ),
    decreases rules.len(),
{
    if rules.len() == 0 {
    } else {
        let prefix = rules.drop_last();
        lemma_remove_trigger_subset(prefix, trigger);
        let rest = remove_trigger(prefix, trigger);
        let whole = remove_trigger(rules, trigger);
        assert forall|k: int| 0 <= k < whole.len() implies rules.contains(#[trigger] whole[k]) by {
            if k < rest.len() {
                let m = choose|m: int| 0 <= m < prefix.len() && #[trigger] prefix[m] == rest[k];
                assert(rules[m] == whole[k]);
            } else {
                assert(whole[k] == rules[rules.len() - 1]);
            }
        }
    }
}

/// Deleting a trigger that is not cached changes nothing.
pub proof fn lemma_remove_trigger_missing_noop(rules: Seq<RuleView>, trigger: Seq<char>)
    requires
        !contains_trigger(rules, trigger),
    ensures
        remove_trigger(rules, trigger) == rules,
    decreases rules.len(),
{
    if rules.len() == 0 {
        assert(remove_trigger(rules, trigger) =~= rules);
    } else {
        let prefix = rules.drop_last();
        assert(!contains_trigger(prefix, trigger)) by {
            if contains_trigger(prefix, trigger) {
                let k = choose|k: int|
                    0 <= k < prefix.len() && #[trigger] prefix[k].trigger == trigger;
                assert(rules[k].trigger == trigger);
            }
        }
        lemma_remove_trigger_missing_noop(prefix, trigger);
        assert(rules.last().trigger != trigger) by {
            assert(rules[rules.len() - 1] == rules.last());
        }
        assert(remove_trigger(rules, trigger) =~= rules);
    }
}

/// How one more cached rule extends a deletion's result.
pub(crate) proof fn lemma_remove_trigger_step(rules: Seq<RuleView>, trigger: Seq<char>, i: int)
    requires
        0 <= i < rules.len(),
    ensures
        remove_trigger(rules.subrange(0, i + 1), trigger) == if rules[i].trigger == trigger {
            remove_trigger(rules.subrange(0, i), trigger)
        } else {
            remove_trigger(rules.subrange(0, i), trigger).push(rules[i])
        },
{
    assert(rules.subrange(0, i + 1).drop_last() =~= rules.subrange(0, i));
    assert(rules.subrange(0, i + 1).last() == rules[i]);
}

/// How one more cached rule extends a guild listing.
pub(crate) proof fn lemma_rules_for_guild_step(rules: Seq<RuleView>, guild: u64, i: int)
    requires
        0 <= i < rules.len(),
    ensures
        rules_for_guild(rules.subrange(0, i + 1), guild) == if rules[i].guild == guild {
            rules_for_guild(rules.subrange(0, i), guild).push(rules[i])
        } else {
            rules_for_guild(rules.subrange(0, i), guild)
        },
{
    assert(rules.subrange(0, i + 1).drop_last() =~= rules.subrange(0, i));
    assert(rules.subrange(0, i + 1).last() == rules[i]);
}

/// Every rule that a guild listing yields carries that guild.
pub proof fn lemma_rules_for_guild_scoped(rules: Seq<RuleView>, guild: u64)
    ensures
        forall|i: int|
            0 <= i < rules_for_guild(rules, guild).len() ==> #[trigger] rules_for_guild(
                rules,
                guild,
            )[i].guild == guild,
    decreases rules.len(),
{
    if rules.len() == 0 {
    } else {
        let prefix = rules.drop_last();
        lemma_rules_for_guild_scoped(prefix, guild);
        let rest = rules_for_guild(prefix, guild);
        let whole = rules_for_guild(rules, guild);
        assert forall|i: int| 0 <= i < whole.len() implies #[trigger] whole[i].guild == guild by {
            if i < rest.len() {
                assert(whole[i] == rest[i]);
            } else {
                assert(whole[i] == rules.last());
            }
        }
    }
}

} // verus!
