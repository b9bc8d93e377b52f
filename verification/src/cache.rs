//! The in-memory rule cache: a read-optimized projection of the durable
//! store. Mutations happen only after the caller has committed the matching
//! durable write, so the cache never holds a rule the backend refused.

use vstd::prelude::*;

use crate::model::contains_trigger;
use crate::model::lemma_push_keeps_unique;
use crate::model::lemma_remove_trigger_step;
use crate::model::lemma_remove_trigger_unique;
use crate::model::lemma_rules_for_guild_step;
use crate::model::remove_trigger;
use crate::model::rules_for_guild;
use crate::model::unique_triggers;
use crate::rule::Rule;
use crate::rule::RuleView;

verus! {

/// All cached rules, in insertion order.
pub struct RuleCache {
    rules: Vec<Rule>,
}

impl View for RuleCache {
    type V = Seq<RuleView>;

    closed spec fn view(&self) -> Seq<RuleView> {
        self.rules.deep_view()
    }
}

impl RuleCache {
    /// No two cached rules share a trigger. The duplicate gate
    /// in front of every insertion establishes it; removal preserves it.
    #[verifier::type_invariant]
    pub(crate) open spec fn wf(self) -> bool {
        unique_triggers(self@)
    }

    /// An empty cache.
    pub fn new() -> (cache: RuleCache)
        ensures
            cache@ == Seq::<RuleView>::empty(),
    {
        let cache = RuleCache { rules: Vec::new() };
        proof {
            assert(cache@ =~= Seq::<RuleView>::empty());
        }
        cache
    }

    /// How many rules are cached.
    pub fn len(&self) -> (n: usize)
        ensures
            n == self@.len(),
    {
        self.rules.len()
    }

    /// Whether some cached rule has this trigger.
    pub fn contains(&self, trigger: &String) -> (found: bool)
        ensures
            found == contains_trigger(self@, trigger@),
    {
        let mut i: usize = 0;
        while i < self.rules.len()
            invariant
                i <= self.rules.len(),
                forall|k: int| 0 <= k < i ==> #[trigger] self@[k].trigger != trigger@,
            decreases self.rules.len() - i,
        {
            if self.rules[i].trigger == *trigger {
                assert(self@[i as int].trigger == trigger@);
                return true;
            }
            i += 1;
        }
        false
    }

    /// Caches a rule. The caller has already committed it durably and has
    /// checked the duplicate gate, so the trigger must still be absent.
    pub fn insert(&mut self, rule: Rule)
        requires
            !contains_trigger(old(self)@, rule@.trigger),
        ensures
            final(self)@ == old(self)@.push(rule@),
            unique_triggers(final(self)@),
    {
        proof {
            use_type_invariant(&*self);
            lemma_push_keeps_unique(self@, rule@);
        }
        let mut rules: Vec<Rule> = Vec::new();
        std::mem::swap(&mut rules, &mut self.rules);
        rules.push(rule);
        proof {
            assert(rules.deep_view() =~= old(self)@.push(rule@));
        }
        self.rules = rules;
    }

    /// Drops every cached rule with this trigger, keeping the others in
    /// insertion order. Dropping an absent trigger is a no-op.
    pub fn remove_by_trigger(&mut self, trigger: &String)
        ensures
            final(self)@ == remove_trigger(old(self)@, trigger@),
            unique_triggers(final(self)@),
    {
        proof {
            use_type_invariant(&*self);
            lemma_remove_trigger_unique(self@, trigger@);
        }
        let ghost all = self@;
        let mut kept: Vec<Rule> = Vec::new();
        let mut i: usize = 0;
        while i < self.rules.len()
            invariant
                *self == *old(self),
                all == self@,
                i <= self.rules.len(),
                kept.deep_view() == remove_trigger(all.subrange(0, i as int), trigger@),
            decreases self.rules.len() - i,
        {
            let r = &self.rules[i];
            proof {
                lemma_remove_trigger_step(all, trigger@, i as int);
                assert(all[i as int] == self.rules@[i as int]@);
            }
            if r.trigger == *trigger {
                proof {
                    assert(kept.deep_view() == remove_trigger(
                        all.subrange(0, i as int + 1),
                        trigger@,
                    ));
                }
            } else {
                kept.push(r.clone());
                proof {
                    assert(kept.deep_view() =~= remove_trigger(
                        all.subrange(0, i as int + 1),
                        trigger@,
                    ));
                }
            }
            i += 1;
        }
        proof {
            assert(all.subrange(0, all.len() as int) =~= all);
        }
        self.rules = kept;
    }

    /// Clones out the rules of one guild, in insertion order.
    pub fn list(&self, guild: u64) -> (out: Vec<Rule>)
        ensures
            out.deep_view() == rules_for_guild(self@, guild),
    {
        let ghost all = self@;
        let mut out: Vec<Rule> = Vec::new();
        let mut i: usize = 0;
        while i < self.rules.len()
            invariant
                all == self@,
                i <= self.rules.len(),
                out.deep_view() == rules_for_guild(all.subrange(0, i as int), guild),
            decreases self.rules.len() - i,
        {
            let r = &self.rules[i];
            proof {
                lemma_rules_for_guild_step(all, guild, i as int);
                assert(all[i as int] == self.rules@[i as int]@);
            }
            if r.guild == guild {
                out.push(r.clone());
                proof {
                    assert(out.deep_view() =~= rules_for_guild(
                        all.subrange(0, i as int + 1),
                        guild,
                    ));
                }
            }
            i += 1;
        }
        proof {
            assert(all.subrange(0, all.len() as int) =~= all);
        }
        out
    }
}

} // verus!
