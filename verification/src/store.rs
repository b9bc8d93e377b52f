//! The rule store orchestrator: composes the in-memory cache with a durable
//! backend that the caller drives. Every operation is split at the durable
//! write: a `*_check` decides against the cache before the write, and a
//! `*_apply` applies the write's outcome to the cache afterwards, so the
//! durable write always precedes the cache mutation.

use vstd::prelude::*;
use vstd::string::StringExecFns;

use crate::cache::RuleCache;
use crate::model::contains_trigger;
use crate::model::remove_trigger;
use crate::model::rules_for_guild;
use crate::model::unique_triggers;
use crate::rule::Rule;
use crate::rule::RuleView;

verus! {

/// A durable-store failure, surfaced to the caller as a hard error rather
/// than a benign status string.
#[derive(Clone, Copy, Debug, PartialEq, Eq)]
pub enum StoreError {
    /// The backend rejected or failed a write; the cache was left untouched.
    Write,
}

/// What the durable store reported for an attempted insert.
#[derive(Clone, Copy, Debug, PartialEq, Eq)]
pub enum WriteOutcome {
    /// The row was written.
    Committed,
    /// The backend's uniqueness constraint already held a row for this
    /// trigger, written by a racing operation.
    DuplicateRow,
    /// The write failed outright (connectivity or any other backend error).
    Failed,
}

/// The benign reply when the trigger is already taken.
pub open spec fn already_exists_msg() -> Seq<char> {
    "Rule already exists, delete it if you want to replace it."@
}

/// The confirmation for a newly added rule.
pub open spec fn added_msg(trigger: Seq<char>) -> Seq<char> {
    "Added rule `"@ + trigger + "`!"@
}

/// The benign reply when there is nothing to remove.
pub open spec fn missing_msg() -> Seq<char> {
    "The rule you're trying to remove doesn't exist."@
}

/// The confirmation for a removed rule.
pub open spec fn removed_msg(trigger: Seq<char>) -> Seq<char> {
    "Removed rule `"@ + trigger + "`"@
}

/// One listed rule, rendered as display text.
pub open spec fn rule_line(rule: RuleView) -> Seq<char> {
    "`"@ + rule.trigger + "` -> "@ + rule.reply + "\n"@
}

/// A guild's rules rendered in insertion order, one line each.
pub open spec fn render_rules(rules: Seq<RuleView>) -> Seq<char>
    decreases rules.len(),
{
    if rules.len() == 0 {
        Seq::empty()
    } else {
        render_rules(rules.drop_last()) + rule_line(rules.last())
    }
}

/// The explicit reply for a guild with no rules.
pub open spec fn no_rules_msg() -> Seq<char> {
    "There are no rules in this guild."@
}

/// What `list` replies for a guild: its rules rendered in insertion order,
/// or the explicit empty reply.
pub open spec fn list_msg(rules: Seq<RuleView>, guild: u64) -> Seq<char> {
    if rules_for_guild(rules, guild).len() == 0 {
        no_rules_msg()
    } else {
        render_rules(rules_for_guild(rules, guild))
    }
}

fn already_exists_message() -> (msg: String)
    ensures
        msg@ == already_exists_msg(),
{
    "Rule already exists, delete it if you want to replace it.".to_owned()
}

fn added_message(trigger: &String) -> (msg: String)
    ensures
        msg@ == added_msg(trigger@),
{
    let mut msg = "Added rule `".to_owned();
    msg.append(trigger.as_str());
    msg.append("`!");
    msg
}

fn removed_message(trigger: &String) -> (msg: String)
    ensures
        msg@ == removed_msg(trigger@),
{
    let mut msg = "Removed rule `".to_owned();
    msg.append(trigger.as_str());
    msg.append("`");
    msg
}

fn rule_line_text(rule: &Rule) -> (line: String)
    ensures
        line@ == rule_line(rule@),
{
    let mut line = "`".to_owned();
    line.append(rule.trigger.as_str());
    line.append("` -> ");
    line.append(rule.reply.as_str());
    line.append("\n");
    line
}

/// The mutation/query surface over the rule cache. The durable store stays
/// with the caller: it issues the insert or delete between the `*_check`
/// and the `*_apply` of an operation and hands the outcome in.
pub struct RuleStore {
    cache: RuleCache,
}

impl View for RuleStore {
    type V = Seq<RuleView>;

    closed spec fn view(&self) -> Seq<RuleView> {
        self.cache@
    }
}

impl RuleStore {
    /// A store with an empty cache.
    pub fn new() -> (store: RuleStore)
        ensures
            store@ == Seq::<RuleView>::empty(),
    {
        RuleStore { cache: RuleCache::new() }
    }

    /// Whether some cached rule has this trigger.
    pub fn contains(&self, trigger: &String) -> (found: bool)
        ensures
            found == contains_trigger(self@, trigger@),
    {
        self.cache.contains(trigger)
    }

    /// How many rules are cached.
    pub fn len(&self) -> (n: usize)
        ensures
            n == self@.len(),
    {
        self.cache.len()
    }

    /// Clones out the rules of one guild, in insertion order.
    pub fn rules_for(&self, guild: u64) -> (out: Vec<Rule>)
        ensures
            out.deep_view() == rules_for_guild(self@, guild),
    {
        self.cache.list(guild)
    }

    /// `add`, the duplicate gate: a trigger that is already cached gets the
    /// benign reply back, and the caller must not attempt the durable
    /// write. Otherwise the caller issues the durable insert and hands its
    /// outcome to [`RuleStore::add_apply`].
    pub fn add_check(&self, trigger: &String) -> (decision: Option<String>)
        ensures
            match decision {
                Some(msg) => contains_trigger(self@, trigger@) && msg@ == already_exists_msg(),
                None => !contains_trigger(self@, trigger@),
            },
    {
        if self.cache.contains(trigger) {
            Some(already_exists_message())
        } else {
            None
        }
    }

    /// `add`, after the durable insert: applies the write's outcome to the
    /// cache. A failed write leaves the cache exactly as it was and comes
    /// back as a hard error; a duplicate row found by the backend — or a
    /// rule that a racing add cached first — gets the benign reply and
    /// changes nothing; only a committed write for a still-absent trigger
    /// is cached and confirmed.
    pub fn add_apply(&mut self, trigger: String, reply: String, guild: u64, outcome: WriteOutcome) -> (result: Result<
        String,
        StoreError,
    >)
        ensures
            unique_triggers(final(self)@),
            outcome == WriteOutcome::Failed ==> final(self)@ == old(self)@ && result == Err::<
                String,
                StoreError,
            >(StoreError::Write),
            outcome == WriteOutcome::DuplicateRow ==> final(self)@ == old(self)@ && (match result {
                Ok(msg) => msg@ == already_exists_msg(),
                Err(_) => false,
            }),
            outcome == WriteOutcome::Committed && contains_trigger(old(self)@, trigger@)
                ==> final(self)@ == old(self)@ && (match result {
                Ok(msg) => msg@ == already_exists_msg(),
                Err(_) => false,
            }),
            outcome == WriteOutcome::Committed && !contains_trigger(old(self)@, trigger@)
                ==> final(self)@ == old(self)@.push(
                RuleView { trigger: trigger@, reply: reply@, guild },
            ) && (match result {
                Ok(msg) => msg@ == added_msg(trigger@),
                Err(_) => false,
            }),
    {
        proof {
            use_type_invariant(&self.cache);
        }
        match outcome {
            WriteOutcome::Failed => Err(StoreError::Write),
            WriteOutcome::DuplicateRow => Ok(already_exists_message()),
            WriteOutcome::Committed => {
                if self.cache.contains(&trigger) {
                    Ok(already_exists_message())
                } else {
                    let msg = added_message(&trigger);
                    self.cache.insert(Rule { trigger, reply, guild });
                    Ok(msg)
                }
            },
        }
    }

    /// `remove`, the existence gate: a trigger that is not cached gets the
    /// benign reply back, and the caller must not attempt the durable
    /// delete. Otherwise the caller issues the durable delete and hands its
    /// outcome to [`RuleStore::remove_apply`].
    pub fn remove_check(&self, trigger: &String) -> (decision: Option<String>)
        ensures
            match decision {
                Some(msg) => !contains_trigger(self@, trigger@) && msg@ == missing_msg(),
                None => contains_trigger(self@, trigger@),
            },
    {
        if self.cache.contains(trigger) {
            None
        } else {
            Some("The rule you're trying to remove doesn't exist.".to_owned())
        }
    }

    /// `remove`, after the durable delete: applies the delete's outcome to
    /// the cache. A failed delete leaves the cache exactly as it was and
    /// comes back as a hard error; a successful one (whatever row count it
    /// affected) drops every cached rule with the trigger and is confirmed.
    pub fn remove_apply(&mut self, trigger: &String, outcome: Result<u64, StoreError>) -> (result: Result<
        String,
        StoreError,
    >)
        ensures
            unique_triggers(final(self)@),
            outcome matches Err(_) ==> final(self)@ == old(self)@ && result == Err::<
                String,
                StoreError,
            >(StoreError::Write),
            outcome matches Ok(_) ==> final(self)@ == remove_trigger(old(self)@, trigger@) && (
            match result {
                Ok(msg) => msg@ == removed_msg(trigger@),
                Err(_) => false,
            }),
    {
        proof {
            use_type_invariant(&self.cache);
        }
        match outcome {
            Err(_) => Err(StoreError::Write),
            Ok(_) => {
                let msg = removed_message(trigger);
                self.cache.remove_by_trigger(trigger);
                Ok(msg)
            },
        }
    }

    /// `list`: renders the guild's cached rules in insertion order, or the
    /// explicit empty reply. Reads only the cache and cannot fail.
    pub fn list(&self, guild: u64) -> (out: String)
        ensures
            out@ == list_msg(self@, guild),
    {
        let scoped = self.cache.list(guild);
        if scoped.len() == 0 {
            return "There are no rules in this guild.".to_owned();
        }
        let ghost lines = scoped.deep_view();
        let mut out = String::new();
        let mut i: usize = 0;
        while i < scoped.len()
            invariant
                lines == scoped.deep_view(),
                lines == rules_for_guild(self@, guild),
                i <= scoped.len(),
                out@ == render_rules(lines.subrange(0, i as int)),
            decreases scoped.len() - i,
        {
            let line = rule_line_text(&scoped[i]);
            out.append(line.as_str());
            proof {
                assert(lines.subrange(0, i as int + 1).drop_last() =~= lines.subrange(0, i as int));
                assert(lines.subrange(0, i as int + 1).last() == lines[i as int]);
                assert(scoped@[i as int]@ == lines[i as int]);
            }
            i += 1;
        }
        proof {
            assert(lines.subrange(0, lines.len() as int) =~= lines);
        }
        out
    }
}

} // verus!
