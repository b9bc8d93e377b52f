//! The rule entity: a (trigger, reply, guild) tuple.

use vstd::prelude::*;

verus! {

/// The mathematical value of a [`Rule`]: its two texts as character
/// sequences, and the guild it belongs to.
pub ghost struct RuleView {
    pub trigger: Seq<char>,
    pub reply: Seq<char>,
    pub guild: u64,
}

/// One autoresponse rule: when a message in `guild` matches `trigger`,
/// `reply` is produced. Triggers are case-sensitive.
pub struct Rule {
    pub trigger: String,
    pub reply: String,
    pub guild: u64,
}

impl View for Rule {
    type V = RuleView;

    open spec fn view(&self) -> RuleView {
        RuleView { trigger: self.trigger@, reply: self.reply@, guild: self.guild }
    }
}

impl DeepView for Rule {
    type V = RuleView;

    open spec fn deep_view(&self) -> RuleView {
        self.view()
    }
}

impl Clone for Rule {
    fn clone(&self) -> (other: Rule)
        ensures
            other == *self,
    {
        Rule { trigger: self.trigger.clone(), reply: self.reply.clone(), guild: self.guild }
    }
}

} // verus!
