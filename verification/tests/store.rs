use autoreply::RuleStore;
use autoreply::StoreError;
use autoreply::WriteOutcome;

const GUILD_A: u64 = 11;
const GUILD_B: u64 = 22;

fn add_committed(store: &mut RuleStore, trigger: &str, reply: &str, guild: u64) -> String {
    assert!(store.add_check(&trigger.to_owned()).is_none());
    store
        .add_apply(
            trigger.to_owned(),
            reply.to_owned(),
            guild,
            WriteOutcome::Committed,
        )
        .expect("a committed add must succeed")
}

#[test]
fn scenario_add_then_duplicate() {
    let mut store = RuleStore::new();
    let msg = add_committed(&mut store, "hi", "hello!", GUILD_A);
    assert_eq!(msg, "Added rule `hi`!");

    let decision = store.add_check(&"hi".to_owned());
    assert_eq!(
        decision,
        Some("Rule already exists, delete it if you want to replace it.".to_owned())
    );
    assert_eq!(store.len(), 1);
}

#[test]
fn scenario_remove_missing() {
    let store = RuleStore::new();
    let decision = store.remove_check(&"missing".to_owned());
    assert_eq!(
        decision,
        Some("The rule you're trying to remove doesn't exist.".to_owned())
    );
}

#[test]
fn scenario_add_remove_list() {
    let mut store = RuleStore::new();
    add_committed(&mut store, "bye", "cya", GUILD_A);

    assert!(store.remove_check(&"bye".to_owned()).is_none());
    let msg = store
        .remove_apply(&"bye".to_owned(), Ok(1))
        .expect("a committed remove must succeed");
    assert_eq!(msg, "Removed rule `bye`");

    assert!(!store.contains(&"bye".to_owned()));
    assert_eq!(store.list(GUILD_A), "There are no rules in this guild.");
}

#[test]
fn concurrent_adds_agree_on_one_row() {
    // Two adds race on the same trigger: both pass the duplicate gate before
    // either durable write lands. The backend's uniqueness constraint commits
    // only the first row; the loser sees a duplicate. Cache and store end up
    // agreeing on exactly one value for "x".
    let mut store = RuleStore::new();
    assert!(store.add_check(&"x".to_owned()).is_none());
    assert!(store.add_check(&"x".to_owned()).is_none());

    let winner = store
        .add_apply("x".to_owned(), "r1".to_owned(), GUILD_A, WriteOutcome::Committed)
        .expect("the winning write must be cached");
    assert_eq!(winner, "Added rule `x`!");

    let loser = store
        .add_apply("x".to_owned(), "r2".to_owned(), GUILD_A, WriteOutcome::DuplicateRow)
        .expect("a duplicate row is benign");
    assert_eq!(
        loser,
        "Rule already exists, delete it if you want to replace it."
    );

    assert_eq!(store.len(), 1);
    let rules = store.rules_for(GUILD_A);
    assert_eq!(rules.len(), 1);
    assert_eq!(rules[0].trigger, "x");
    assert_eq!(rules[0].reply, "r1");
}

#[test]
fn racing_commit_against_already_cached_trigger_changes_nothing() {
    // Defensive branch: even if the backend reported a commit while the cache
    // already holds the trigger, the cache takes no second row.
    let mut store = RuleStore::new();
    add_committed(&mut store, "x", "r1", GUILD_A);

    let reply = store
        .add_apply("x".to_owned(), "r2".to_owned(), GUILD_A, WriteOutcome::Committed)
        .expect("benign reply expected");
    assert_eq!(
        reply,
        "Rule already exists, delete it if you want to replace it."
    );
    assert_eq!(store.len(), 1);
    assert_eq!(store.rules_for(GUILD_A)[0].reply, "r1");
}

#[test]
fn failed_write_leaves_cache_unchanged() {
    let mut store = RuleStore::new();
    add_committed(&mut store, "keep", "kept", GUILD_A);

    assert!(store.add_check(&"hi".to_owned()).is_none());
    let result = store.add_apply(
        "hi".to_owned(),
        "hello!".to_owned(),
        GUILD_A,
        WriteOutcome::Failed,
    );
    assert_eq!(result, Err(StoreError::Write));
    assert!(!store.contains(&"hi".to_owned()));
    assert_eq!(store.len(), 1);
}

#[test]
fn failed_delete_leaves_cache_unchanged() {
    let mut store = RuleStore::new();
    add_committed(&mut store, "bye", "cya", GUILD_A);

    let result = store.remove_apply(&"bye".to_owned(), Err(StoreError::Write));
    assert_eq!(result, Err(StoreError::Write));
    assert!(store.contains(&"bye".to_owned()));
    assert_eq!(store.len(), 1);
}

#[test]
fn remove_missing_twice_gives_same_message() {
    let mut store = RuleStore::new();
    add_committed(&mut store, "other", "rule", GUILD_A);

    let first = store.remove_check(&"ghost".to_owned());
    let second = store.remove_check(&"ghost".to_owned());
    assert_eq!(
        first,
        Some("The rule you're trying to remove doesn't exist.".to_owned())
    );
    assert_eq!(first, second);
    assert_eq!(store.len(), 1);
}

#[test]
fn remove_with_zero_rows_affected_is_not_an_error() {
    let mut store = RuleStore::new();
    add_committed(&mut store, "bye", "cya", GUILD_A);

    let msg = store
        .remove_apply(&"bye".to_owned(), Ok(0))
        .expect("zero affected rows is a valid outcome");
    assert_eq!(msg, "Removed rule `bye`");
    assert!(!store.contains(&"bye".to_owned()));
}

#[test]
fn list_is_scoped_to_the_guild() {
    let mut store = RuleStore::new();
    add_committed(&mut store, "hi", "hello", GUILD_A);
    add_committed(&mut store, "intruder", "nope", GUILD_B);
    add_committed(&mut store, "yo", "sup", GUILD_A);

    let rules = store.rules_for(GUILD_A);
    assert_eq!(rules.len(), 2);
    assert!(rules.iter().all(|r| r.guild == GUILD_A));
    assert_eq!(rules[0].trigger, "hi");
    assert_eq!(rules[1].trigger, "yo");

    assert_eq!(store.list(GUILD_A), "`hi` -> hello\n`yo` -> sup\n");
    assert_eq!(store.list(GUILD_B), "`intruder` -> nope\n");
}

#[test]
fn list_of_an_empty_guild_is_explicit() {
    let store = RuleStore::new();
    assert_eq!(store.list(GUILD_A), "There are no rules in this guild.");
}

#[test]
fn triggers_are_unique_across_guilds() {
    // The duplicate gate is global: the same trigger in another guild is
    // still refused.
    let mut store = RuleStore::new();
    add_committed(&mut store, "hi", "hello", GUILD_A);

    let decision = store.add_check(&"hi".to_owned());
    assert_eq!(
        decision,
        Some("Rule already exists, delete it if you want to replace it.".to_owned())
    );
}
