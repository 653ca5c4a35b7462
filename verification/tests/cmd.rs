use ferrodun::cmd::cmdset::{CmdSet, CmdSetKey, CmdSetKeyError, MergeType, Priority};
use ferrodun::cmd::command::{Command, CommandName, CommandNameError, Switch, SwitchError};
use ferrodun::cmd::parser::{CommandTable, ParseOutcome};
use ferrodun::cmd::trie::{PrefixTrie, TrieMatch};

fn name(value: &str) -> CommandName {
    CommandName::parse(value).expect("valid command name")
}

fn switch(value: &str) -> Switch {
    Switch::parse(value).expect("valid switch")
}

fn command(value: &str) -> Command {
    Command::new(name(value))
}

fn set(key: &str, priority: i32, mergetype: MergeType, commands: Vec<Command>) -> CmdSet {
    CmdSet::new(CmdSetKey::parse(key).expect("valid key"), Priority::new(priority), mergetype, commands)
}

fn names(table: &CommandTable) -> Vec<String> {
    table.iter().map(|c| c.name().as_str().to_owned()).collect()
}

fn table(commands: Vec<Command>) -> CommandTable {
    CmdSet::merge(&[CmdSet::new(
        CmdSetKey::parse("test").expect("valid key"),
        Priority::default(),
        MergeType::Union,
        commands,
    )])
}

fn matched_bare(command: &Command) -> ParseOutcome<'_> {
    ParseOutcome::Matched { command, switches: Vec::new(), args: String::new() }
}

fn trie(entries: &[(&str, usize)]) -> PrefixTrie {
    let mut trie = PrefixTrie::new();
    for (key, index) in entries {
        trie.insert(key, *index);
    }
    trie
}

// command

#[test]
fn parses_a_lowercase_name() {
    assert_eq!(name("north").as_str(), "north");
}

#[test]
fn command_rejects_an_empty_name() {
    assert_eq!(CommandName::parse(""), Err(CommandNameError::Empty));
}

#[test]
fn rejects_an_uppercase_name() {
    assert_eq!(CommandName::parse("Look"), Err(CommandNameError::InvalidCharacter('L')));
}

#[test]
fn rejects_a_name_with_whitespace_or_slash() {
    assert_eq!(CommandName::parse("go north"), Err(CommandNameError::InvalidCharacter(' ')));
    assert_eq!(CommandName::parse("look/quiet"), Err(CommandNameError::InvalidCharacter('/')));
}

#[test]
fn parses_a_switch() {
    assert_eq!(Switch::parse("quiet").expect("valid").as_str(), "quiet");
}

#[test]
fn rejects_an_invalid_switch() {
    assert_eq!(Switch::parse(""), Err(SwitchError::Empty));
    assert_eq!(Switch::parse("Quiet"), Err(SwitchError::InvalidCharacter('Q')));
}

#[test]
fn names_yields_canonical_then_aliases() {
    let command = Command::new(name("north")).with_alias(name("n")).with_alias(name("forward"));

    let names: Vec<&str> = command.names().into_iter().map(CommandName::as_str).collect();
    assert_eq!(names, vec!["north", "n", "forward"]);
}

#[test]
fn builders_record_aliases_and_switches() {
    let command = Command::new(name("look"))
        .with_alias(name("l"))
        .with_switch(Switch::parse("quiet").expect("valid"));

    assert_eq!(command.name().as_str(), "look");
    assert_eq!(command.aliases(), &[name("l")]);
    assert_eq!(command.switches(), &[Switch::parse("quiet").expect("valid")]);
}

#[test]
fn command_names_accept_digits_dashes_and_underscores() {
    assert_eq!(name("from-account_2").as_str(), "from-account_2");
    assert_eq!(CommandName::parse("ab!"), Err(CommandNameError::InvalidCharacter('!')));
}

// trie

#[test]
fn resolves_an_exact_name() {
    let trie = trie(&[("look", 0)]);
    assert_eq!(trie.lookup("look"), TrieMatch::Exact(0));
}

#[test]
fn resolves_a_unique_prefix() {
    let trie = trie(&[("north", 0)]);
    assert_eq!(trie.lookup("no"), TrieMatch::Prefix(vec![0]));
}

#[test]
fn an_exact_terminal_beats_a_longer_name_it_prefixes() {
    let trie = trie(&[("n", 0), ("north", 1)]);
    assert_eq!(trie.lookup("n"), TrieMatch::Exact(0));
}

#[test]
fn an_ambiguous_prefix_returns_sorted_deduped_indices() {
    let trie = trie(&[("south", 2), ("say", 1), ("score", 0)]);
    assert_eq!(trie.lookup("s"), TrieMatch::Prefix(vec![0, 1, 2]));
}

#[test]
fn an_unknown_prefix_returns_none() {
    let trie = trie(&[("look", 0)]);
    assert_eq!(trie.lookup("z"), TrieMatch::NoMatch);
}

#[test]
fn a_repeated_insert_overwrites_and_shared_indices_dedup() {
    let trie = trie(&[("look", 0), ("look", 3), ("lo", 3), ("lamp", 3)]);
    assert_eq!(trie.lookup("look"), TrieMatch::Exact(3));
    assert_eq!(trie.lookup("l"), TrieMatch::Prefix(vec![3]));
}

#[test]
fn the_empty_token_reaches_every_key_and_an_empty_trie_has_none() {
    let full = trie(&[("south", 2), ("say", 1), ("look", 0)]);
    assert_eq!(full.lookup(""), TrieMatch::Prefix(vec![0, 1, 2]));
    let empty = trie(&[]);
    assert_eq!(empty.lookup(""), TrieMatch::Prefix(vec![]));
    assert_eq!(empty.lookup("l"), TrieMatch::NoMatch);
}

#[test]
fn a_token_longer_than_every_key_matches_nothing() {
    let trie = trie(&[("lo", 0), ("look", 1)]);
    assert_eq!(trie.lookup("lookout"), TrieMatch::NoMatch);
    assert_eq!(trie.lookup("loo"), TrieMatch::Prefix(vec![1]));
    assert_eq!(trie.lookup("lo"), TrieMatch::Exact(0));
}

#[test]
fn keys_follow_characters_not_bytes() {
    let trie = trie(&[("café", 4), ("cafe", 5)]);
    assert_eq!(trie.lookup("café"), TrieMatch::Exact(4));
    assert_eq!(trie.lookup("caf"), TrieMatch::Prefix(vec![4, 5]));
    assert_eq!(trie.lookup("cafés"), TrieMatch::NoMatch);
}

// parser

#[test]
fn matches_an_exact_name() {
    let table = table(vec![Command::new(name("look"))]);
    let look = table.get(&name("look")).expect("look present");
    assert_eq!(table.parse("look"), matched_bare(look));
}

#[test]
fn matches_an_alias() {
    let table = table(vec![Command::new(name("north")).with_alias(name("n"))]);
    let north = table.get(&name("north")).expect("north present");
    assert_eq!(table.parse("n"), matched_bare(north));
}

#[test]
fn matches_a_unique_prefix() {
    let table = table(vec![Command::new(name("north"))]);
    let north = table.get(&name("north")).expect("north present");
    assert_eq!(table.parse("no"), matched_bare(north));
}

#[test]
fn an_exact_alias_beats_a_command_it_prefixes() {
    let table = table(vec![
        Command::new(name("north")).with_alias(name("n")),
        Command::new(name("nibble")),
    ]);
    let north = table.get(&name("north")).expect("north present");
    assert_eq!(table.parse("n"), matched_bare(north));
}

#[test]
fn an_ambiguous_prefix_lists_candidates() {
    let table = table(vec![Command::new(name("say")), Command::new(name("score"))]);
    let say = table.get(&name("say")).expect("say present");
    let score = table.get(&name("score")).expect("score present");
    assert_eq!(table.parse("s"), ParseOutcome::Ambiguous(vec![say.name(), score.name()]));
}

#[test]
fn an_unknown_command_is_not_found() {
    let table = table(vec![Command::new(name("look"))]);
    assert_eq!(table.parse("dance"), ParseOutcome::NotFound);
}

#[test]
fn a_blank_line_is_empty() {
    let table = table(vec![Command::new(name("look"))]);
    assert_eq!(table.parse("   "), ParseOutcome::Empty);
}

#[test]
fn parses_a_switch_and_keeps_the_argument_remainder() {
    let table = table(vec![Command::new(name("look")).with_switch(switch("quiet"))]);
    let look = table.get(&name("look")).expect("look present");
    assert_eq!(
        table.parse("look/quiet here"),
        ParseOutcome::Matched { command: look, switches: vec![switch("quiet")], args: "here".to_string() }
    );
}

#[test]
fn parses_multiple_switches() {
    let table = table(vec![Command::new(name("look"))]);
    let look = table.get(&name("look")).expect("look present");
    assert_eq!(
        table.parse("look/quiet/brief"),
        ParseOutcome::Matched {
            command: look,
            switches: vec![switch("quiet"), switch("brief")],
            args: String::new(),
        }
    );
}

#[test]
fn a_malformed_switch_is_reported() {
    let table = table(vec![Command::new(name("look"))]);
    assert_eq!(table.parse("look/"), ParseOutcome::BadSwitch(SwitchError::Empty));
}

#[test]
fn a_leading_slash_with_no_command_is_not_found() {
    let table = table(vec![Command::new(name("look"))]);
    assert_eq!(table.parse("/quiet"), ParseOutcome::NotFound);
}

#[test]
fn command_matching_is_case_insensitive() {
    let table = table(vec![Command::new(name("look"))]);
    let look = table.get(&name("look")).expect("look present");
    assert_eq!(table.parse("LOOK"), matched_bare(look));
}

#[test]
fn the_argument_remainder_is_preserved_verbatim() {
    let table = table(vec![Command::new(name("say"))]);
    let say = table.get(&name("say")).expect("say present");
    assert_eq!(
        table.parse("say Hello, World!"),
        ParseOutcome::Matched { command: say, switches: vec![], args: "Hello, World!".to_string() }
    );
}

#[test]
fn switches_are_lowercased_and_a_bad_one_is_reported() {
    let table = table(vec![Command::new(name("look"))]);
    let look = table.get(&name("look")).expect("look present");
    assert_eq!(
        table.parse("LOOK/QUIET  far  away "),
        ParseOutcome::Matched { command: look, switches: vec![switch("quiet")], args: "far  away".to_string() }
    );
    assert_eq!(table.parse("look/a!"), ParseOutcome::BadSwitch(SwitchError::InvalidCharacter('!')));
}

#[test]
fn table_accessors_report_the_merged_commands() {
    let table = table(vec![Command::new(name("look")), Command::new(name("say"))]);
    assert_eq!(table.len(), 2);
    assert!(!table.is_empty());
    assert_eq!(table.commands().len(), 2);
    assert!(CmdSet::merge(&[]).is_empty());
}

// cmdset

#[test]
fn union_of_disjoint_sets_keeps_every_command() {
    let table = CmdSet::merge(&[
        set("a", 0, MergeType::Union, vec![command("look")]),
        set("b", 0, MergeType::Union, vec![command("say")]),
    ]);

    assert_eq!(names(&table), vec!["look", "say"]);
}

#[test]
fn union_collision_resolves_to_the_higher_priority() {
    let winner = Command::new(name("look")).with_alias(name("l"));
    let table = CmdSet::merge(&[
        set("low", 1, MergeType::Union, vec![command("look")]),
        set("high", 9, MergeType::Union, vec![winner]),
    ]);

    let look = table.get(&name("look")).expect("look survives");
    assert_eq!(look.aliases(), &[name("l")]);
}

#[test]
fn equal_priority_union_keeps_the_earlier_set() {
    let first = Command::new(name("look")).with_alias(name("first"));
    let second = Command::new(name("look")).with_alias(name("second"));
    let table = CmdSet::merge(&[
        set("a", 5, MergeType::Union, vec![first]),
        set("b", 5, MergeType::Union, vec![second]),
    ]);

    let look = table.get(&name("look")).expect("look survives");
    assert_eq!(look.aliases(), &[name("first")]);
}

#[test]
fn replace_overrides_a_higher_priority_union() {
    let replacement = Command::new(name("look")).with_alias(name("replaced"));
    let table = CmdSet::merge(&[
        set("union", 100, MergeType::Union, vec![command("look")]),
        set("replace", 1, MergeType::Replace, vec![replacement]),
    ]);

    let look = table.get(&name("look")).expect("look survives");
    assert_eq!(look.aliases(), &[name("replaced")]);
}

#[test]
fn remove_deletes_the_command_regardless_of_priority() {
    let table = CmdSet::merge(&[
        set("union", 100, MergeType::Union, vec![command("look"), command("say")]),
        set("remove", 1, MergeType::Remove, vec![command("look")]),
    ]);

    assert_eq!(names(&table), vec!["say"]);
    assert!(table.get(&name("look")).is_none());
}

#[test]
fn alias_collision_resolves_to_the_higher_priority_command() {
    let winner = Command::new(name("examine")).with_alias(name("x"));
    let loser = Command::new(name("exits")).with_alias(name("x"));
    let table = CmdSet::merge(&[
        set("low", 1, MergeType::Union, vec![loser]),
        set("high", 9, MergeType::Union, vec![winner]),
    ]);

    assert_eq!(table.get(&name("x")).map(|c| c.name().as_str()), Some("examine"));
    assert!(table.get(&name("exits")).is_some());
}

#[test]
fn a_canonical_name_beats_another_commands_alias_at_equal_priority() {
    let canonical = Command::new(name("go"));
    let aliaser = Command::new(name("goto")).with_alias(name("go"));
    let table = CmdSet::merge(&[set("s", 0, MergeType::Union, vec![canonical, aliaser])]);

    assert_eq!(table.get(&name("go")).map(|c| c.name().as_str()), Some("go"));
    assert!(table.get(&name("goto")).is_some());
}

#[test]
fn merge_precedence_account_beats_location() {
    let account_look = Command::new(name("look")).with_alias(name("account"));
    let location_look = Command::new(name("look")).with_alias(name("location"));
    let table = CmdSet::merge(&[
        set("location", 10, MergeType::Union, vec![location_look]),
        set("account", 40, MergeType::Union, vec![account_look]),
    ]);

    let look = table.get(&name("look")).expect("look survives");
    assert_eq!(look.aliases(), &[name("account")]);
}

#[test]
fn cmdset_accessors_and_key_validation() {
    let s = set("puppet", 30, MergeType::Replace, vec![command("say")]);
    assert_eq!(s.key().as_str(), "puppet");
    assert_eq!(s.priority(), Priority::new(30));
    assert_eq!(s.priority().level(), 30);
    assert_eq!(s.mergetype(), MergeType::Replace);
    assert_eq!(s.commands().len(), 1);
    assert_eq!(Priority::default().level(), 0);
    assert_eq!(CmdSetKey::parse(""), Err(CmdSetKeyError::Empty));
    assert_eq!(CmdSetKey::parse("Bad"), Err(CmdSetKeyError::InvalidCharacter('B')));
}

// pipeline

fn command_with(canonical: &str, aliases: &[&str]) -> Command {
    aliases.iter().fold(Command::new(name(canonical)), |command, alias| command.with_alias(name(alias)))
}

fn standard_stack() -> Vec<CmdSet> {
    vec![
        set("channels", 10, MergeType::Union, vec![command_with("say", &["from-channel"])]),
        set(
            "location",
            20,
            MergeType::Union,
            vec![command_with("look", &["from-location"]), command_with("exits", &[])],
        ),
        set("puppet", 30, MergeType::Union, vec![command_with("say", &["from-puppet"])]),
        set(
            "account",
            40,
            MergeType::Union,
            vec![command_with("look", &["l", "from-account"]), command_with("quit", &["q"])],
        ),
    ]
}

#[test]
fn the_account_binding_wins_a_collision_and_parses_to_that_command() {
    let table = CmdSet::merge(&standard_stack());

    let look = table.get(&name("look")).expect("look survives the merge");
    assert!(look.aliases().contains(&name("from-account")));
    assert!(!look.aliases().contains(&name("from-location")));

    assert_eq!(
        table.parse("look"),
        ParseOutcome::Matched { command: look, switches: vec![], args: String::new() }
    );
}

#[test]
fn the_puppet_binding_beats_the_lower_channel_binding() {
    let table = CmdSet::merge(&standard_stack());

    let say = table.get(&name("say")).expect("say survives the merge");
    assert!(say.aliases().contains(&name("from-puppet")));
    assert!(!say.aliases().contains(&name("from-channel")));
}

#[test]
fn a_unique_prefix_and_an_exact_alias_both_resolve() {
    let table = CmdSet::merge(&standard_stack());

    let quit = table.get(&name("quit")).expect("quit survives the merge");
    assert_eq!(
        table.parse("qu"),
        ParseOutcome::Matched { command: quit, switches: vec![], args: String::new() }
    );

    let look = table.get(&name("look")).expect("look survives the merge");
    assert_eq!(
        table.parse("l"),
        ParseOutcome::Matched { command: look, switches: vec![], args: String::new() }
    );
}

#[test]
fn switches_and_arguments_survive_to_the_winning_command() {
    let table = CmdSet::merge(&standard_stack());
    let look = table.get(&name("look")).expect("look survives the merge");

    assert_eq!(
        table.parse("look/quiet north"),
        ParseOutcome::Matched { command: look, switches: vec![switch("quiet")], args: "north".to_string() }
    );
}

#[test]
fn a_low_priority_replace_overrides_a_higher_union_end_to_end() {
    let table = CmdSet::merge(&[
        set("account", 100, MergeType::Union, vec![command_with("look", &["from-account"])]),
        set("location", 1, MergeType::Replace, vec![command_with("look", &["from-location"])]),
    ]);

    let look = table.get(&name("look")).expect("look survives the merge");
    assert!(look.aliases().contains(&name("from-location")));
    assert_eq!(
        table.parse("look"),
        ParseOutcome::Matched { command: look, switches: vec![], args: String::new() }
    );
}

#[test]
fn a_remove_layer_deletes_the_command_and_parsing_reports_not_found() {
    let table = CmdSet::merge(&[
        set("account", 100, MergeType::Union, vec![command_with("look", &[]), command_with("quit", &[])]),
        set("location", 1, MergeType::Remove, vec![command_with("quit", &[])]),
    ]);

    assert!(table.get(&name("quit")).is_none());
    assert_eq!(table.parse("quit"), ParseOutcome::NotFound);
    assert!(table.get(&name("look")).is_some());
}
