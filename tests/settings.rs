use switchbot::{AliasTable, Args};

fn args() -> Args {
    Args { aliases: AliasTable::new(), ..Default::default() }
}

#[test]
fn ensure_default() {
    let mut args = args();
    assert_eq!(args.config_version, 0);
    assert_eq!(args.aliases.len(), 0);
    args.ensure_default();
    assert_eq!(args.config_version, 3);
    assert_eq!(args.aliases.len(), 4);
}

#[test]
fn ensure_default_keeps_user_aliases() {
    let mut args = args();
    args.config_version = 1;
    args.aliases.insert("d".into(), "2".into());
    args.ensure_default();
    assert_eq!(args.aliases.get("d").unwrap(), "2");
    assert_eq!(args.aliases.get("h").unwrap(), "help");
    assert!(args.aliases.get("on").is_none());
    assert_eq!(args.aliases.len(), 2);
}

#[test]
fn update_aliases() {
    let mut args = args();
    assert_eq!(args.aliases.len(), 0);

    // Empty string is allowed as a no-op.
    args.alias_updates = vec!["".into()];
    args.update_aliases();
    assert_eq!(args.aliases.len(), 0);

    // The alias can contains the `=` character.
    args.alias_updates = vec!["a=b=c".into()];
    args.update_aliases();
    assert_eq!(args.aliases.len(), 1);
    assert_eq!(args.aliases.get("a").unwrap(), "b=c");

    args.alias_updates = vec!["a=b".into(), "c=d".into()];
    args.update_aliases();
    assert_eq!(args.aliases.len(), 2);
    assert_eq!(args.aliases.get("a").unwrap(), "b");
    assert_eq!(args.aliases.get("c").unwrap(), "d");

    // No value removes the alias.
    args.alias_updates = vec!["c".into()];
    args.update_aliases();
    assert_eq!(args.aliases.len(), 1);
    assert_eq!(args.aliases.get("a").unwrap(), "b");

    // Removing non-existent alias is allowed.
    args.alias_updates = vec!["z".into()];
    args.update_aliases();
    assert_eq!(args.aliases.len(), 1);
    assert_eq!(args.aliases.get("a").unwrap(), "b");

    // Update existing alias.
    args.alias_updates = vec!["a=x".into()];
    args.update_aliases();
    assert_eq!(args.aliases.len(), 1);
    assert_eq!(args.aliases.get("a").unwrap(), "x");

    // Empty value also removes the alias.
    args.alias_updates = vec!["a=".into()];
    args.update_aliases();
    assert_eq!(args.aliases.len(), 0);
}

#[test]
fn merge_prefers_own_auth_and_other_aliases() {
    let mut mine = args();
    mine.token = "mine".into();
    mine.aliases.insert("a".into(), "1".into());
    let mut saved = args();
    saved.token = "saved".into();
    saved.secret = "s".into();
    saved.aliases.insert("a".into(), "2".into());
    saved.aliases.insert("b".into(), "3".into());
    mine.merge(&saved);
    assert_eq!(mine.token, "mine");
    assert_eq!(mine.secret, "s");
    assert_eq!(mine.aliases.get("a").unwrap(), "2");
    assert_eq!(mine.aliases.get("b").unwrap(), "3");
    mine.clear_auth();
    assert_eq!(mine.token, "");
    assert_eq!(mine.secret, "");
}
