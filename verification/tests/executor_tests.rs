//! The three entry kinds and the registry, on concrete scenarios.

use centoria::config::Config;
use centoria::errors::Error;
use centoria::executors::alias::Alias;
use centoria::executors::function::Function;
use centoria::executors::subcommand::SubCommand;
use centoria::executors::{can_execute_from, construct, Executor};

fn strings(v: Vec<&str>) -> Vec<String> {
    v.iter().map(|s| s.to_string()).collect()
}

#[test]
fn alias_appends_extra_arguments() {
    let alias = Alias::new("ls -la", None, None, None);
    assert_eq!(alias.build_command_line(&strings(vec!["/tmp"])), "ls -la /tmp");
    assert_eq!(alias.build_command_line(&strings(vec![])), "ls -la");
}

#[test]
fn alias_quotes_arguments_with_spaces() {
    let alias = Alias::new("ls -la", None, None, None);
    assert_eq!(alias.build_command_line(&strings(vec!["a b"])), "ls -la \"a b\"");
    assert_eq!(alias.format_args("a b").unwrap(), "\"a b\"");
    assert_eq!(alias.format_args("ab").unwrap(), "ab");
}

#[test]
fn function_fills_its_template() {
    let f = Function::new("echo {0}", None, None, None, None);
    assert_eq!(
        f.build_command_line(&strings(vec!["hi"])).unwrap(),
        "command echo hi"
    );
    assert_eq!(
        f.build_command_line(&strings(vec!["a b"])).unwrap(),
        "command echo \"a b\""
    );
}

#[test]
fn function_reports_an_unsatisfied_template() {
    let f = Function::new("echo {0}", None, None, None, None);
    let err = f.build_command_line(&strings(vec![])).unwrap_err();
    assert!(matches!(err, Error::TemplateUnsatisfied(_)));
    assert_eq!(
        err.message(),
        "index out of bounds or invalid access, please use `show` subcommand for checking parameters"
    );
}

#[test]
fn function_changes_into_its_working_directory() {
    let f = Function::new("ls {0..?}", None, Some("/tmp"), None, Some("fish"));
    assert_eq!(
        f.build_command_line(&strings(vec![])).unwrap(),
        "cd /tmp ; and command ls"
    );
    let unknown = Function::new("ls", None, Some("/tmp"), None, Some("ash"));
    let err = unknown.build_command_line(&strings(vec![])).unwrap_err();
    assert_eq!(err.message(), "not supported shell: ash");
}

#[test]
fn subcommand_fills_the_matched_sub_template() {
    let sc = SubCommand::new("git", "s", "status {0..?}", None, None, None);
    assert_eq!(
        sc.build_command_line(&strings(vec!["s", "-sb"])).unwrap(),
        "git status -sb"
    );
    assert_eq!(sc.build_command_line(&strings(vec!["s"])).unwrap(), "git status ");
}

#[test]
fn subcommand_forwards_unknown_names() {
    let sc = SubCommand::new("git", "s", "status {0..?}", None, None, None);
    assert_eq!(
        sc.build_command_line(&strings(vec!["unknown", "x"])).unwrap(),
        "git unknown x"
    );
}

#[test]
fn subcommand_runs_the_parent_verbatim_without_arguments() {
    let sc = SubCommand::new("git", "s", "status {0..?}", None, None, None);
    assert_eq!(sc.build_command_line(&strings(vec![])).unwrap(), "git");
}

#[test]
fn subcommand_without_placeholders_takes_trailing_arguments() {
    let sc = SubCommand::new("git", "st", "status", None, None, None);
    assert_eq!(
        sc.build_command_line(&strings(vec!["st", "-sb"])).unwrap(),
        "git status -sb"
    );
    // with nothing left over, a separating space still trails
    assert_eq!(sc.build_command_line(&strings(vec!["st"])).unwrap(), "git status ");
}

#[test]
fn subcommand_add_and_remove() {
    let mut sc = SubCommand::new("git", "s", "status", None, None, None);
    let other = SubCommand::new("git", "p", "pull {0..?}", None, None, None);
    sc.add(other).unwrap();
    assert!(sc.contains("s"));
    assert!(sc.contains("p"));
    assert!(!sc.contains("x"));
    assert_eq!(sc.get("p").unwrap().command, "pull {0..?}");

    let dup = SubCommand::new("git", "p", "push", None, None, None);
    let err = sc.add(dup).unwrap_err();
    assert_eq!(
        err.message(),
        "sub-function `p` is already exists in this function"
    );

    sc.remove("p").unwrap();
    assert!(!sc.contains("p"));
    assert!(sc.has_subcommands());
    let err = sc.remove("p").unwrap_err();
    assert_eq!(err.message(), "sub-function `p` is not exists in this function");
    sc.remove("s").unwrap();
    assert!(!sc.has_subcommands());
}

#[test]
fn construct_picks_the_kind_by_the_template() {
    assert!(matches!(
        construct("ls -la", None, None, None, None),
        Executor::Alias(_)
    ));
    assert!(matches!(
        construct("echo {0}", None, None, None, None),
        Executor::Function(_)
    ));
    assert!(matches!(
        construct("echo {0..2}", None, None, None, None),
        Executor::Function(_)
    ));
    assert!(matches!(
        construct("echo {0..}", None, None, None, None),
        Executor::Function(_)
    ));
    // optional markers do not count at registration time
    assert!(matches!(
        construct("echo {0?}", None, None, None, None),
        Executor::Alias(_)
    ));
    assert!(matches!(
        construct("echo {0..?}", None, None, None, None),
        Executor::Alias(_)
    ));
}

#[test]
fn executor_shell_and_description_defaults() {
    let e = Executor::Alias(Alias::new("ls", None, None, None));
    assert_eq!(e.shell(), "sh");
    assert_eq!(e.description(), "No description provided");
    let e = Executor::Function(Function::new("x", None, None, Some("does x"), Some("zsh")));
    assert_eq!(e.shell(), "zsh");
    assert_eq!(e.description(), "does x");
}

#[test]
fn executor_exports_a_shell_alias() {
    let e = Executor::Alias(Alias::new("ls", None, None, None));
    assert_eq!(e.export_as("l").unwrap(), "alias l='cet exec l -- '");
}

#[test]
fn can_execute_collapses_failures() {
    assert_eq!(can_execute_from(true, None), true);
    assert_eq!(can_execute_from(true, Some(true)), true);
    assert_eq!(can_execute_from(true, Some(false)), false);
    assert_eq!(can_execute_from(false, None), false);
}

#[test]
fn registry_add_get_and_keys() {
    let mut cfg = Config::new();
    cfg.add("l", construct("ls -la", None, None, None, None)).unwrap();
    cfg.add("e", construct("echo {0}", None, None, None, None)).unwrap();
    assert!(cfg.contains("l"));
    assert!(!cfg.contains("x"));
    assert!(cfg.get("x").is_none());
    assert!(matches!(cfg.get("l").unwrap(), Executor::Alias(_)));
    assert_eq!(cfg.keys(), vec!["l".to_string(), "e".to_string()]);

    let err = cfg.add("l", construct("ls", None, None, None, None)).unwrap_err();
    assert_eq!(err.message(), "function `l` is already exists");
}

#[test]
fn registry_merges_subcommands() {
    let mut cfg = Config::new();
    let first = SubCommand::new("git", "s", "status {0..?}", None, None, None);
    cfg.add("git", Executor::SubCommand(first)).unwrap();
    let second = SubCommand::new("git", "p", "pull {0..?}", None, None, None);
    cfg.add("git", Executor::SubCommand(second)).unwrap();
    match cfg.get("git").unwrap() {
        Executor::SubCommand(sc) => {
            assert!(sc.contains("s"));
            assert!(sc.contains("p"));
        },
        _ => panic!("expected a subcommand entry"),
    }

    let dup = SubCommand::new("git", "s", "show", None, None, None);
    let err = cfg.add("git", Executor::SubCommand(dup)).unwrap_err();
    assert_eq!(
        err.message(),
        "sub-function `s` is already exists in this function"
    );

    // a subcommand cannot shadow an alias of the same name
    cfg.add("l", construct("ls -la", None, None, None, None)).unwrap();
    let shadow = SubCommand::new("l", "x", "y", None, None, None);
    let err = cfg.add("l", Executor::SubCommand(shadow)).unwrap_err();
    assert_eq!(err.message(), "function `l` is already exists");
}

#[test]
fn registry_remove_and_collapse() {
    let mut cfg = Config::new();
    cfg.add("l", construct("ls -la", None, None, None, None)).unwrap();
    let err = cfg.remove("missing", None).unwrap_err();
    assert_eq!(err.message(), "function `missing` is not exists");
    cfg.remove("l", None).unwrap();
    assert!(!cfg.contains("l"));

    let first = SubCommand::new("git", "s", "status", None, None, None);
    cfg.add("git", Executor::SubCommand(first)).unwrap();
    let second = SubCommand::new("git", "p", "pull", None, None, None);
    cfg.add("git", Executor::SubCommand(second)).unwrap();
    cfg.remove("s", Some("git")).unwrap();
    assert!(cfg.contains("git"));
    let err = cfg.remove("s", Some("git")).unwrap_err();
    assert_eq!(err.message(), "sub-function `s` is not exists in this function");
    cfg.remove("p", Some("git")).unwrap();
    // the emptied subcommand entry is dropped from the registry
    assert!(!cfg.contains("git"));

    let err = cfg.remove("s", Some("git")).unwrap_err();
    assert_eq!(err.message(), "function `git` is not exists");

    // removing a sub-entry under a plain alias names no sub-entry
    cfg.add("l", construct("ls -la", None, None, None, None)).unwrap();
    let err = cfg.remove("x", Some("l")).unwrap_err();
    assert_eq!(err.message(), "sub-function `x` is not exists in this function");
}

#[test]
fn plain_function_appends_extra_verbatim() {
    let f = centoria::function::Function::new("ls -la", None, None);
    assert_eq!(f.command_line(None), "ls -la");
    assert_eq!(f.command_line(Some(vec!["/tmp", "a b"])), "ls -la /tmp a b");
    assert_eq!(f.shell(), "sh");
    let f = centoria::function::Function::new("ls", None, Some("fish"));
    assert_eq!(f.shell(), "fish");
}
