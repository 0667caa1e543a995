//! The rendered usage texts, compared line by line.

use centoria::display::{render_alias, render_function};
use centoria::errors::Error;
use centoria::executors::alias::Alias;
use centoria::executors::function::Function;
use centoria::executors::subcommand::SubCommand;

#[test]
fn alias_usage_text() {
    let a = Alias::new("ls -la", None, Some("list everything\n"), Some("zsh"));
    assert_eq!(
        render_alias(&a, "l"),
        "\
Usage (Cet)    : cet exec l -- <EXTRA ARGS>
Usage (Direct) : l <EXTRA ARGS>
Execute        : ls -la
Shell          : zsh

list everything"
    );
}

#[test]
fn function_usage_text_lists_parameters() {
    let mut f = Function::new("cp {0} {1?}", None, None, Some("copy"), None);
    f.descriptions = Some(vec!["the source".to_string()]);
    assert_eq!(
        render_function(&f, "c").unwrap(),
        "\
Usage (Cet)    : cet exec c -- <EXTRA ARGS>
Usage (Direct) : c <EXTRA ARGS>
Execute        : cp {0} {1?}
Shell          : sh
Parameters     :
    0 (required): the source
    1 (optional): No description provided

copy"
    );
}

#[test]
fn subcommand_usage_text_lists_sub_templates() {
    let mut sc = SubCommand::new("git", "s", "status {0..?}", None, Some("short status"), None);
    let other = SubCommand::new("git", "pull", "pull {0..?}", None, None, None);
    sc.add(other).unwrap();
    assert_eq!(
        sc.render("g", None).unwrap(),
        "\
Usage (Cet)    : cet exec g -- <EXTRA ARGS>
Usage (Direct) : g <EXTRA ARGS>
Wrapped        : git
Shell          : sh

No description provided

SubCommands (show details of subcommand, pass `-s <name>`):
    s    : short status
    pull : No description provided"
    );
}

#[test]
fn sub_template_usage_text() {
    let sc = SubCommand::new("git", "s", "status {0..?}", None, Some("short status"), None);
    assert_eq!(
        sc.render("g", Some("s")).unwrap(),
        "\
Usage (Cet)    : cet exec g -- s <EXTRA ARGS>
Usage (Direct) : g s <EXTRA ARGS>
Wrapped        : g status {0..?}
Parameters     :
    0 (optional): Extra arguments that passing to original command

short status"
    );
    let err = sc.render("g", Some("missing")).unwrap_err();
    assert!(matches!(err, Error::UnknownSubName(_)));
}

#[test]
fn spawn_failure_message() {
    let err = Error::SpawnFailed("boom".to_string());
    assert_eq!(err.message(), "function failed: boom");
}
