//! The shell line builder on concrete inputs.

use centoria::shell::{chain_operator, create_command};

#[test]
fn chain_operator_test() {
    assert_eq!(chain_operator("sh").unwrap(), "&&");
    assert_eq!(chain_operator("bash").unwrap(), "&&");
    assert_eq!(chain_operator("zsh").unwrap(), "&&");
    assert_eq!(chain_operator("fish").unwrap(), "; and");
    assert_eq!(
        chain_operator("ash").unwrap_or_else(|err| err.message()),
        "not supported shell: ash"
    );
}

#[test]
fn create_command_test_for_cwd_is_none() {
    assert_eq!(
        create_command("bash", "ls -al", None).unwrap(),
        "command ls -al"
    );
}

#[test]
fn create_command_test_for_cwd_is_not_none() {
    assert_eq!(
        create_command("sh", "ls -al", Some("/path/to/cwd".to_owned())).unwrap(),
        "cd /path/to/cwd && command ls -al"
    );
    assert_eq!(
        create_command("fish", "ls -al", Some("/path/to/cwd".to_owned())).unwrap(),
        "cd /path/to/cwd ; and command ls -al"
    );
}

#[test]
fn create_command_rejects_unknown_shell_with_cwd() {
    let err = create_command("ash", "ls", Some("/tmp".to_owned())).unwrap_err();
    assert_eq!(err.message(), "not supported shell: ash");
}
