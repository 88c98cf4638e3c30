use kdf_init::cmdline::{parse_cmdline, parse_cmdline_params, parse_backtick_command,
    parse_shell_command, parse_virtiofs_mounts, parse_symlinks};
use kdf_init::strutil::trim_whitespace;

#[test]
fn test_missing_console_is_an_error() {
    let result = parse_cmdline("init.shell=`sh`");
    assert!(result.is_err());
    assert!(result.unwrap_err().message().contains("init.console is required"));
}

#[test]
fn test_last_shell_and_console_win() {
    let config = parse_cmdline(
        "init.console=ttyS0 init.shell=`/bin/bash` init.console=hvc0 init.shell=`sh -i`",
    )
    .unwrap();
    assert_eq!(config.console, "hvc0");
    assert_eq!(config.shell, ("sh".to_string(), vec!["-i".to_string()]));
}

#[test]
fn test_last_virtiofs_replaces_earlier() {
    let config = parse_cmdline(
        "init.console=console init.shell=`sh` init.virtiofs=a:/a,b:/b init.virtiofs=c:/c",
    )
    .unwrap();
    assert_eq!(config.virtiofs_mounts.len(), 1);
    assert_eq!(config.virtiofs_mounts[0].tag, "c");
    assert_eq!(config.virtiofs_mounts[0].path, "/c");
}

#[test]
fn test_empty_backticked_shell_is_an_error() {
    let result = parse_cmdline("init.console=console init.shell=``");
    assert!(result.is_err());
    assert!(result.unwrap_err().message().contains("Shell command is empty"));
}

#[test]
fn test_shell_without_backticks_is_an_error() {
    let result = parse_cmdline("init.console=console init.shell=sh");
    assert!(result.is_err());
    assert!(result.unwrap_err().message().contains("must be wrapped in backticks"));
}

#[test]
fn test_shell_with_extra_spaces_splits_the_same() {
    let config = parse_cmdline("init.console=console init.shell=`sh   -i`").unwrap();
    assert_eq!(config.shell, ("sh".to_string(), vec!["-i".to_string()]));
}

#[test]
fn test_virtiofs_non_y_third_field_disables_overlay() {
    let config =
        parse_cmdline("init.console=console init.shell=`sh` init.virtiofs=share:/mnt:N").unwrap();
    assert_eq!(config.virtiofs_mounts.len(), 1);
    assert!(!config.virtiofs_mounts[0].with_overlay);
}

#[test]
fn test_virtiofs_four_fields_is_an_error() {
    let result = parse_cmdline("init.console=console init.shell=`sh` init.virtiofs=a:b:Y:extra");
    assert!(result.is_err());
    assert!(result.unwrap_err().message().contains("Invalid virtiofs mount spec: a:b:Y:extra"));
}

#[test]
fn test_virtiofs_trailing_comma_is_skipped() {
    let config =
        parse_cmdline("init.console=console init.shell=`sh` init.virtiofs=share:/mnt,").unwrap();
    assert_eq!(config.virtiofs_mounts.len(), 1);
}

#[test]
fn test_symlink_error_names_offending_spec() {
    let result = parse_cmdline("init.console=console init.shell=`sh` init.symlinks=nocolon");
    assert!(result.is_err());
    assert!(result.unwrap_err().message().contains("Invalid symlink spec: nocolon"));
}

#[test]
fn test_symlink_target_may_contain_colons() {
    let config =
        parse_cmdline("init.console=console init.shell=`sh` init.symlinks=/a:/b:c").unwrap();
    assert_eq!(config.symlinks.len(), 1);
    assert_eq!(config.symlinks[0].source, "/a");
    assert_eq!(config.symlinks[0].target, "/b:c");
}

#[test]
fn test_env_token_without_equals_is_ignored() {
    let config = parse_cmdline("init.console=console init.shell=`sh` init.env.NOVALUE").unwrap();
    assert_eq!(config.env_vars.len(), 0);
    assert_eq!(config.env_vars.get("NOVALUE"), None);
}

#[test]
fn test_env_later_value_overwrites_earlier() {
    let config = parse_cmdline(
        "init.console=console init.shell=`sh` init.env.PATH=/bin init.env.PATH=/usr/bin",
    )
    .unwrap();
    assert_eq!(config.env_vars.len(), 1);
    assert_eq!(config.env_vars.get("PATH"), Some(&"/usr/bin".to_string()));
}

#[test]
fn test_unrecognized_tokens_pass_through() {
    let config = parse_cmdline("quiet console=ttyS0 init.console=c init.shell=`sh` ro").unwrap();
    assert_eq!(config.console, "c");
    assert_eq!(config.virtiofs_mounts.len(), 0);
    assert_eq!(config.symlinks.len(), 0);
}

#[test]
fn test_unterminated_backtick_token_kept_as_is() {
    let params = parse_cmdline_params("init.script=`no closing tick");
    assert_eq!(params, vec!["init.script=`no closing tick"]);
}

#[test]
fn test_parse_backtick_command_unwraps() {
    assert_eq!(parse_backtick_command("`echo hi`").unwrap(), "echo hi");
    assert_eq!(parse_backtick_command("``").unwrap(), "");
    assert!(parse_backtick_command("`").is_err());
    assert!(parse_backtick_command("plain").is_err());
}

#[test]
fn test_parse_shell_command_splits() {
    let (program, args) = parse_shell_command("sh -i -l").unwrap();
    assert_eq!(program, "sh");
    assert_eq!(args, vec!["-i".to_string(), "-l".to_string()]);
    assert!(parse_shell_command("").is_err());
    assert!(parse_shell_command("   ").is_err());
}

#[test]
fn test_parse_virtiofs_mounts_directly() {
    let mounts = parse_virtiofs_mounts("a:/x,b:/y:Y,,c:/z:N").unwrap();
    assert_eq!(mounts.len(), 3);
    assert_eq!(mounts[0].tag, "a");
    assert!(!mounts[0].with_overlay);
    assert!(mounts[1].with_overlay);
    assert!(!mounts[2].with_overlay);
    assert!(parse_virtiofs_mounts("justtag").is_err());
}

#[test]
fn test_parse_symlinks_directly() {
    let links = parse_symlinks("/a:/b,,/c:/d").unwrap();
    assert_eq!(links.len(), 2);
    assert_eq!(links[1].source, "/c");
    assert_eq!(links[1].target, "/d");
    assert!(parse_symlinks("bad").is_err());
}

#[test]
fn test_trim_whitespace_strips_both_ends() {
    assert_eq!(trim_whitespace("  a b \t\n"), "a b");
    assert_eq!(trim_whitespace(""), "");
    assert_eq!(trim_whitespace(" \t\n "), "");
    assert_eq!(trim_whitespace("bare"), "bare");
}

#[test]
fn test_virtiofs_empty_tag_is_an_error() {
    let result = parse_cmdline("init.console=console init.shell=`sh` init.virtiofs=:/mnt/share");
    assert!(result.is_err());
    assert!(result.unwrap_err().message().contains("Invalid virtiofs mount spec: :/mnt/share"));
    assert!(parse_virtiofs_mounts(":p").is_err());
}

#[test]
fn test_virtiofs_empty_path_is_an_error() {
    let result = parse_cmdline("init.console=console init.shell=`sh` init.virtiofs=share:");
    assert!(result.is_err());
    assert!(result.unwrap_err().message().contains("Invalid virtiofs mount spec: share:"));
    assert!(parse_virtiofs_mounts("a:").is_err());
    assert!(parse_virtiofs_mounts("a::Y").is_err());
}

#[test]
fn test_virtiofs_empty_third_field_disables_overlay() {
    let mounts = parse_virtiofs_mounts("share:/mnt:").unwrap();
    assert_eq!(mounts.len(), 1);
    assert!(!mounts[0].with_overlay);
}
