use kdf_init::cmdline::{parse_cmdline, parse_cmdline_params};

#[test]
fn test_parse_empty_cmdline() {
    let result = parse_cmdline("");
    assert!(result.is_err());
    assert!(result.unwrap_err().message().contains("init.shell is required"));
}

#[test]
fn test_parse_virtiofs_basic() {
    let config =
        parse_cmdline("init.console=console init.shell=`sh` init.virtiofs=share:/mnt/share")
            .unwrap();
    assert_eq!(config.virtiofs_mounts.len(), 1);
    assert_eq!(config.virtiofs_mounts[0].tag, "share");
    assert_eq!(config.virtiofs_mounts[0].path, "/mnt/share");
    assert!(!config.virtiofs_mounts[0].with_overlay);
}

#[test]
fn test_parse_virtiofs_with_overlay() {
    let config =
        parse_cmdline("init.console=console init.shell=`sh` init.virtiofs=share:/mnt/share:Y")
            .unwrap();
    assert_eq!(config.virtiofs_mounts.len(), 1);
    assert!(config.virtiofs_mounts[0].with_overlay);
}

#[test]
fn test_parse_virtiofs_multiple() {
    let config = parse_cmdline(
        "init.console=console init.shell=`sh` init.virtiofs=share1:/mnt/a,share2:/mnt/b:Y",
    )
    .unwrap();
    assert_eq!(config.virtiofs_mounts.len(), 2);
    assert_eq!(config.virtiofs_mounts[0].tag, "share1");
    assert_eq!(config.virtiofs_mounts[0].path, "/mnt/a");
    assert!(!config.virtiofs_mounts[0].with_overlay);
    assert_eq!(config.virtiofs_mounts[1].tag, "share2");
    assert_eq!(config.virtiofs_mounts[1].path, "/mnt/b");
    assert!(config.virtiofs_mounts[1].with_overlay);
}

#[test]
fn test_parse_symlinks() {
    let config =
        parse_cmdline("init.console=console init.shell=`sh` init.symlinks=/bin/sh:/bin/bash,/usr/bin/vi:/usr/bin/vim").unwrap();
    assert_eq!(config.symlinks.len(), 2);
    assert_eq!(config.symlinks[0].source, "/bin/sh");
    assert_eq!(config.symlinks[0].target, "/bin/bash");
    assert_eq!(config.symlinks[1].source, "/usr/bin/vi");
    assert_eq!(config.symlinks[1].target, "/usr/bin/vim");
}

#[test]
fn test_parse_env_vars() {
    let config = parse_cmdline(
        "init.console=console init.shell=`sh` init.env.PATH=/usr/bin init.env.HOME=/root",
    )
    .unwrap();
    assert_eq!(config.env_vars.len(), 2);
    assert_eq!(config.env_vars.get("PATH"), Some(&"/usr/bin".to_string()));
    assert_eq!(config.env_vars.get("HOME"), Some(&"/root".to_string()));
}

#[test]
fn test_parse_shell() {
    let config = parse_cmdline("init.console=console init.shell=`/bin/sh`").unwrap();
    assert_eq!(config.shell, ("/bin/sh".to_string(), vec![]));
    assert_eq!(config.console, "console");
    assert_eq!(config.chdir, None);
}

#[test]
fn test_parse_chdir() {
    let config =
        parse_cmdline("init.console=console init.shell=`sh` init.chdir=/mnt/workdir").unwrap();
    assert_eq!(config.chdir, Some("/mnt/workdir".to_string()));
}

#[test]
fn test_parse_shell_with_args() {
    let config = parse_cmdline("init.console=console init.shell=`sh -i`").unwrap();
    assert_eq!(config.shell, ("sh".to_string(), vec!["-i".to_string()]));
    assert_eq!(config.console, "console");
}

#[test]
fn test_parse_script() {
    let config =
        parse_cmdline("init.console=console init.shell=`sh` init.script=`/bin/echo hello`")
            .unwrap();
    assert_eq!(config.script, Some("/bin/echo hello".to_string()));
    assert_eq!(config.console, "console");
}

#[test]
fn test_parse_full_cmdline() {
    let cmdline = "console=ttyS0 init.console=ttyS0 init.virtiofs=share:/mnt:Y init.symlinks=/bin/sh:/bin/bash init.env.PATH=/usr/bin init.shell=`/bin/sh` quiet";
    let config = parse_cmdline(cmdline).unwrap();

    assert_eq!(config.virtiofs_mounts.len(), 1);
    assert_eq!(config.virtiofs_mounts[0].tag, "share");
    assert_eq!(config.virtiofs_mounts[0].path, "/mnt");
    assert!(config.virtiofs_mounts[0].with_overlay);

    assert_eq!(config.symlinks.len(), 1);
    assert_eq!(config.symlinks[0].source, "/bin/sh");
    assert_eq!(config.symlinks[0].target, "/bin/bash");

    assert_eq!(config.env_vars.get("PATH"), Some(&"/usr/bin".to_string()));
    assert_eq!(config.shell, ("/bin/sh".to_string(), vec![]));
    assert_eq!(config.console, "ttyS0");
}

#[test]
fn test_parse_invalid_virtiofs() {
    let result = parse_cmdline("init.virtiofs=invalid");
    assert!(result.is_err());
}

#[test]
fn test_parse_invalid_symlink() {
    let result = parse_cmdline("init.symlinks=invalid");
    assert!(result.is_err());
}

#[test]
fn test_parse_command_with_backticks() {
    let config = parse_cmdline(
        "init.console=console init.shell=`sh` init.script=`/bin/echo hello world`",
    )
    .unwrap();
    assert_eq!(config.script, Some("/bin/echo hello world".to_string()));
}

#[test]
fn test_parse_command_with_backticks_and_args() {
    let config = parse_cmdline(
        "init.console=console init.shell=`sh` init.script=`/usr/bin/ls -la /tmp`",
    )
    .unwrap();
    assert_eq!(config.script, Some("/usr/bin/ls -la /tmp".to_string()));
}

#[test]
fn test_parse_command_without_backticks() {
    let result = parse_cmdline("init.console=console init.shell=`sh` init.script=/bin/sh");
    assert!(result.is_err());
    assert!(result.unwrap_err().message().contains("must be wrapped in backticks"));
}

#[test]
fn test_parse_command_with_backticks_in_full_cmdline() {
    let cmdline =
        "console=ttyS0 init.console=ttyS0 init.shell=`sh` init.env.PATH=/usr/bin init.script=`/bin/echo hello world` quiet";
    let config = parse_cmdline(cmdline).unwrap();
    assert_eq!(config.script, Some("/bin/echo hello world".to_string()));
    assert_eq!(config.env_vars.get("PATH"), Some(&"/usr/bin".to_string()));
}

#[test]
fn test_parse_command_with_multiple_spaces() {
    let config = parse_cmdline(
        "init.console=console init.shell=`sh` init.script=`/bin/echo   multiple   spaces`",
    )
    .unwrap();
    assert_eq!(config.script, Some("/bin/echo   multiple   spaces".to_string()));
}

#[test]
fn test_parse_backticked_command_with_special_chars() {
    let config = parse_cmdline(
        "init.console=console init.shell=`sh` init.script=`/bin/sh -c \"echo test\"`",
    )
    .unwrap();
    assert_eq!(config.script, Some("/bin/sh -c \"echo test\"".to_string()));
}

#[test]
fn test_parse_empty_backticked_command() {
    let config = parse_cmdline("init.console=console init.shell=`sh` init.script=``").unwrap();
    assert_eq!(config.script, Some("".to_string()));
}

#[test]
fn test_parse_cmdline_with_all_features_and_backticks() {
    let cmdline = "console=ttyS0 init.console=ttyS0 init.virtiofs=share:/mnt:Y init.symlinks=/bin/sh:/bin/bash init.env.PATH=/usr/bin init.env.HOME=/root init.shell=`sh` init.script=`/bin/echo test 1 2 3` init.moddir=/lib/modules quiet";
    let config = parse_cmdline(cmdline).unwrap();

    assert_eq!(config.virtiofs_mounts.len(), 1);
    assert_eq!(config.virtiofs_mounts[0].tag, "share");
    assert_eq!(config.virtiofs_mounts[0].path, "/mnt");
    assert!(config.virtiofs_mounts[0].with_overlay);

    assert_eq!(config.symlinks.len(), 1);
    assert_eq!(config.symlinks[0].source, "/bin/sh");
    assert_eq!(config.symlinks[0].target, "/bin/bash");

    assert_eq!(config.env_vars.len(), 2);
    assert_eq!(config.env_vars.get("PATH"), Some(&"/usr/bin".to_string()));
    assert_eq!(config.env_vars.get("HOME"), Some(&"/root".to_string()));

    assert_eq!(config.shell, ("sh".to_string(), vec![]));
    assert_eq!(config.script, Some("/bin/echo test 1 2 3".to_string()));

    assert_eq!(config.moddir, Some("/lib/modules".to_string()));
    assert_eq!(config.console, "ttyS0");
}

#[test]
fn test_parse_cmdline_params_basic() {
    let params = parse_cmdline_params("foo bar baz");
    assert_eq!(params, vec!["foo", "bar", "baz"]);
}

#[test]
fn test_parse_cmdline_params_with_backticks() {
    let params = parse_cmdline_params("foo init.script=`hello world` bar");
    assert_eq!(params, vec!["foo", "init.script=`hello world`", "bar"]);
}

#[test]
fn test_parse_cmdline_params_multiple_backticks() {
    let params = parse_cmdline_params("init.script=`echo test` init.env.X=`value with spaces`");
    assert_eq!(params, vec!["init.script=`echo test`", "init.env.X=`value with spaces`"]);
}

#[test]
fn test_parse_cmdline_params_tabs_and_newlines() {
    let params = parse_cmdline_params("foo\tbar\nbaz");
    assert_eq!(params, vec!["foo", "bar", "baz"]);
}

#[test]
fn test_parse_command_with_equals_in_backticks() {
    let config = parse_cmdline(
        "init.console=console init.shell=`sh` init.script=`/bin/env KEY=VALUE ls`",
    )
    .unwrap();
    assert_eq!(config.script, Some("/bin/env KEY=VALUE ls".to_string()));
}

#[test]
fn test_parse_command_with_multiple_equals_in_backticks() {
    let config = parse_cmdline(
        "init.console=console init.shell=`sh` init.script=`FOO=bar BAZ=qux /bin/test`",
    )
    .unwrap();
    assert_eq!(config.script, Some("FOO=bar BAZ=qux /bin/test".to_string()));
}

#[test]
fn test_parse_full_cmdline_with_equals_in_command() {
    let cmdline =
        "console=ttyS0 init.console=ttyS0 init.shell=`sh` init.env.PATH=/usr/bin init.shell=`sh` init.script=`/bin/env TEST=123 ls -la` quiet";
    let config = parse_cmdline(cmdline).unwrap();
    assert_eq!(config.script, Some("/bin/env TEST=123 ls -la".to_string()));
    assert_eq!(config.env_vars.get("PATH"), Some(&"/usr/bin".to_string()));
}

#[test]
fn test_parse_shell_and_script_together() {
    let config =
        parse_cmdline("init.console=console init.shell=`/bin/sh` init.script=`/bin/ls`").unwrap();
    assert_eq!(config.shell, ("/bin/sh".to_string(), vec![]));
    assert_eq!(config.script, Some("/bin/ls".to_string()));
}
