use tuipo::init::{detect_shell, strip_old_hook, zsh_bash_hook};

fn fake_exe() -> &'static str {
    "/usr/local/bin/tuipo"
}

#[test]
fn detects_zsh_from_path() {
    let h = detect_shell("/bin/zsh", "/home/u", fake_exe(), false);
    assert!(h.is_some());
    let h = h.unwrap();
    assert!(h.rc_path.ends_with(".zshrc"));
    assert!(h.hook_line.contains("TUIPO_ACTIVE"));
    assert!(h.hook_line.contains("/usr/local/bin/tuipo"));
}

#[test]
fn detects_bash_from_path() {
    let h = detect_shell("/bin/bash", "/tmp/nonexistent-home", fake_exe(), false);
    assert!(h.is_some());
    let h = h.unwrap();
    // No .bash_profile in fake home → .bashrc
    assert!(h.rc_path.ends_with(".bashrc"));
}

#[test]
fn unknown_shell_is_rejected() {
    let h = detect_shell("/bin/fish", "/home/u", fake_exe(), false);
    assert!(h.is_none());
}

#[test]
fn empty_shell_env_is_rejected() {
    let h = detect_shell("", "/home/u", fake_exe(), false);
    assert!(h.is_none());
}

#[test]
fn hook_uses_quoted_shell_var() {
    let hook = zsh_bash_hook(fake_exe());
    assert!(hook.contains(r#""$SHELL""#));
}

#[test]
fn hook_is_idempotent_via_guard() {
    let hook = zsh_bash_hook(fake_exe());
    assert!(hook.contains(r#"-z "$TUIPO_ACTIVE""#));
}

#[test]
fn hook_embeds_absolute_path() {
    // Critical: the hook should NOT rely on `command -v tuipo`. It
    // must use the absolute path so it works regardless of $PATH.
    let exe = "/Users/me/Code/tuipo/target/release/tuipo";
    let hook = zsh_bash_hook(exe);
    assert!(
        hook.contains("/Users/me/Code/tuipo/target/release/tuipo"),
        "hook should embed the binary's absolute path, got: {hook}",
    );
    assert!(
        !hook.contains("command -v"),
        "hook shouldn't depend on PATH-based lookup; got: {hook}",
    );
}

#[test]
fn hook_includes_executable_check() {
    // If the binary is moved/deleted, the hook should silently skip
    // rather than try to exec a non-existent file.
    let hook = zsh_bash_hook(fake_exe());
    assert!(hook.contains("-x"));
}

#[test]
fn strip_removes_marker_and_hook_block() {
    let rc = "\
# my existing zshrc
alias ll='ls -l'

# tuipo — Grammarly-style spell-check for terminal TUIs
[[ -z \"$TUIPO_ACTIVE\" ]] && command -v tuipo >/dev/null && exec tuipo -- \"$SHELL\"

# more user config
export FOO=bar
";
    let cleaned = strip_old_hook(rc);
    assert!(!cleaned.contains("TUIPO_ACTIVE"));
    assert!(!cleaned.contains("spell-check for terminal"));
    assert!(cleaned.contains("alias ll"));
    assert!(cleaned.contains("export FOO=bar"));
}

#[test]
fn strip_handles_orphan_hook_without_marker() {
    let rc = "\
alias ll='ls -l'
[[ -z \"$TUIPO_ACTIVE\" ]] && exec /old/path/tuipo -- \"$SHELL\"
export FOO=bar
";
    let cleaned = strip_old_hook(rc);
    assert!(!cleaned.contains("TUIPO_ACTIVE"));
    assert!(cleaned.contains("alias ll"));
    assert!(cleaned.contains("export FOO=bar"));
}

#[test]
fn strip_leaves_unrelated_lines_alone() {
    let rc = "\
alias ll='ls -l'
export FOO=bar
";
    assert_eq!(strip_old_hook(rc), rc.trim_end());
}
