use aether_win32::terminal::prompt_boundary_chars;

#[test]
fn powershell_prompt() {
    assert_eq!(prompt_boundary_chars("PS C:\\work> dir"), Some(12));
    assert_eq!(prompt_boundary_chars("PS C:\\a> echo a > b"), Some(18));
}

#[test]
fn bash_and_zsh_prompts() {
    assert_eq!(prompt_boundary_chars("user@host:~$ ls"), Some(13));
    assert_eq!(prompt_boundary_chars("host% make"), Some(6));
}

#[test]
fn cmd_prompt_without_space() {
    assert_eq!(prompt_boundary_chars("C:\\Users\\me>"), Some(12));
}

#[test]
fn counts_chars_not_bytes() {
    assert_eq!(prompt_boundary_chars("用户$ 命令"), Some(4));
}

#[test]
fn no_prompt_marker() {
    assert_eq!(prompt_boundary_chars("plain output"), None);
    assert_eq!(prompt_boundary_chars(""), None);
}
