use cheetsheet::sheet::{find_sheet, resolve_config_dir, sheet_path, SheetError};
use std::path::{Path, PathBuf};
use tempfile::TempDir;

fn lookup(dir: &Path, command: &str) -> Result<String, SheetError> {
    let dir = dir.to_str().unwrap();
    let exists = Path::new(&sheet_path(dir, command)).exists();
    find_sheet(dir, command, exists)
}

#[test]
fn test_resolve_config_dir_custom() {
    let dir = resolve_config_dir(Some("/tmp/custom"), None, None);
    assert_eq!(PathBuf::from(dir), PathBuf::from("/tmp/custom"));
}

#[test]
fn resolve_config_dir_prefers_xdg() {
    let dir = resolve_config_dir(None, Some("/x/cfg"), Some("/home/u"));
    assert_eq!(PathBuf::from(dir), PathBuf::from("/x/cfg/cheetsheet"));
}

#[test]
fn resolve_config_dir_falls_back_to_home() {
    let dir = resolve_config_dir(None, None, Some("/home/u"));
    assert_eq!(PathBuf::from(dir), PathBuf::from("/home/u/.config/cheetsheet"));
    let dir = resolve_config_dir(None, None, None);
    assert_eq!(PathBuf::from(dir), PathBuf::from("./.config/cheetsheet"));
}

#[test]
fn sheet_path_appends_md() {
    assert_eq!(sheet_path("/tmp/x", "tmux"), "/tmp/x/tmux.md");
}

#[test]
fn test_find_sheet_missing() {
    let tmp = TempDir::new().unwrap();
    let result = lookup(tmp.path(), "nonexistent");
    assert!(result.is_err());
    let msg = result.err().unwrap().message();
    assert!(msg.contains("No cheatsheet found for 'nonexistent'"));
}

#[test]
fn find_sheet_message_exact() {
    let err = find_sheet("/d", "git", false).err().unwrap();
    assert_eq!(
        err.message(),
        "No cheatsheet found for 'git'.\nExpected: /d/git.md\nTip: create a markdown file at that path to get started."
    );
}

#[test]
fn find_sheet_present_gives_path() {
    assert_eq!(find_sheet("/d", "git", true).ok(), Some("/d/git.md".to_string()));
}

#[test]
fn test_find_sheet_found() {
    let tmp = TempDir::new().unwrap();
    let sheet = tmp.path().join("tmux.md");
    let mut file = tempfile::Builder::new()
        .prefix("tmux")
        .suffix(".md")
        .rand_bytes(0)
        .tempfile_in(tmp.path())
        .unwrap();
    std::io::Write::write_all(&mut file, b"# tmux\n").unwrap();
    assert_eq!(file.path(), sheet.as_path());
    let result = lookup(tmp.path(), "tmux");
    assert!(result.is_ok());
    assert_eq!(PathBuf::from(result.ok().unwrap()), sheet);
}
