use std::path::{Path, PathBuf};

use nomadterm::paths::{
    config_toml_path, db_path, flag_file_path, get_project_root, log_path, next_flag_count,
    nomadterm_dir, nomadterm_directories, nomadterm_path, path_join, pidtrack_path,
    read_flag_count, resolve_nomadterm_dir_from_env, scripts_dir, EnvVars, ARCHIVE_DIR,
    FLAGS_DIR, LAUNCHES_DIR, LAUNCH_DIR, LOGS_DIR,
};
use nomadterm::runtime_env::tool_config_root;

fn env(pairs: &[(&str, &str)]) -> EnvVars {
    EnvVars::from_pairs(pairs.iter().map(|(k, v)| (k.to_string(), v.to_string())).collect())
}

#[test]
fn test_get_project_root_logic() {
    // get_project_root returns parent of nomadterm_dir
    let base = "/home/test/.nomadterm";
    assert_eq!(PathBuf::from(get_project_root(base)), PathBuf::from("/home/test"));
}

#[test]
fn test_resolve_nomadterm_dir_default() {
    let env = env(&[("HOME", "/home/test")]);
    let (path, overridden) = resolve_nomadterm_dir_from_env(&env, "/worktree");
    assert_eq!(PathBuf::from(path), PathBuf::from("/home/test/.nomadterm"));
    assert!(!overridden);
}

#[test]
fn test_resolve_nomadterm_dir_expands_tilde() {
    let env = env(&[("HOME", "/home/test"), ("NOMADTERM_DIR", "~/custom/.nomadterm")]);
    let (path, overridden) = resolve_nomadterm_dir_from_env(&env, "/worktree");
    assert_eq!(PathBuf::from(path), PathBuf::from("/home/test/custom/.nomadterm"));
    assert!(overridden);
}

#[test]
fn test_resolve_nomadterm_dir_makes_relative_absolute() {
    let env = env(&[("NOMADTERM_DIR", "relative/.nomadterm")]);
    let (path, overridden) = resolve_nomadterm_dir_from_env(&env, "/worktree");
    assert_eq!(PathBuf::from(path), PathBuf::from("/worktree").join("relative/.nomadterm"));
    assert!(overridden);
}

#[test]
fn resolve_without_home_falls_back_to_relative_default() {
    let (path, overridden) = resolve_nomadterm_dir_from_env(&EnvVars::new(), "/worktree");
    assert_eq!(path, ".nomadterm");
    assert!(!overridden);
}

#[test]
fn resolve_uses_userprofile_when_home_is_unset() {
    let env = env(&[("USERPROFILE", "/users/me"), ("NOMADTERM_DIR", "~/nt")]);
    let (path, overridden) = resolve_nomadterm_dir_from_env(&env, "/w");
    assert_eq!(path, "/users/me/nt");
    assert!(overridden);
}

#[test]
fn resolve_ignores_empty_override() {
    let env = env(&[("HOME", "/h"), ("NOMADTERM_DIR", "")]);
    let (path, overridden) = resolve_nomadterm_dir_from_env(&env, "/w");
    assert_eq!(path, "/h/.nomadterm");
    assert!(!overridden);
}

#[test]
fn resolve_keeps_tilde_without_home() {
    let env = env(&[("NOMADTERM_DIR", "~/x")]);
    let (path, overridden) = resolve_nomadterm_dir_from_env(&env, "/w");
    assert_eq!(path, "/w/~/x");
    assert!(overridden);
}

#[test]
fn resolve_keeps_absolute_override() {
    let env = env(&[("HOME", "/h"), ("NOMADTERM_DIR", "/opt/nt")]);
    assert_eq!(nomadterm_dir(&env, "/w"), "/opt/nt");
}

#[test]
fn env_snapshot_later_pair_wins() {
    let env = env(&[("HOME", "/first"), ("HOME", "/second")]);
    assert_eq!(env.get("HOME").as_deref(), Some("/second"));
    assert_eq!(env.get("PATH"), None);
    let mut e = EnvVars::new();
    e.set("A".to_string(), "1".to_string());
    e.set("A".to_string(), "2".to_string());
    assert_eq!(e.get("A").as_deref(), Some("2"));
}

#[test]
fn path_join_follows_pathbuf_join() {
    for (base, part) in [("/a", "b"), ("/a/", "b"), ("", "b"), ("/a", "/b"), ("a", "b/c"), ("a", "")] {
        let expected = Path::new(base).join(part);
        assert_eq!(path_join(base, part), expected.to_str().unwrap());
    }
}

#[test]
fn named_files_under_base() {
    let base = "/home/test/.nomadterm";
    assert_eq!(db_path(base), "/home/test/.nomadterm/nomadterm.db");
    assert_eq!(log_path(base), "/home/test/.nomadterm/.tmp/logs/nomadterm.log");
    assert_eq!(pidtrack_path(base), "/home/test/.nomadterm/.tmp/launched_pids.json");
    assert_eq!(config_toml_path(base), "/home/test/.nomadterm/config.toml");
    assert_eq!(scripts_dir(base), "/home/test/.nomadterm/scripts");
    assert_eq!(nomadterm_path(base, &["a", "b.txt"]), "/home/test/.nomadterm/a/b.txt");
    assert_eq!(nomadterm_path(base, &[]), base);
}

#[test]
fn project_root_edges() {
    assert_eq!(get_project_root("/"), "/");
    assert_eq!(get_project_root(""), "/");
    assert_eq!(get_project_root("/x"), "/");
    assert_eq!(get_project_root("rel"), "");
}

#[test]
fn required_directories_in_order() {
    let base = "/b";
    let dirs = nomadterm_directories(base);
    let want: Vec<String> = [LOGS_DIR, LAUNCH_DIR, FLAGS_DIR, LAUNCHES_DIR, ARCHIVE_DIR]
        .iter()
        .map(|d| format!("/b/{d}"))
        .collect();
    assert_eq!(dirs, want);
}

#[test]
fn flag_counter_steps() {
    assert_eq!(flag_file_path("/b", "test_flag"), "/b/.tmp/flags/test_flag");
    // A missing flag file counts as 0.
    assert_eq!(read_flag_count(None), 0);
    let (one, text) = next_flag_count(None);
    assert_eq!((one, text.as_str()), (1, "1"));
    let (two, text) = next_flag_count(Some(text.as_str()));
    assert_eq!((two, text.as_str()), (2, "2"));
    assert_eq!(read_flag_count(Some(" 41 \n")), 41);
    assert_eq!(read_flag_count(Some("-7")), -7);
    assert_eq!(read_flag_count(Some("+7")), 7);
    assert_eq!(read_flag_count(Some("garbage")), 0);
    assert_eq!(read_flag_count(Some("2147483648")), 0);
    assert_eq!(read_flag_count(Some("-2147483648")), i32::MIN);
    assert_eq!(next_flag_count(Some("-1")).0, 0);
}

#[test]
fn tool_config_root_uses_home_when_nomadterm_dir_has_no_parent() {
    let home = "/tmp/t/home".to_string();
    let env = env(&[("HOME", home.as_str()), ("NOMADTERM_DIR", "/")]);
    assert_eq!(tool_config_root(&env, "/tmp/t", Some(home.clone())), home);
}

#[test]
fn tool_config_root_uses_parent_of_resolved_nomadterm_dir() {
    let workspace = "/tmp/t/workspace";
    let env = env(&[("HOME", "/tmp/t/home"), ("NOMADTERM_DIR", ".sandbox/.nomadterm")]);
    let root = tool_config_root(&env, workspace, Some("/tmp/t/home".to_string()));
    assert_eq!(PathBuf::from(root), Path::new(workspace).join(".sandbox"));
}

#[test]
fn flag_files_are_per_name() {
    assert_ne!(flag_file_path("/b", "test_flag"), flag_file_path("/b", "other_flag"));
    // An absolute name escapes the flags directory, as `Path::join` does.
    assert_eq!(flag_file_path("/b", "/abs"), "/abs");
}

/// The flag files of a base directory kept in memory: path to contents.
struct FlagStore {
    files: std::collections::HashMap<String, String>,
}

impl FlagStore {
    fn read_flag_file(&self, path: &str) -> i32 {
        read_flag_count(self.files.get(path).map(String::as_str))
    }

    fn increment_flag_counter_at(&mut self, base: &str, name: &str) -> i32 {
        let path = flag_file_path(base, name);
        let (count, text) = next_flag_count(self.files.get(&path).map(String::as_str));
        self.files.insert(path, text);
        count
    }
}

#[test]
fn test_flag_counters() {
    let base = "/tmp/flags-test";
    let mut store = FlagStore { files: Default::default() };
    let flag = |name: &str| path_join(&path_join(base, FLAGS_DIR), name);

    // Counter starts at 0.
    assert_eq!(store.read_flag_file(&flag("test_flag")), 0);

    assert_eq!(store.increment_flag_counter_at(base, "test_flag"), 1);
    assert_eq!(store.read_flag_file(&flag("test_flag")), 1);

    assert_eq!(store.increment_flag_counter_at(base, "test_flag"), 2);
    assert_eq!(store.read_flag_file(&flag("test_flag")), 2);

    // Different flag is independent.
    assert_eq!(store.read_flag_file(&flag("other_flag")), 0);
}
