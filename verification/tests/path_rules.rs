use fledge_standup::paths::{
    basename_from, expand_tilde, file_name, git_dir_path, is_git_repo, join_path, repo_basename,
    split_repo_list,
};

#[test]
fn joins_like_path_join() {
    assert_eq!(join_path("/home/u", "src"), "/home/u/src");
    assert_eq!(join_path("/home/u/", "src"), "/home/u/src");
    assert_eq!(join_path("", "src"), "src");
    assert_eq!(join_path("/home/u", "/etc"), "/etc");
}

#[test]
fn last_component_like_file_name() {
    assert_eq!(file_name("/a/b/repo"), Some("repo".to_string()));
    assert_eq!(file_name("/a/b/repo/"), Some("repo".to_string()));
    assert_eq!(file_name("a/./"), Some("a".to_string()));
    assert_eq!(file_name("a/.."), None);
    assert_eq!(file_name("/"), None);
    assert_eq!(file_name("."), None);
    assert_eq!(file_name(""), None);
}

#[test]
fn expands_home() {
    assert_eq!(expand_tilde("~/code/x", Some("/home/u")), "/home/u/code/x");
    assert_eq!(expand_tilde("~/code/x", None), "~/code/x");
    assert_eq!(expand_tilde("~code", Some("/home/u")), "~code");
    assert_eq!(expand_tilde("/abs", Some("/home/u")), "/abs");
}

#[test]
fn repo_list_is_trimmed_and_skips_empties() {
    assert_eq!(split_repo_list(" a , ,b,, ~/c "), vec!["a", "b", "~/c"]);
    assert!(split_repo_list(" , ").is_empty());
}

#[test]
fn repo_labels() {
    assert_eq!(basename_from("x", Some("/work/fledge")), "fledge");
    assert_eq!(basename_from("../proj", None), "proj");
    assert_eq!(basename_from("..", None), "..");
    assert_eq!(basename_from("/", Some("/")), "/");
}

#[test]
fn file_system_queries() {
    assert!(!is_git_repo("/nonexistent-standup-dir/proj"));
    assert_eq!(git_dir_path("/r/proj"), "/r/proj/.git");
    assert_eq!(git_dir_path("."), "./.git");
    assert_eq!(repo_basename("/nonexistent-standup-dir/proj"), "proj");
    assert_eq!(repo_basename("/"), "/");
}
