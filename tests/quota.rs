use faasta::{contains_project, GitHubAuth, UserData, MAX_PROJECTS_PER_USER};

fn empty_store() -> GitHubAuth {
    GitHubAuth::new(Vec::new())
}

#[test]
fn quota_allows_up_to_the_limit() {
    let mut auth = empty_store();
    for n in 0..MAX_PROJECTS_PER_USER {
        assert!(auth.can_upload_project("u", "new_project"));
        auth.add_project("u", &format!("p{n}"));
    }
    assert!(!auth.can_upload_project("u", "new_project"));
    for n in 0..MAX_PROJECTS_PER_USER {
        assert!(auth.can_upload_project("u", &format!("p{n}")));
    }
    assert!(auth.can_upload_project("someone_else", "new_project"));
}

#[test]
fn adding_twice_lists_once() {
    let mut auth = empty_store();
    auth.add_project("u", "p");
    let record = auth.add_project("u", "p");
    assert_eq!(record.projects, vec!["p".to_string()]);
    assert_eq!(auth.get_user_projects("u"), Some(vec!["p".to_string()]));
}

#[test]
fn add_creates_record_in_order() {
    let mut auth = empty_store();
    assert_eq!(auth.get_user_projects("u"), None);
    auth.add_project("u", "b");
    let record = auth.add_project("u", "a");
    assert_eq!(record.github_username, "u");
    assert_eq!(record.projects, vec!["b".to_string(), "a".to_string()]);
}

#[test]
fn reload_gives_same_projects() {
    let mut auth = empty_store();
    auth.add_project("u", "x");
    let record = auth.add_project("u", "y");
    let reloaded = GitHubAuth::new(vec![("u".to_string(), record)]);
    assert_eq!(reloaded.get_user_projects("u"), auth.get_user_projects("u"));
    assert_eq!(reloaded.get_user_projects("u"), Some(vec!["x".to_string(), "y".to_string()]));
}

#[test]
fn later_entry_replaces_earlier() {
    let a = UserData { github_username: "u".to_string(), projects: vec!["a".to_string()] };
    let b = UserData { github_username: "u".to_string(), projects: vec!["b".to_string()] };
    let auth = GitHubAuth::new(vec![("u".to_string(), a), ("u".to_string(), b)]);
    assert_eq!(auth.get_user_projects("u"), Some(vec!["b".to_string()]));
}

#[test]
fn remove_without_record_is_noop() {
    let mut auth = empty_store();
    assert_eq!(auth.remove_project("nobody", "p"), None);
    assert_eq!(auth.get_user_projects("nobody"), None);
}

#[test]
fn remove_unowned_project_keeps_list() {
    let mut auth = empty_store();
    auth.add_project("u", "a");
    let record = auth.remove_project("u", "zzz").unwrap();
    assert_eq!(record.projects, vec!["a".to_string()]);
    assert_eq!(auth.get_user_projects("u"), Some(vec!["a".to_string()]));
}

#[test]
fn remove_owned_project() {
    let mut auth = empty_store();
    auth.add_project("u", "a");
    auth.add_project("u", "b");
    auth.add_project("u", "c");
    let record = auth.remove_project("u", "b").unwrap();
    assert_eq!(record.projects, vec!["a".to_string(), "c".to_string()]);
    assert_eq!(auth.get_user_projects("u"), Some(vec!["a".to_string(), "c".to_string()]));
    assert_eq!(auth.get_user_projects("u").unwrap().len(), 2);
}

#[test]
fn record_after_add_changes_nothing() {
    let auth = empty_store();
    let record = auth.record_after_add("u", "p");
    assert_eq!(record.projects, vec!["p".to_string()]);
    assert_eq!(auth.get_user_projects("u"), None);
    assert_eq!(auth.record_after_remove("u", "p"), None);
}

#[test]
fn store_record_then_read() {
    let mut auth = empty_store();
    let record = auth.record_after_add("u", "p");
    auth.store_record("u".to_string(), record);
    assert_eq!(auth.get_user_projects("u"), Some(vec!["p".to_string()]));
}

#[test]
fn project_membership() {
    let ps = vec!["a".to_string(), "bc".to_string()];
    assert!(contains_project(&ps, "bc"));
    assert!(!contains_project(&ps, "b"));
}
