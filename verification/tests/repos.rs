use repoman::errors::RepoError;
use repoman::repo::Repo;
use repoman::repo_manager::RepoManager;

fn path(components: &[&str]) -> Vec<String> {
    components.iter().map(|c| c.to_string()).collect()
}

fn repo(components: &[&str], labels: &[&str]) -> Repo {
    Repo { path: path(components), labels: labels.iter().map(|l| l.to_string()).collect() }
}

#[test]
fn nearest_prefers_the_deepest_enclosing_repo() {
    let repos = vec![repo(&["a"], &[]), repo(&["a", "b"], &[])];
    let found = Repo::find_nearest(&repos, &path(&["a", "b", "c"]));
    assert_eq!(found, Some(1));
}

#[test]
fn nearest_prefers_the_deepest_whatever_the_registry_order() {
    let repos = vec![repo(&["a", "b"], &[]), repo(&["a"], &[])];
    let found = Repo::find_nearest(&repos, &path(&["a", "b", "c"]));
    assert_eq!(found, Some(0));
}

#[test]
fn nearest_accepts_the_directory_itself() {
    let repos = vec![repo(&["a"], &[]), repo(&["a", "b"], &[])];
    let found = Repo::find_nearest(&repos, &path(&["a", "b"]));
    assert_eq!(found, Some(1));
}

#[test]
fn nearest_fails_outside_every_repo() {
    let repos = vec![repo(&["a"], &[]), repo(&["a", "b"], &[])];
    assert_eq!(Repo::find_nearest(&repos, &path(&["elsewhere"])), None);
}

#[test]
fn a_sibling_directory_is_not_enclosed() {
    let repos = vec![repo(&["a", "b"], &[])];
    assert_eq!(Repo::find_nearest(&repos, &path(&["a", "bc"])), None);
}

#[test]
fn add_label_attaches_a_new_label() {
    let mut manager = RepoManager::new(vec![repo(&["a"], &[])], Vec::new(), Vec::new());
    let outcome = manager.add_label(&path(&["a"]), "web".to_string());
    assert_eq!(outcome, Ok(()));
    assert_eq!(manager.repos[0].labels, vec!["web".to_string()]);
}

#[test]
fn add_label_rejects_a_duplicate_without_mutating() {
    let mut manager = RepoManager::new(vec![repo(&["a"], &["web"])], Vec::new(), Vec::new());
    let outcome = manager.add_label(&path(&["a"]), "web".to_string());
    assert_eq!(outcome, Err(RepoError::DuplicateLabel { label: "web".to_string() }));
    assert_eq!(manager.repos[0].labels, vec!["web".to_string()]);
}

#[test]
fn add_label_fails_outside_every_repo() {
    let mut manager = RepoManager::new(vec![repo(&["a"], &[])], Vec::new(), Vec::new());
    let outcome = manager.add_label(&path(&["elsewhere"]), "web".to_string());
    assert_eq!(outcome, Err(RepoError::NoEnclosingRepo));
}

#[test]
fn remove_label_detaches_the_label() {
    let mut manager =
        RepoManager::new(vec![repo(&["a"], &["web", "cli"])], Vec::new(), Vec::new());
    let outcome = manager.remove_label(&path(&["a", "src"]), &"web".to_string());
    assert_eq!(outcome, Ok(()));
    assert_eq!(manager.repos[0].labels, vec!["cli".to_string()]);
}

#[test]
fn remove_label_rejects_an_absent_label_without_mutating() {
    let mut manager = RepoManager::new(vec![repo(&["a"], &["cli"])], Vec::new(), Vec::new());
    let outcome = manager.remove_label(&path(&["a"]), &"web".to_string());
    assert_eq!(outcome, Err(RepoError::MissingLabel { label: "web".to_string() }));
    assert_eq!(manager.repos[0].labels, vec!["cli".to_string()]);
}

#[test]
fn remove_label_fails_outside_every_repo() {
    let mut manager = RepoManager::new(vec![repo(&["a"], &["web"])], Vec::new(), Vec::new());
    let outcome = manager.remove_label(&path(&["elsewhere"]), &"web".to_string());
    assert_eq!(outcome, Err(RepoError::NoEnclosingRepo));
}

#[test]
fn list_labels_reads_the_nearest_repo() {
    let manager = RepoManager::new(
        vec![repo(&["a"], &["web"]), repo(&["a", "b"], &["cli", "rust"])],
        Vec::new(),
        Vec::new(),
    );
    let labels = manager.list_labels(&path(&["a", "b", "deep"]));
    assert_eq!(labels, Ok(&vec!["cli".to_string(), "rust".to_string()]));
}

#[test]
fn list_labels_fails_outside_every_repo() {
    let manager = RepoManager::new(vec![repo(&["a"], &["web"])], Vec::new(), Vec::new());
    assert_eq!(manager.list_labels(&path(&["elsewhere"])), Err(RepoError::NoEnclosingRepo));
}

#[test]
fn register_repo_appends_a_record_with_no_labels() {
    let mut manager = RepoManager::new(vec![repo(&["a"], &["web"])], Vec::new(), Vec::new());
    let outcome = manager.register_repo(path(&["b"]));
    assert_eq!(outcome, Ok(()));
    assert_eq!(manager.repos.len(), 2);
    assert_eq!(manager.repos[1].path, path(&["b"]));
    assert!(manager.repos[1].labels.is_empty());
}

#[test]
fn register_repo_rejects_a_registered_path() {
    let mut manager = RepoManager::new(vec![repo(&["a"], &["web"])], Vec::new(), Vec::new());
    let outcome = manager.register_repo(path(&["a"]));
    assert_eq!(outcome, Err(RepoError::AlreadyRegistered));
    assert_eq!(manager.repos.len(), 1);
}

#[test]
fn prune_drops_the_dead_records_and_keeps_the_order() {
    let mut repos =
        vec![repo(&["a"], &["one"]), repo(&["b"], &["two"]), repo(&["c"], &["three"])];
    let alive = vec![true, false, true];
    RepoManager::prune_removed_repos(&mut repos, &alive);
    assert_eq!(repos.len(), 2);
    assert_eq!(repos[0].path, path(&["a"]));
    assert_eq!(repos[1].path, path(&["c"]));
    assert_eq!(repos[1].labels, vec!["three".to_string()]);
}

#[test]
fn prune_keeps_everything_alive() {
    let mut repos = vec![repo(&["a"], &[]), repo(&["b"], &[])];
    let before = repos.clone();
    RepoManager::prune_removed_repos(&mut repos, &vec![true, true]);
    assert_eq!(repos, before);
}

#[test]
fn template_globals_bind_the_project_name_and_the_author() {
    let manager = RepoManager::new(Vec::new(), Vec::new(), Vec::new());
    let vars = manager.create_template_globals(&"foo".to_string());
    assert_eq!(
        vars,
        vec![
            ("project_name".to_string(), "foo".to_string()),
            ("author".to_string(), "PurpleMyst".to_string()),
        ],
    );
}
