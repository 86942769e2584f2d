use pelp::creation::{
    has_md_suffix, inferred_project_type, one_shot_file, plan_creation, project_name,
    single_file_path, CreationPlan,
};
use pelp::project_type::ProjectType;

#[test]
fn names_of_projects() {
    assert_eq!(project_name("talk"), Some("talk".to_string()));
    assert_eq!(project_name("talks/monday"), Some("monday".to_string()));
    assert_eq!(project_name("talks/monday/"), Some("monday".to_string()));
    assert_eq!(project_name("talks/.."), None);
    assert_eq!(project_name("/"), None);
}

#[test]
fn kind_inferred_from_md_suffix() {
    assert!(has_md_suffix("a.md"));
    assert!(!has_md_suffix("a.mdx"));
    assert!(!has_md_suffix("md"));
    assert_eq!(inferred_project_type("deck.md"), Some(ProjectType::SingleFile));
    assert_eq!(inferred_project_type("deck"), None);
}

#[test]
fn single_file_paths() {
    assert_eq!(single_file_path("deck.md"), "deck.md");
    assert_eq!(single_file_path("deck"), "deck.md");
    assert_eq!(single_file_path("deck.txt"), "deck.md");
    assert_eq!(single_file_path("talks/deck/"), "talks/deck.md");
}

#[test]
fn one_shot_files() {
    assert_eq!(one_shot_file("monday", "monday"), "monday/monday.md");
    assert_eq!(one_shot_file("talks/v1.0", "v1.0"), "talks/v1.0/v1.md");
    assert_eq!(one_shot_file("dir/", "x"), "dir/x.md");
}

#[test]
fn plans() {
    match plan_creation("deck", "deck", ProjectType::SingleFile) {
        CreationPlan::SingleFile { file } => assert_eq!(file, "deck.md"),
        _ => panic!("expected a single file"),
    }
    match plan_creation("talks/mon", "mon", ProjectType::OneShotProject) {
        CreationPlan::OneShotProject { dir, file } => {
            assert_eq!(dir, "talks/mon");
            assert_eq!(file, "talks/mon/mon.md");
        }
        _ => panic!("expected a one-shot project"),
    }
    assert!(matches!(
        plan_creation("s", "s", ProjectType::RecurringProject),
        CreationPlan::RecurringProject
    ));
}
