use pelp::project_type::ProjectType;

#[test]
fn descriptions() {
    assert_eq!(
        ProjectType::SingleFile.describe(),
        "when you don't need any local files in your presentation"
    );
    assert_eq!(
        ProjectType::OneShotProject.describe(),
        "creates a directory structure to place your assest in"
    );
    assert_eq!(
        ProjectType::RecurringProject.describe(),
        "creates a directory to store and manage multiple presentations"
    );
}

#[test]
fn labels() {
    assert_eq!(ProjectType::SingleFile.label(), "Single File");
    assert_eq!(ProjectType::OneShotProject.label(), "One Shot Project");
    assert_eq!(ProjectType::RecurringProject.label(), "Recurring Project");
}
