use pelp::finder::{
    find_md_file, get_output, get_source, has_markdown_extension, look_for_md_files,
    look_for_project_file, needs_md_files, project_file_path, OutputError, SourceError,
};

fn strings(v: &[&str]) -> Vec<String> {
    v.iter().map(|s| s.to_string()).collect()
}

#[test]
fn markdown_files_are_kept_in_order() {
    let entries = strings(&["./b.md", "./notes.txt", "./a.md", "./dir", "./.md", "./x.MD", "./c.md"]);
    assert_eq!(look_for_md_files(&entries), strings(&["./b.md", "./a.md", "./c.md"]));
    assert_eq!(look_for_md_files(&Vec::new()), Vec::<String>::new());
}

#[test]
fn markdown_extension() {
    assert!(has_markdown_extension("talk.md"));
    assert!(!has_markdown_extension("talk.markdown"));
    assert!(!has_markdown_extension(".md"));
    assert!(!has_markdown_extension("md"));
}

#[test]
fn single_markdown_file_is_found() {
    assert_eq!(find_md_file(&strings(&["./a.txt", "./only.md"])), Some("./only.md".to_string()));
    assert_eq!(find_md_file(&strings(&["./a.md", "./b.md"])), None);
    assert_eq!(find_md_file(&strings(&["./a.txt"])), None);
}

#[test]
fn project_file() {
    assert_eq!(project_file_path(), "./pelp.toml");
    assert_eq!(look_for_project_file(true), Some("./pelp.toml".to_string()));
    assert_eq!(look_for_project_file(false), None);
}

#[test]
fn source_given_by_name() {
    let r = get_source(&Some("deck.md".to_string()), &Some("./pelp.toml".to_string()), &Vec::new());
    assert_eq!(r, Ok("deck.md".to_string()));
}

#[test]
fn source_from_project_file() {
    let r = get_source(&None, &Some("./pelp.toml".to_string()), &strings(&["./x.md"]));
    assert_eq!(r, Ok("presentation.md".to_string()));
}

#[test]
fn source_is_first_markdown_file() {
    let r = get_source(&None, &None, &strings(&["./b.md", "./a.md"]));
    assert_eq!(r, Ok("./b.md".to_string()));
}

#[test]
fn no_source_without_markdown_files() {
    assert_eq!(get_source(&None, &None, &Vec::new()), Err(SourceError::NoMarkdownFiles));
}

#[test]
fn markdown_files_needed_only_without_name_or_project() {
    assert!(needs_md_files(&None, &None));
    assert!(!needs_md_files(&Some("a.md".to_string()), &None));
    assert!(!needs_md_files(&None, &Some("./pelp.toml".to_string())));
}

#[test]
fn output_given_by_name() {
    let r = get_output(&Some("out.html".to_string()), &"/x/deck.md".to_string());
    assert_eq!(r, Ok("out.html".to_string()));
}

#[test]
fn output_next_to_source() {
    assert_eq!(get_output(&None, &"/x/deck.md".to_string()), Ok("/x/deck.html".to_string()));
    assert_eq!(get_output(&None, &"v1.2.md".to_string()), Ok("v1.2.html".to_string()));
}

#[test]
fn output_errors() {
    assert_eq!(get_output(&None, &"/x/deck.txt".to_string()), Err(OutputError::NotMarkdown));
    assert_eq!(get_output(&None, &"/x/deck".to_string()), Err(OutputError::NoExtension));
    assert_eq!(get_output(&None, &"/x/.md".to_string()), Err(OutputError::NoExtension));
}

#[test]
fn law_output_is_html_of_same_stem_on_examples() {
    for s in ["a.md", "/p/q/talk.md", "x.y.md"] {
        let out = get_output(&None, &s.to_string()).unwrap();
        assert_eq!(pelp::path::extension(&out), Some("html".to_string()));
        assert_eq!(pelp::path::file_stem(&out), pelp::path::file_stem(s));
    }
}
