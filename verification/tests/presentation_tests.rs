use pelp::presentation::{
    editor_program, on_source_event, render_summary, Presentation, SourceAction, SourceEvent,
};
use std::path::PathBuf;

fn deck() -> Presentation {
    Presentation::new("/p/deck.md".to_string(), "/p/deck.html".to_string(), None)
}

#[test]
fn new_keeps_fields() {
    let p = Presentation::new("a.md".to_string(), "b.html".to_string(), Some("/d".to_string()));
    assert_eq!(p.source_md(), "a.md");
    assert_eq!(p.output_html(), "b.html");
    assert_eq!(p.base_dir(), Some("/d".to_string()));
}

#[test]
fn embed_build_arguments() {
    assert_eq!(
        deck().embed_build(),
        vec![
            "--to=revealjs",
            "--slide-level=2",
            "--embed-resources",
            "--standalone",
            "--output=/p/deck.html",
            "/p/deck.md"
        ]
    );
}

#[test]
fn quick_build_arguments() {
    assert_eq!(
        deck().quick_build(),
        vec!["--to=revealjs", "--slide-level=2", "--standalone", "--output=/p/deck.html", "/p/deck.md"]
    );
}

#[test]
fn summary_matches_debug_of_paths() {
    let expected = format!(
        "Markdown: {:?}\nHTML:     {:?}\nBase Dir: {:?}",
        PathBuf::from("/p/deck.md"),
        PathBuf::from("/p/deck.html"),
        None::<PathBuf>
    );
    assert_eq!(deck().summary(), expected);
    let p = Presentation::new("it's.md".to_string(), "o.html".to_string(), Some("/b".to_string()));
    let expected = format!(
        "Markdown: {:?}\nHTML:     {:?}\nBase Dir: {:?}",
        PathBuf::from("it's.md"),
        PathBuf::from("o.html"),
        Some(PathBuf::from("/b"))
    );
    assert_eq!(p.summary(), expected);
}

#[test]
fn render_summary_layout() {
    assert_eq!(
        render_summary(&"S".to_string(), &"H".to_string(), &Some("B".to_string())),
        "Markdown: S\nHTML:     H\nBase Dir: Some(B)"
    );
    assert_eq!(
        render_summary(&"S".to_string(), &"H".to_string(), &None),
        "Markdown: S\nHTML:     H\nBase Dir: None"
    );
}

#[test]
fn editor_defaults_to_vim() {
    assert_eq!(editor_program(None), "vim");
    assert_eq!(editor_program(Some("nano".to_string())), "nano");
}

#[test]
fn source_events() {
    assert_eq!(on_source_event(SourceEvent::Modified), SourceAction::Rebuild);
    assert_eq!(on_source_event(SourceEvent::Other), SourceAction::Ignore);
    assert_eq!(on_source_event(SourceEvent::Failed), SourceAction::Abort);
}
