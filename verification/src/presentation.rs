//! A presentation: its Markdown source, the HTML it is built into, and the
//! directory it is built in; the pandoc command that builds it, and what to do
//! when its source changes while it is served.
use vstd::prelude::*;

use crate::display::{debug_path, path_debug};
use crate::text::append_str;

verus! {

/// A presentation.
#[derive(Debug, Clone)]
pub struct Presentation {
    source_md: String,
    output_html: String,
    base_dir: Option<String>,
}

/// A presentation as the contracts see it: source, output, base directory.
pub struct PresentationView {
    pub source_md: Seq<char>,
    pub output_html: Seq<char>,
    pub base_dir: Option<Seq<char>>,
}

impl View for Presentation {
    type V = PresentationView;

    closed spec fn view(&self) -> PresentationView {
        PresentationView {
            source_md: self.source_md@,
            output_html: self.output_html@,
            base_dir: match self.base_dir {
                Some(d) => Some(d@),
                None => None,
            },
        }
    }
}

/// The arguments given to pandoc to build `source` into `output`, with the
/// resources embedded into the HTML or not.
pub open spec fn pandoc_args(source: Seq<char>, output: Seq<char>, embed: bool) -> Seq<Seq<char>> {
    seq!["--to=revealjs"@, "--slide-level=2"@] + (if embed {
        seq!["--embed-resources"@]
    } else {
        Seq::empty()
    }) + seq!["--standalone"@, "--output="@ + output, source]
}

/// The text shown for a presentation, from the `Debug` texts of its paths.
pub open spec fn summary_text(
    source_text: Seq<char>,
    output_text: Seq<char>,
    base_text: Option<Seq<char>>,
) -> Seq<char> {
    "Markdown: "@ + source_text + "\nHTML:     "@ + output_text + "\nBase Dir: "@ + match base_text {
        Some(b) => "Some("@ + b + ")"@,
        None => "None"@,
    }
}

/// Appends a string literal's characters to a `Vec<String>` as a new item.
fn push_literal(v: &mut Vec<String>, s: &str)
    ensures
        final(v).deep_view() == old(v).deep_view().push(s@),
{
    let ghost before = v.deep_view();
    v.push(String::from_str(s));
    assert(v.deep_view() =~= before.push(s@));
}

/// Whatever the paths, pandoc is asked for a standalone reveal.js page with
/// two slide levels, written to the output path and read from the source:
/// the arguments start with `--to=revealjs` and `--slide-level=2` and end with
/// `--standalone`, `--output=<output>` and the source; the embedded build
/// differs from the quick one only by `--embed-resources` after the first
/// two.
pub proof fn law_pandoc_args_shape(source: Seq<char>, output: Seq<char>, embed: bool)
    ensures
        ({
            let a = pandoc_args(source, output, embed);
            &&& a.len() == (if embed {
                6int
            } else {
                5int
            })
            &&& a[0] == "--to=revealjs"@
            &&& a[1] == "--slide-level=2"@
            &&& a[a.len() - 3] == "--standalone"@
            &&& a[a.len() - 2] == "--output="@ + output
            &&& a[a.len() - 1] == source
        }),
        pandoc_args(source, output, true) == pandoc_args(source, output, false).insert(
            2,
            "--embed-resources"@,
        ),
{
    assert(pandoc_args(source, output, true) =~= pandoc_args(source, output, false).insert(
        2,
        "--embed-resources"@,
    ));
}

impl Presentation {
    /// A presentation of `source_md`, built into `target_html`, in
    /// `base_dir` when given.
    pub fn new(source_md: String, target_html: String, base_dir: Option<String>) -> (r:
        Presentation)
        ensures
            r@.source_md == source_md@,
            r@.output_html == target_html@,
            r@.base_dir == (match base_dir {
                Some(d) => Some(d@),
                None => None::<Seq<char>>,
            }),
    {
        Presentation { source_md, output_html: target_html, base_dir }
    }

    /// The Markdown source.
    pub fn source_md(&self) -> (r: &String)
        ensures
            r@ == self@.source_md,
    {
        &self.source_md
    }

    /// The HTML output.
    pub fn output_html(&self) -> (r: &String)
        ensures
            r@ == self@.output_html,
    {
        &self.output_html
    }

    /// The directory to build in, if any.
    pub fn base_dir(&self) -> (r: Option<String>)
        ensures
            r matches Some(d) ==> self@.base_dir == Some(d@),
            r is None ==> self@.base_dir is None,
    {
        match &self.base_dir {
            Some(d) => Some(d.clone()),
            None => None,
        }
    }

    /// The arguments of the pandoc command that builds the presentation into
    /// a reveal.js page, with its resources embedded or not.
    pub fn build_args(&self, embed: bool) -> (r: Vec<String>)
        ensures
            r.deep_view() == pandoc_args(self@.source_md, self@.output_html, embed),
    {
        let mut r: Vec<String> = Vec::new();
        push_literal(&mut r, "--to=revealjs");
        push_literal(&mut r, "--slide-level=2");
        if embed {
            push_literal(&mut r, "--embed-resources");
        }
        push_literal(&mut r, "--standalone");
        let mut out = String::from_str("--output=");
        append_str(&mut out, self.output_html.as_str());
        let ghost before = r.deep_view();
        r.push(out);
        r.push(self.source_md.clone());
        assert(r.deep_view() =~= before.push("--output="@ + self@.output_html).push(
            self@.source_md,
        ));
        assert(r.deep_view() =~= pandoc_args(self@.source_md, self@.output_html, embed));
        r
    }

    /// The pandoc arguments for a self-contained build, with every resource
    /// embedded into the HTML.
    pub fn embed_build(&self) -> (r: Vec<String>)
        ensures
            r.deep_view() == pandoc_args(self@.source_md, self@.output_html, true),
    {
        self.build_args(true)
    }

    /// The pandoc arguments for a quick build that links its resources.
    pub fn quick_build(&self) -> (r: Vec<String>)
        ensures
            r.deep_view() == pandoc_args(self@.source_md, self@.output_html, false),
    {
        self.build_args(false)
    }

    /// The text shown for the presentation: its paths as std's `Debug` writes
    /// them, one per line.
    pub fn summary(&self) -> (r: String)
        ensures
            r@ == summary_text(
                path_debug(self@.source_md),
                path_debug(self@.output_html),
                match self@.base_dir {
                    Some(b) => Some(path_debug(b)),
                    None => None,
                },
            ),
    {
        let source_text = debug_path(self.source_md.as_str());
        let output_text = debug_path(self.output_html.as_str());
        let base_text = match &self.base_dir {
            Some(d) => Some(debug_path(d.as_str())),
            None => None,
        };
        render_summary(&source_text, &output_text, &base_text)
    }
}

/// The text shown for a presentation, given the `Debug` texts of its source,
/// its output and its base directory.
pub fn render_summary(source_text: &String, output_text: &String, base_text: &Option<String>) -> (r:
    String)
    ensures
        r@ == summary_text(
            source_text@,
            output_text@,
            match base_text {
                Some(b) => Some(b@),
                None => None,
            },
        ),
{
    let mut r = String::from_str("Markdown: ");
    append_str(&mut r, source_text.as_str());
    append_str(&mut r, "\nHTML:     ");
    append_str(&mut r, output_text.as_str());
    append_str(&mut r, "\nBase Dir: ");
    match base_text {
        Some(b) => {
            append_str(&mut r, "Some(");
            append_str(&mut r, b.as_str());
            append_str(&mut r, ")");
        },
        None => {
            append_str(&mut r, "None");
        },
    }
    r
}

/// The editor that opens a source: the one the `EDITOR` variable names, else
/// `vim`.
pub fn editor_program(editor_var: Option<String>) -> (r: String)
    ensures
        editor_var matches Some(e) ==> r@ == e@,
        editor_var is None ==> r@ == "vim"@,
{
    match editor_var {
        Some(e) => e,
        None => String::from_str("vim"),
    }
}

/// What the watcher of a served presentation's source reports.
#[derive(Debug, Clone, Copy, PartialEq, Eq, Structural)]
pub enum SourceEvent {
    /// The source was modified.
    Modified,
    /// Something else happened to the source.
    Other,
    /// The watcher could not report an event.
    Failed,
}

/// What to do on a report of the source's watcher.
#[derive(Debug, Clone, Copy, PartialEq, Eq, Structural)]
pub enum SourceAction {
    /// Build the presentation again.
    Rebuild,
    /// Nothing.
    Ignore,
    /// Stop serving: the watcher failed.
    Abort,
}

/// What to do on a report of the source's watcher: build again after a
/// modification, stop when the watcher fails, and otherwise nothing.
///
/// A failed report ends serving with the watcher's error: this function does
/// not stop itself but returns `Abort`, on exactly that report, for its caller
/// to stop with that error.
pub fn on_source_event(event: SourceEvent) -> (r: SourceAction)
    ensures
        event == SourceEvent::Modified ==> r == SourceAction::Rebuild,
        event == SourceEvent::Other ==> r == SourceAction::Ignore,
        event == SourceEvent::Failed ==> r == SourceAction::Abort,
{
    match event {
        SourceEvent::Modified => SourceAction::Rebuild,
        SourceEvent::Other => SourceAction::Ignore,
        SourceEvent::Failed => SourceAction::Abort,
    }
}

} // verus!
