//! Finding the Markdown source of a presentation and the HTML file it is
//! built into.
use vstd::prelude::*;

use crate::path::{
    extension, extension_of, file_name_of, file_stem_of, last_dot, law_extension_after_set,
    lemma_last_dot_at, lemma_name_start_at, name_start, set_extension, trim_trailing,
    with_extension_of,
};
use crate::text::str_equal;

verus! {

/// Whether the path's extension is `md`.
pub open spec fn is_markdown(p: Seq<char>) -> bool {
    extension_of(p) == Some("md"@)
}

/// The Markdown files among `paths`, in the order given.
pub open spec fn markdown_files(paths: Seq<Seq<char>>) -> Seq<Seq<char>> {
    paths.filter(|p: Seq<char>| is_markdown(p))
}

/// Whether the path's extension is `md`.
pub fn has_markdown_extension(path: &str) -> (r: bool)
    ensures
        r == is_markdown(path@),
{
    match extension(path) {
        Some(x) => str_equal(x.as_str(), "md"),
        None => false,
    }
}

/// The project file that marks a presentation project in the current
/// directory.
pub fn project_file_path() -> (r: String)
    ensures
        r@ == "./pelp.toml"@,
{
    String::from_str("./pelp.toml")
}

/// The project file, given whether it exists.
pub fn look_for_project_file(exists: bool) -> (r: Option<String>)
    ensures
        exists ==> (r matches Some(p) && p@ == "./pelp.toml"@),
        !exists ==> r is None,
{
    if exists {
        Some(project_file_path())
    } else {
        None
    }
}

/// The Markdown files among the entries of a directory, in the order given.
pub fn look_for_md_files(paths: &Vec<String>) -> (r: Vec<String>)
    ensures
        r.deep_view() == markdown_files(paths.deep_view()),
{
    let mut r: Vec<String> = Vec::new();
    let n = paths.len();
    let ghost all = paths.deep_view();
    for i in 0..n
        invariant
            n == paths@.len(),
            all == paths.deep_view(),
            r.deep_view() == markdown_files(all.take(i as int)),
    {
        let ghost before = r.deep_view();
        proof {
            assert(all.take(i + 1) =~= all.take(i as int).push(all[i as int]));
            all.take(i as int).lemma_filter_push(all[i as int], |p: Seq<char>| is_markdown(p));
        }
        if has_markdown_extension(paths[i].as_str()) {
            r.push(paths[i].clone());
            assert(r.deep_view() =~= before.push(all[i as int]));
        } else {
            assert(r.deep_view() =~= before);
        }
    }
    assert(all.take(n as int) =~= all);
    r
}

/// The Markdown file among the entries of a directory, if there is exactly
/// one.
pub fn find_md_file(paths: &Vec<String>) -> (r: Option<String>)
    ensures
        markdown_files(paths.deep_view()).len() == 1 ==> (r matches Some(p) && p@
            == markdown_files(paths.deep_view())[0]),
        markdown_files(paths.deep_view()).len() != 1 ==> r is None,
{
    let md = look_for_md_files(paths);
    if md.len() == 1 {
        assert(md.deep_view()[0] == md@[0]@);
        Some(md[0].clone())
    } else {
        None
    }
}

/// Why no source file could be chosen.
#[derive(Debug, Clone, Copy, PartialEq, Eq)]
pub enum SourceError {
    /// No name was given, there is no project file, and the directory holds no
    /// Markdown file.
    NoMarkdownFiles,
}

/// Whether choosing a source needs the Markdown files of the current
/// directory: only when no name was given and there is no project file.
pub fn needs_md_files(name_arg: &Option<String>, project_file: &Option<String>) -> (r: bool)
    ensures
        r == (name_arg is None && project_file is None),
{
    name_arg.is_none() && project_file.is_none()
}

/// The Markdown source of a presentation: the name given if any; else, when
/// there is a project file, `presentation.md`; else the first Markdown file of
/// the directory.
///
/// With no name, no project file and no Markdown file there is no source, and
/// the program stops with "No source markdown files found". This function
/// does not stop: it returns `Err(SourceError::NoMarkdownFiles)` on exactly
/// that input and leaves stopping to its caller.
pub fn get_source(
    name_arg: &Option<String>,
    project_file: &Option<String>,
    md_files: &Vec<String>,
) -> (r: Result<String, SourceError>)
    ensures
        name_arg matches Some(n) ==> (r matches Ok(s) && s@ == n@),
        name_arg is None && project_file is Some ==> (r matches Ok(s) && s@
            == "presentation.md"@),
        name_arg is None && project_file is None && md_files@.len() > 0 ==> (r matches Ok(s)
            && s@ == md_files@[0]@),
        name_arg is None && project_file is None && md_files@.len() == 0 ==> r == Err::<
            String,
            SourceError,
        >(SourceError::NoMarkdownFiles),
{
    match name_arg {
        Some(n) => Ok(n.clone()),
        None => match project_file {
            Some(_) => Ok(String::from_str("presentation.md")),
            None => {
                if md_files.len() == 0 {
                    Err(SourceError::NoMarkdownFiles)
                } else {
                    Ok(md_files[0].clone())
                }
            },
        },
    }
}

/// Why no output file could be chosen.
#[derive(Debug, Clone, Copy, PartialEq, Eq)]
pub enum OutputError {
    /// The source file has an extension other than `md`.
    NotMarkdown,
    /// The source file has no extension.
    NoExtension,
}

/// The HTML output of a presentation: the name given if any, else the source
/// with its extension changed from `md` to `html`.
///
/// With no name given and a source whose extension is not `md`, there is no
/// output, and the program stops ("Unable to determice an output file" when
/// the source has no extension, "Source file is not an .md file" otherwise).
/// This function does not stop: it returns `Err(OutputError::NoExtension)` or
/// `Err(OutputError::NotMarkdown)` on exactly those inputs and leaves stopping
/// to its caller.
pub fn get_output(output_arg: &Option<String>, source_md: &String) -> (r: Result<
    String,
    OutputError,
>)
    ensures
        output_arg matches Some(h) ==> (r matches Ok(s) && s@ == h@),
        output_arg is None && is_markdown(source_md@) ==> (r matches Ok(s) && s@
            == with_extension_of(source_md@, "html"@)),
        output_arg is None && extension_of(source_md@) is None ==> r == Err::<
            String,
            OutputError,
        >(OutputError::NoExtension),
        output_arg is None && extension_of(source_md@) is Some && !is_markdown(source_md@)
            ==> r == Err::<String, OutputError>(OutputError::NotMarkdown),
{
    match output_arg {
        Some(h) => Ok(h.clone()),
        None => match extension(source_md.as_str()) {
            Some(x) => {
                if str_equal(x.as_str(), "md") {
                    let mut html = source_md.clone();
                    proof {
                        lemma_html_literal();
                    }
                    set_extension(&mut html, "html");
                    Ok(html)
                } else {
                    Err(OutputError::NotMarkdown)
                }
            },
            None => Err(OutputError::NoExtension),
        },
    }
}

/// Every file that the directory listing keeps is a Markdown file, and every
/// Markdown file of the listing is kept.
pub proof fn law_md_files_are_markdown(paths: Seq<Seq<char>>)
    ensures
        forall|i: int|
            0 <= i < markdown_files(paths).len() ==> is_markdown(#[trigger] markdown_files(paths)[i]),
        forall|p: Seq<char>| paths.contains(p) && is_markdown(p) ==> markdown_files(paths).contains(p),
{
    let f = |p: Seq<char>| is_markdown(p);
    assert forall|i: int| 0 <= i < markdown_files(paths).len() implies is_markdown(
        #[trigger] markdown_files(paths)[i],
    ) by {
        paths.lemma_filter_pred(f, i);
    }
    assert forall|p: Seq<char>| paths.contains(p) && is_markdown(p) implies markdown_files(
        paths,
    ).contains(p) by {
        paths.lemma_filter_contains_rev(f, p);
    }
}

/// A path counts as Markdown exactly when its extension, as std reads it, is
/// `md`: nothing else in the path, spaces or other characters included, bears
/// on it.
pub proof fn law_markdown_is_md_extension(p: Seq<char>)
    ensures
        is_markdown(p) <==> extension_of(p) == Some("md"@),
{
}

/// Every file named `<n>.md`, with a non-empty `n` without separators, in any
/// directory `q` (empty or ending with a separator), is a Markdown file, and
/// its output is the file `<n>.html` in the same directory: `My Talk.md`
/// becomes `My Talk.html`.
pub proof fn law_markdown_file_names(q: Seq<char>, n: Seq<char>)
    requires
        q.len() == 0 || q.last() == '/',
        n.len() > 0,
        !n.contains('/'),
    ensures
        is_markdown(q + n + ".md"@),
        with_extension_of(q + n + ".md"@, "html"@) == q + n + ".html"@,
{
    reveal_strlit(".md");
    reveal_strlit(".html");
    reveal_strlit("md");
    reveal_strlit("html");
    assert(".md"@ =~= seq!['.', 'm', 'd']);
    assert("md"@ =~= seq!['m', 'd']);
    assert(".html"@ =~= seq!['.', 'h', 't', 'm', 'l']);
    assert("html"@ =~= seq!['h', 't', 'm', 'l']);
    let p = q + n + ".md"@;
    let k = q.len() as int;
    // Nothing to trim: the path ends with `d`.
    assert(p.last() == 'd');
    assert(trim_trailing(p) == p);
    // The file name starts right after `q`.
    assert forall|i: int| k <= i < p.len() implies p[i] != '/' by {
        if i < k + n.len() {
            assert(p[i] == n[i - k]);
            assert(n.contains(n[i - k]));
        }
    }
    if k > 0 {
        assert(p[k - 1] == q.last());
    }
    lemma_name_start_at(p, k);
    let m = p.subrange(k, p.len() as int);
    assert(m =~= n + ".md"@);
    assert(m.len() >= 4);
    assert(m != seq!['.']);
    assert(m != seq!['.', '.']);
    assert(file_name_of(p) == Some(m));
    // Its last dot is the one before `md`.
    assert(m[n.len() as int] == '.');
    lemma_last_dot_at(m, n.len() as int);
    assert(last_dot(m) == n.len());
    assert(m.skip(n.len() as int + 1) =~= "md"@);
    assert(extension_of(p) == Some("md"@));
    assert(m.take(n.len() as int) =~= n);
    assert(p.take(k + n.len()) =~= q + n);
    assert(with_extension_of(p, "html"@) =~= q + n + ".html"@);
}

proof fn lemma_html_literal()
    ensures
        !"html"@.contains('/'),
        !"html"@.contains('.'),
        "html"@.len() > 0,
{
    reveal_strlit("html");
    if "html"@.contains('/') {
        let i = choose|i: int| 0 <= i < "html"@.len() && "html"@[i] == '/';
    }
    if "html"@.contains('.') {
        let i = choose|i: int| 0 <= i < "html"@.len() && "html"@[i] == '.';
    }
}

/// The output chosen for a Markdown source is an HTML file with the same
/// stem: `slides.md` is built into `slides.html`.
pub proof fn law_output_is_html_of_same_stem(source: Seq<char>)
    requires
        is_markdown(source),
    ensures
        extension_of(with_extension_of(source, "html"@)) == Some("html"@),
        file_stem_of(with_extension_of(source, "html"@)) == file_stem_of(source),
{
    lemma_html_literal();
    assert(file_name_of(source) is Some);
    law_extension_after_set(source, "html"@);
}

} // verus!
