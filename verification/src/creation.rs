//! Planning a new presentation: its name, its kind when the name tells it, and
//! the files and directories to create.
use vstd::prelude::*;

use crate::path::{
    file_name, file_name_of, is_plain_name, join, joined, law_extension_after_set,
    lemma_file_name_facts,
    law_file_name_after_join, set_extension, stem_of_name, with_extension_of, extension_of,
};
use crate::project_type::ProjectType;
use crate::text::chars_of;

verus! {

/// Whether the text ends with `.md`.
pub open spec fn ends_with_md(p: Seq<char>) -> bool {
    p.len() >= 3 && p.subrange(p.len() - 3, p.len() as int) == ".md"@
}

/// The name of a presentation made at `project_path`: the file name of the
/// path when it holds a separator, else the path itself.
pub open spec fn project_name_of(p: Seq<char>) -> Option<Seq<char>> {
    if p.contains('/') {
        file_name_of(p)
    } else {
        Some(p)
    }
}

/// The Markdown file of a single-file presentation at `p`: `p` itself when it
/// ends with `.md`, else `p` with its extension set to `md`.
pub open spec fn single_file_of(p: Seq<char>) -> Seq<char> {
    if ends_with_md(p) {
        p
    } else {
        with_extension_of(p, "md"@)
    }
}

/// The Markdown file of a one-shot project in directory `dir` named `name`.
pub open spec fn one_shot_file_of(dir: Seq<char>, name: Seq<char>) -> Seq<char> {
    with_extension_of(joined(dir, name), "md"@)
}

proof fn lemma_md_literal()
    ensures
        "md"@ == seq!['m', 'd'],
        ".md"@ == seq!['.', 'm', 'd'],
        !"md"@.contains('/'),
        !"md"@.contains('.'),
        "md"@.len() > 0,
{
    reveal_strlit("md");
    reveal_strlit(".md");
    assert("md"@ =~= seq!['m', 'd']);
    assert(".md"@ =~= seq!['.', 'm', 'd']);
    if "md"@.contains('/') {
        let i = choose|i: int| 0 <= i < "md"@.len() && "md"@[i] == '/';
    }
    if "md"@.contains('.') {
        let i = choose|i: int| 0 <= i < "md"@.len() && "md"@[i] == '.';
    }
}

/// Whether `path` ends with `.md`.
pub fn has_md_suffix(path: &str) -> (r: bool)
    ensures
        r == ends_with_md(path@),
{
    proof {
        lemma_md_literal();
    }
    let p = chars_of(path);
    let n = p.len();
    if n < 3 {
        return false;
    }
    let r = p[n - 3] == '.' && p[n - 2] == 'm' && p[n - 1] == 'd';
    let ghost tail = p@.subrange(n - 3, n as int);
    assert(tail[0] == p@[n - 3] && tail[1] == p@[n - 2] && tail[2] == p@[n - 1]);
    if r {
        assert(tail =~= seq!['.', 'm', 'd']);
    }
    r
}

/// Whether the text holds a separator.
fn has_separator(path: &str) -> (r: bool)
    ensures
        r == path@.contains('/'),
{
    let p = chars_of(path);
    let n = p.len();
    for i in 0..n
        invariant
            n == p@.len(),
            p@ == path@,
            forall|j: int| 0 <= j < i ==> p@[j] != '/',
    {
        if p[i] == '/' {
            assert(path@[i as int] == '/');
            return true;
        }
    }
    false
}

/// The name of a presentation made at `project_path`: the file name of the
/// path when it holds a separator (`None` when that path has no file name),
/// else the path itself.
pub fn project_name(project_path: &str) -> (r: Option<String>)
    ensures
        match r {
            Some(n) => project_name_of(project_path@) == Some(n@),
            None => project_name_of(project_path@) is None,
        },
{
    if has_separator(project_path) {
        file_name(project_path)
    } else {
        Some(String::from_str(project_path))
    }
}

/// The kind of presentation that the path alone decides: a path ending with
/// `.md` is a single file; for any other the user is asked.
pub fn inferred_project_type(project_path: &str) -> (r: Option<ProjectType>)
    ensures
        ends_with_md(project_path@) ==> r == Some(ProjectType::SingleFile),
        !ends_with_md(project_path@) ==> r is None,
{
    if has_md_suffix(project_path) {
        Some(ProjectType::SingleFile)
    } else {
        None
    }
}

/// The Markdown file of a single-file presentation at `project_path`.
pub fn single_file_path(project_path: &str) -> (r: String)
    ensures
        r@ == single_file_of(project_path@),
{
    let mut p = String::from_str(project_path);
    if !has_md_suffix(project_path) {
        proof {
            lemma_md_literal();
        }
        set_extension(&mut p, "md");
    }
    p
}

/// The Markdown file of a one-shot project: `project_name.md` inside the
/// project's directory `project_dir`.
pub fn one_shot_file(project_dir: &str, project_name: &str) -> (r: String)
    ensures
        r@ == one_shot_file_of(project_dir@, project_name@),
{
    let mut p = join(project_dir, project_name);
    proof {
        lemma_md_literal();
    }
    set_extension(&mut p, "md");
    p
}

/// What creating a presentation of a given kind at a given path amounts to.
pub enum CreationPlan {
    /// Write the template into `file`.
    SingleFile { file: String },
    /// Create the directory `dir`, then write the template into `file`.
    OneShotProject { dir: String, file: String },
    /// Nothing can be created: series of presentations are not supported yet.
    RecurringProject,
}

/// What creating a presentation of kind `project_type` at `project_path`,
/// named `project_name`, amounts to.
pub fn plan_creation(project_path: &str, project_name: &str, project_type: ProjectType) -> (r:
    CreationPlan)
    ensures
        project_type == ProjectType::SingleFile ==> (r matches CreationPlan::SingleFile { file }
            && file@ == single_file_of(project_path@)),
        project_type == ProjectType::OneShotProject ==> (r matches CreationPlan::OneShotProject {
            dir,
            file,
        } && dir@ == project_path@ && file@ == one_shot_file_of(project_path@, project_name@)),
        project_type == ProjectType::RecurringProject ==> r is RecurringProject,
{
    match project_type {
        ProjectType::SingleFile => CreationPlan::SingleFile { file: single_file_path(project_path) },
        ProjectType::OneShotProject => CreationPlan::OneShotProject {
            dir: String::from_str(project_path),
            file: one_shot_file(project_path, project_name),
        },
        ProjectType::RecurringProject => CreationPlan::RecurringProject,
    }
}

/// The name of a project never holds a separator: for a path with one, it is
/// the path's final component, found after the last separator that is
/// followed by a component.
pub proof fn law_project_name_has_no_separator(p: Seq<char>)
    ensures
        project_name_of(p) matches Some(n) ==> !n.contains('/'),
        p.contains('/') && project_name_of(p) is Some ==> project_name_of(p) == file_name_of(p),
{
    if p.contains('/') && file_name_of(p) is Some {
        lemma_file_name_facts(p);
    }
}

/// A project made at `d/n`, for any directory `d` and plain name `n`, is named
/// `n`: `pelp new ~/talks/monday` names the project `monday`.
pub proof fn law_project_name_after_join(d: Seq<char>, n: Seq<char>)
    requires
        is_plain_name(n),
    ensures
        project_name_of(joined(d, n)) == Some(n),
{
    law_file_name_after_join(d, n);
    let q = joined(d, n);
    if !q.contains('/') {
        if d.len() > 0 {
            if d.last() != '/' {
                assert(q[d.len() as int] == '/');
            } else {
                assert(q[d.len() - 1] == '/');
            }
        } else {
            assert(q =~= n);
        }
    }
}

/// A path that names a file and does not end in `.md` becomes, for a
/// single-file presentation, a file with extension `md`.
pub proof fn law_single_file_is_markdown(p: Seq<char>)
    requires
        file_name_of(p) is Some,
        !ends_with_md(p),
    ensures
        extension_of(single_file_of(p)) == Some("md"@),
{
    lemma_md_literal();
    law_extension_after_set(p, "md"@);
}

/// The file of a one-shot project named by a plain name `n` is `n` with
/// extension `md`, inside the project's directory.
pub proof fn law_one_shot_file_named_after_project(dir: Seq<char>, n: Seq<char>)
    requires
        is_plain_name(n),
    ensures
        file_name_of(one_shot_file_of(dir, n)) == Some(stem_of_name(n) + seq!['.'] + "md"@),
        extension_of(one_shot_file_of(dir, n)) == Some("md"@),
{
    lemma_md_literal();
    law_file_name_after_join(dir, n);
    law_extension_after_set(joined(dir, n), "md"@);
}

} // verus!
