//! The kinds of presentation that can be created.
use vstd::prelude::*;

verus! {

/// A kind of presentation.
#[derive(Debug, Clone, Copy, PartialEq, Eq, Structural)]
pub enum ProjectType {
    /// A single Markdown file.
    SingleFile,
    /// A directory holding one presentation and its assets.
    OneShotProject,
    /// A directory holding a series of presentations.
    RecurringProject,
}

impl ProjectType {
    /// The name under which the kind is shown to a user.
    pub open spec fn spec_label(self) -> Seq<char> {
        match self {
            ProjectType::SingleFile => "Single File"@,
            ProjectType::OneShotProject => "One Shot Project"@,
            ProjectType::RecurringProject => "Recurring Project"@,
        }
    }

    /// One sentence on what the kind is for.
    pub open spec fn spec_description(self) -> Seq<char> {
        match self {
            ProjectType::SingleFile => "when you don't need any local files in your presentation"@,
            ProjectType::OneShotProject => "creates a directory structure to place your assest in"@,
            ProjectType::RecurringProject => "creates a directory to store and manage multiple presentations"@,
        }
    }

    /// The name under which the kind is shown to a user.
    pub fn label(&self) -> (r: &'static str)
        ensures
            r@ == self.spec_label(),
    {
        match self {
            ProjectType::SingleFile => "Single File",
            ProjectType::OneShotProject => "One Shot Project",
            ProjectType::RecurringProject => "Recurring Project",
        }
    }

    /// One sentence on what the kind is for.
    pub fn describe(&self) -> (r: &'static str)
        ensures
            r@ == self.spec_description(),
    {
        match self {
            ProjectType::SingleFile => "when you don't need any local files in your presentation",
            ProjectType::OneShotProject => "creates a directory structure to place your assest in",
            ProjectType::RecurringProject => {
                "creates a directory to store and manage multiple presentations"
            },
        }
    }
}

} // verus!
