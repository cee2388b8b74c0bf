use vstd::prelude::*;
use crate::chars::str_eq;
use crate::metadata::{SortMethod, TextAlign};

verus! {

/// The default text alignment.
pub const DEFAULT_TEXT_ALIGN: TextAlign = TextAlign::Left;

#[derive(Debug, Copy, Clone, PartialEq, Eq, Structural)]
pub enum RotationLock {
    Landscape,
    Portrait,
    Current,
}

#[derive(Debug, Copy, Clone, PartialEq, Eq, Structural, Hash)]
pub enum CategoryProvider {
    Path,
    Subject,
}

pub open spec fn category_provider_named(s: Seq<char>) -> Option<CategoryProvider> {
    if s == "path"@ {
        Some(CategoryProvider::Path)
    } else if s == "subject"@ {
        Some(CategoryProvider::Subject)
    } else {
        None
    }
}

impl CategoryProvider {
    /// The provider named `path` or `subject`.
    pub fn from_str(s: &str) -> (p: Option<CategoryProvider>)
        ensures
            p == category_provider_named(s@),
    {
        if str_eq(s, "path") {
            Some(CategoryProvider::Path)
        } else if str_eq(s, "subject") {
            Some(CategoryProvider::Subject)
        } else {
            None
        }
    }
}

#[derive(Debug, Copy, Clone, PartialEq, Eq, Structural)]
pub enum SecondColumn {
    Progress,
    Year,
}

/// A program run on a library category.
#[derive(Debug, Clone)]
pub struct Hook {
    pub name: String,
    pub program: Option<String>,
    pub sort_method: Option<SortMethod>,
    pub second_column: Option<SecondColumn>,
}

impl Default for Hook {
    fn default() -> (h: Hook)
        ensures
            h.name@ == "Unnamed"@,
            h.program is None,
            h.sort_method is None,
            h.second_column is None,
    {
        Hook {
            name: crate::chars::to_string("Unnamed"),
            program: None,
            sort_method: None,
            second_column: None,
        }
    }
}

#[derive(Debug, Clone)]
pub struct HomeSettings {
    pub summary_size: u8,
    pub second_column: SecondColumn,
    pub hooks: Vec<Hook>,
}

impl Default for HomeSettings {
    fn default() -> (h: HomeSettings)
        ensures
            h.summary_size == 2,
            h.second_column == SecondColumn::Progress,
            h.hooks@.len() == 0,
    {
        HomeSettings { summary_size: 2, second_column: SecondColumn::Progress, hooks: Vec::new() }
    }
}

#[derive(Debug, Copy, Clone, PartialEq, Eq, Structural)]
pub enum FinishedAction {
    Notify,
    Close,
}

} // verus!
