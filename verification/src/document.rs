//! The document model that the renderer consumes: a person, a skills
//! mapping, and lists of experience, project, and education records.
//! Every field the renderer can read is a plain string, an optional
//! string, or a list of strings; optional fields that are absent are
//! skipped by the renderer, never rendered as empty markup.
use vstd::prelude::*;

verus! {

/// Personal information. `name` is required; every other field is
/// optional and is simply not rendered when absent.
#[derive(Debug, Clone)]
pub struct Person {
    pub name: String,
    pub headline: Option<String>,
    pub email: Option<String>,
    pub phone: Option<String>,
    pub location: Option<String>,
    pub website: Option<String>,
    pub summary: Option<String>,
}

/// One named skill category with its ordered list of skills.
#[derive(Debug, Clone)]
pub struct SkillCategory {
    pub name: String,
    pub items: Vec<String>,
}

/// One work-history record.
#[derive(Debug, Clone)]
pub struct ExperienceItem {
    pub title: String,
    pub company: String,
    pub location: Option<String>,
    pub start: Option<String>,
    pub end: Option<String>,
    pub summary: Option<String>,
    pub highlights: Vec<String>,
}

/// One project record.
#[derive(Debug, Clone)]
pub struct ProjectItem {
    pub name: String,
    pub url: Option<String>,
    pub summary: Option<String>,
}

/// One education record.
#[derive(Debug, Clone)]
pub struct EducationItem {
    pub institution: String,
    pub degree: String,
    pub location: Option<String>,
    pub start: Option<String>,
    pub end: Option<String>,
    pub details: Vec<String>,
}

/// A whole document: the input of one render call, read-only.
#[derive(Debug, Clone)]
pub struct Document {
    pub person: Person,
    pub skills: Vec<SkillCategory>,
    pub experience: Vec<ExperienceItem>,
    pub projects: Vec<ProjectItem>,
    pub education: Vec<EducationItem>,
}

/// The text of an optional string field, as a sequence of characters.
pub open spec fn opt_text(o: Option<String>) -> Option<Seq<char>> {
    match o {
        Option::Some(s) => Option::Some(s@),
        Option::None => Option::None,
    }
}

} // verus!
