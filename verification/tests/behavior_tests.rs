use srg::document::{Document, EducationItem, ExperienceItem, Person, SkillCategory};
use srg::layout::{FieldOrContainer, FieldPart, Layout, LayoutError, parse_field_parts};
use srg::render::{RenderError, generate_test_html};

fn plain_person(name: &str) -> Person {
    Person {
        name: name.to_string(),
        headline: None,
        email: None,
        phone: None,
        location: None,
        website: None,
        summary: None,
    }
}

fn empty_document(name: &str) -> Document {
    Document {
        person: plain_person(name),
        skills: vec![],
        experience: vec![],
        projects: vec![],
        education: vec![],
    }
}

#[test]
fn test_token_split_mixed() {
    let parts = parse_field_parts("a \"b\" c");
    assert_eq!(
        parts,
        vec![
            FieldPart::Field("a".to_string()),
            FieldPart::Literal("b".to_string()),
            FieldPart::Field("c".to_string())
        ]
    );
}

#[test]
fn test_token_split_literal_with_spaces() {
    let parts = parse_field_parts("\" - \"");
    assert_eq!(parts, vec![FieldPart::Literal(" - ".to_string())]);
}

#[test]
fn test_token_split_unclosed_quote() {
    let parts = parse_field_parts("\"x");
    assert_eq!(parts, vec![FieldPart::Literal("x".to_string())]);
}

#[test]
fn test_token_split_empty_quotes() {
    let parts = parse_field_parts("a \"\"");
    assert_eq!(
        parts,
        vec![FieldPart::Field("a".to_string()), FieldPart::Literal("".to_string())]
    );
}

#[test]
fn test_unknown_theme_rejected() {
    let r = Layout::from_theme("no-such-theme");
    assert_eq!(r.unwrap_err(), LayoutError::UnknownTheme);
}

#[test]
fn test_known_themes_load() {
    let minimal = Layout::from_theme("minimal").unwrap();
    assert!(!minimal.sections.is_empty());
    let jake = Layout::from_theme("jake").unwrap();
    assert!(!jake.sections.is_empty());
}

#[test]
fn test_unknown_template_rejected() {
    let layout = Layout::parse("person\n  name\n").unwrap();
    let doc = empty_document("X");
    let r = generate_test_html(&doc, "fancy", &layout);
    assert_eq!(r.unwrap_err(), RenderError::UnknownTemplate);
}

#[test]
fn test_escape_round_trip() {
    let layout = Layout::parse("person\n  name\n").unwrap();
    let doc = empty_document("A <b> & \"q\"");
    let html = generate_test_html(&doc, "minimal", &layout).unwrap();
    assert!(html.contains("A &lt;b&gt; &amp; &quot;q&quot;"));
    assert!(!html.contains("<b>"));
}

#[test]
fn test_literal_token_escaped() {
    let layout = Layout::parse("person\n  \"<raw>\" name\n").unwrap();
    let doc = empty_document("X");
    let html = generate_test_html(&doc, "minimal", &layout).unwrap();
    assert!(html.contains("&lt;raw&gt;"));
    assert!(!html.contains("<raw>"));
}

#[test]
fn test_empty_highlights_render_nothing() {
    let layout = Layout::parse("experience\n  highlights\n").unwrap();
    let mut doc = empty_document("X");
    doc.experience = vec![ExperienceItem {
        title: "T".to_string(),
        company: "C".to_string(),
        location: None,
        start: None,
        end: None,
        summary: None,
        highlights: vec![],
    }];
    let html = generate_test_html(&doc, "minimal", &layout).unwrap();
    assert!(!html.contains("<ul"));
    assert!(!html.contains("<li"));
}

#[test]
fn test_highlights_one_item_per_string() {
    let layout = Layout::parse("experience\n  highlights\n").unwrap();
    let mut doc = empty_document("X");
    doc.experience = vec![ExperienceItem {
        title: "T".to_string(),
        company: "C".to_string(),
        location: None,
        start: None,
        end: None,
        summary: None,
        highlights: vec!["one".to_string(), "two".to_string(), "three".to_string()],
    }];
    let html = generate_test_html(&doc, "minimal", &layout).unwrap();
    assert_eq!(html.matches("<li>").count(), 3);
    assert!(html.contains("<li>one</li>"));
    assert!(html.contains("<li>two</li>"));
    assert!(html.contains("<li>three</li>"));
}

#[test]
fn test_container_parses_and_round_trips() {
    let layout = Layout::parse("person\n  contact:\n    email\n    phone\n").unwrap();
    assert_eq!(layout.sections.len(), 1);
    assert_eq!(layout.sections[0].fields.len(), 1);
    match &layout.sections[0].fields[0] {
        FieldOrContainer::Container(c) => {
            assert_eq!(c.class_name, "contact");
            assert_eq!(c.fields.len(), 2);
            assert_eq!(c.fields[0].parts, vec![FieldPart::Field("email".to_string())]);
            assert_eq!(c.fields[1].parts, vec![FieldPart::Field("phone".to_string())]);
        },
        FieldOrContainer::Field(_) => panic!("expected a container"),
    }
}

#[test]
fn test_class_prefixed_field() {
    let layout = Layout::parse("person\n  label: name \"x\"\n").unwrap();
    match &layout.sections[0].fields[0] {
        FieldOrContainer::Field(f) => {
            assert_eq!(f.class_name, Some("label".to_string()));
            assert_eq!(
                f.parts,
                vec![FieldPart::Field("name".to_string()), FieldPart::Literal("x".to_string())]
            );
        },
        FieldOrContainer::Container(_) => panic!("expected a field"),
    }
}

#[test]
fn test_deep_indent_without_container() {
    let layout = Layout::parse("person\n    name\n").unwrap();
    assert_eq!(layout.sections[0].fields.len(), 1);
    match &layout.sections[0].fields[0] {
        FieldOrContainer::Field(f) => {
            assert_eq!(f.class_name, None);
            assert_eq!(f.parts, vec![FieldPart::Field("name".to_string())]);
        },
        FieldOrContainer::Container(_) => panic!("expected a field"),
    }
}

#[test]
fn test_empty_skills_section_hidden() {
    let layout = Layout::parse("skills\n").unwrap();
    let doc = empty_document("X");
    let html = generate_test_html(&doc, "minimal", &layout).unwrap();
    assert!(!html.contains("Skills"));
}

#[test]
fn test_absent_summary_section_hidden() {
    let layout = Layout::parse("summary\n").unwrap();
    let doc = empty_document("X");
    let html = generate_test_html(&doc, "minimal", &layout).unwrap();
    assert!(!html.contains("Summary"));
}

#[test]
fn test_unknown_section_skipped() {
    let layout = Layout::parse("banana\n  name\n").unwrap();
    let doc = empty_document("X");
    let html = generate_test_html(&doc, "minimal", &layout).unwrap();
    assert!(!html.contains("banana"));
}

#[test]
fn test_skills_joined_with_commas() {
    let layout = Layout::parse("skills\n").unwrap();
    let mut doc = empty_document("X");
    doc.skills = vec![SkillCategory {
        name: "Tools".to_string(),
        items: vec!["git".to_string(), "make".to_string(), "sed".to_string()],
    }];
    let html = generate_test_html(&doc, "minimal", &layout).unwrap();
    assert!(html.contains("git, make, sed"));
    assert!(html.contains("Tools"));
}

#[test]
fn test_education_details_list() {
    let layout = Layout::parse("education\n  degree\n  details\n").unwrap();
    let mut doc = empty_document("X");
    doc.education = vec![EducationItem {
        degree: "BS".to_string(),
        institution: "U".to_string(),
        location: None,
        start: None,
        end: None,
        details: vec!["Honors".to_string()],
    }];
    let html = generate_test_html(&doc, "minimal", &layout).unwrap();
    assert!(html.contains("<li>Honors</li>"));
    assert!(html.contains("BS"));
}

#[test]
fn test_empty_list_sections_hidden() {
    let layout = Layout::parse("experience\n  title\n\nprojects\n  name\n\neducation\n  degree\n")
        .unwrap();
    let doc = empty_document("X");
    let html = generate_test_html(&doc, "minimal", &layout).unwrap();
    assert!(!html.contains("Experience"));
    assert!(!html.contains("Projects"));
    assert!(!html.contains("Education"));
}

#[test]
fn test_duplicate_sections_render_twice() {
    let layout = Layout::parse("summary\n\nsummary\n").unwrap();
    let mut doc = empty_document("X");
    doc.person.summary = Some("Twice".to_string());
    let html = generate_test_html(&doc, "minimal", &layout).unwrap();
    assert_eq!(html.matches("Twice").count(), 2);
}

#[test]
fn test_absent_reference_contributes_empty() {
    let layout = Layout::parse("experience\n  start \" - \" end\n").unwrap();
    let mut doc = empty_document("X");
    doc.experience = vec![ExperienceItem {
        title: "T".to_string(),
        company: "C".to_string(),
        location: None,
        start: Some("2020".to_string()),
        end: None,
        summary: None,
        highlights: vec![],
    }];
    let html = generate_test_html(&doc, "minimal", &layout).unwrap();
    // the wrapping element and the literal still appear; the absent
    // value contributes the empty string
    assert!(html.contains("<p>2020 - </p>"));
}

#[test]
fn test_website_rendered_as_link() {
    let layout = Layout::parse("person\n  website\n").unwrap();
    let mut doc = empty_document("X");
    doc.person.website = Some("https://example.org".to_string());
    let html = generate_test_html(&doc, "minimal", &layout).unwrap();
    assert!(html.contains("href=\"https://example.org\""));
    assert!(html.contains(">https://example.org</a>"));
}
