//! The renderer: walks a layout tree together with a document and
//! produces the final markup string. Fields that are exactly one
//! reference to a known field name become structured fragments with a
//! distinct tag and class; everything else becomes a generic inline
//! fragment. Every interpolated value and every literal token is
//! escaped before insertion.
use vstd::prelude::*;
use vstd::string::StringExecFns;
use crate::document::{Document, EducationItem, ExperienceItem, Person, ProjectItem, SkillCategory,
    opt_text};
use crate::layout::{Field, FieldOrContainer, FieldPart, FieldPartView, FieldView, Layout,
    LayoutView, EntryView, Section, SectionView, entries_view, fields_view, parts_view};
use crate::strutil::{chars_of, push_char, str_eq};

verus! {

// ---------------------------------------------------------------------
// Escaping
// ---------------------------------------------------------------------

/// The escaped form of one character: the five markup-significant
/// characters become entities, every other character stands alone.
pub open spec fn escape_char(c: char) -> Seq<char> {
    if c == '&' {
        "&amp;"@
    } else if c == '<' {
        "&lt;"@
    } else if c == '>' {
        "&gt;"@
    } else if c == '"' {
        "&quot;"@
    } else if c == '\'' {
        "&#39;"@
    } else {
        seq![c]
    }
}

/// The escaped form of a text: each character escaped, in order.
pub open spec fn escape_text(s: Seq<char>) -> Seq<char>
    decreases s.len(),
{
    if s.len() == 0 {
        Seq::<char>::empty()
    } else {
        escape_text(s.drop_last()) + escape_char(s.last())
    }
}

/// Appends the escaped form of `s`.
fn append_escaped(out: &mut String, s: &str)
    ensures
        final(out)@ == old(out)@ + escape_text(s@),
{
    let ghost base = old(out)@;
    let cs = chars_of(s);
    let n = cs.len();
    let mut i: usize = 0;
    proof {
        assert(base + escape_text(cs@.take(0)) =~= base);
    }
    while i < n
        invariant
            n == cs@.len(),
            cs@ == s@,
            i <= n,
            out@ == base + escape_text(cs@.take(i as int)),
        decreases n - i,
    {
        let c = cs[i];
        proof {
            assert(cs@.take(i as int + 1).drop_last() =~= cs@.take(i as int));
            assert(cs@.take(i as int + 1).last() == c);
        }
        let ghost prev = out@;
        if c == '&' {
            out.append("&amp;");
        } else if c == '<' {
            out.append("&lt;");
        } else if c == '>' {
            out.append("&gt;");
        } else if c == '"' {
            out.append("&quot;");
        } else if c == '\'' {
            out.append("&#39;");
        } else {
            push_char(out, c);
            proof {
                assert(out@ =~= prev + seq![c]);
            }
        }
        i = i + 1;
        proof {
            assert(out@ =~= base + escape_text(cs@.take(i as int)));
        }
    }
    proof {
        assert(cs@.take(n as int) =~= s@);
    }
}

// ---------------------------------------------------------------------
// Entities: what a field reference is resolved against
// ---------------------------------------------------------------------

/// The entity a section's fields are rendered against: the person, or
/// one item of a list section.
#[derive(Clone, Copy)]
pub enum Entity<'a> {
    Person(&'a Person),
    Experience(&'a ExperienceItem),
    Project(&'a ProjectItem),
    Education(&'a EducationItem),
}

/// The value of an entity, for specification.
pub enum EntityVal {
    Person(Person),
    Experience(ExperienceItem),
    Project(ProjectItem),
    Education(EducationItem),
}

impl<'a> View for Entity<'a> {
    type V = EntityVal;

    open spec fn view(&self) -> EntityVal {
        match self {
            Entity::Person(p) => EntityVal::Person(**p),
            Entity::Experience(x) => EntityVal::Experience(**x),
            Entity::Project(x) => EntityVal::Project(**x),
            Entity::Education(x) => EntityVal::Education(**x),
        }
    }
}

/// The person's value for a referenced field name, if any.
pub open spec fn person_value(p: Person, name: Seq<char>) -> Option<Seq<char>> {
    if name == "name"@ {
        Option::Some(p.name@)
    } else if name == "headline"@ {
        opt_text(p.headline)
    } else if name == "email"@ {
        opt_text(p.email)
    } else if name == "phone"@ {
        opt_text(p.phone)
    } else if name == "location"@ {
        opt_text(p.location)
    } else if name == "website"@ {
        opt_text(p.website)
    } else {
        Option::None
    }
}

/// An experience item's value for a referenced field name, if any.
pub open spec fn experience_value(x: ExperienceItem, name: Seq<char>) -> Option<Seq<char>> {
    if name == "title"@ {
        Option::Some(x.title@)
    } else if name == "company"@ {
        Option::Some(x.company@)
    } else if name == "location"@ {
        opt_text(x.location)
    } else if name == "start"@ {
        opt_text(x.start)
    } else if name == "end"@ {
        opt_text(x.end)
    } else if name == "summary"@ {
        opt_text(x.summary)
    } else {
        Option::None
    }
}

/// A project item's value for a referenced field name, if any.
pub open spec fn project_value(x: ProjectItem, name: Seq<char>) -> Option<Seq<char>> {
    if name == "name"@ {
        Option::Some(x.name@)
    } else if name == "url"@ {
        opt_text(x.url)
    } else if name == "summary"@ {
        opt_text(x.summary)
    } else {
        Option::None
    }
}

/// An education item's value for a referenced field name, if any.
pub open spec fn education_value(x: EducationItem, name: Seq<char>) -> Option<Seq<char>> {
    if name == "degree"@ {
        Option::Some(x.degree@)
    } else if name == "institution"@ {
        Option::Some(x.institution@)
    } else if name == "location"@ {
        opt_text(x.location)
    } else if name == "start"@ {
        opt_text(x.start)
    } else if name == "end"@ {
        opt_text(x.end)
    } else {
        Option::None
    }
}

/// The value an entity resolves a referenced field name to, if any.
/// Absent optional values and unknown names resolve to nothing.
pub open spec fn entity_value(e: EntityVal, name: Seq<char>) -> Option<Seq<char>> {
    match e {
        EntityVal::Person(p) => person_value(p, name),
        EntityVal::Experience(x) => experience_value(x, name),
        EntityVal::Project(x) => project_value(x, name),
        EntityVal::Education(x) => education_value(x, name),
    }
}

fn clone_opt(o: &Option<String>) -> (r: Option<String>)
    ensures
        opt_text(r) == opt_text(*o),
{
    match o {
        Some(s) => Some(s.clone()),
        None => None,
    }
}

/// Resolves a referenced field name against an entity.
pub fn resolve_value(e: Entity<'_>, name: &str) -> (r: Option<String>)
    ensures
        opt_text(r) == entity_value(e@, name@),
{
    match e {
        Entity::Person(p) => {
            if str_eq(name, "name") {
                Some(p.name.clone())
            } else if str_eq(name, "headline") {
                clone_opt(&p.headline)
            } else if str_eq(name, "email") {
                clone_opt(&p.email)
            } else if str_eq(name, "phone") {
                clone_opt(&p.phone)
            } else if str_eq(name, "location") {
                clone_opt(&p.location)
            } else if str_eq(name, "website") {
                clone_opt(&p.website)
            } else {
                None
            }
        },
        Entity::Experience(x) => {
            if str_eq(name, "title") {
                Some(x.title.clone())
            } else if str_eq(name, "company") {
                Some(x.company.clone())
            } else if str_eq(name, "location") {
                clone_opt(&x.location)
            } else if str_eq(name, "start") {
                clone_opt(&x.start)
            } else if str_eq(name, "end") {
                clone_opt(&x.end)
            } else if str_eq(name, "summary") {
                clone_opt(&x.summary)
            } else {
                None
            }
        },
        Entity::Project(x) => {
            if str_eq(name, "name") {
                Some(x.name.clone())
            } else if str_eq(name, "url") {
                clone_opt(&x.url)
            } else if str_eq(name, "summary") {
                clone_opt(&x.summary)
            } else {
                None
            }
        },
        Entity::Education(x) => {
            if str_eq(name, "degree") {
                Some(x.degree.clone())
            } else if str_eq(name, "institution") {
                Some(x.institution.clone())
            } else if str_eq(name, "location") {
                clone_opt(&x.location)
            } else if str_eq(name, "start") {
                clone_opt(&x.start)
            } else if str_eq(name, "end") {
                clone_opt(&x.end)
            } else {
                None
            }
        },
    }
}

// ---------------------------------------------------------------------
// Structured fragments for known single-reference fields
// ---------------------------------------------------------------------

/// A value wrapped in fixed markup: prefix, escaped value, suffix.
pub open spec fn wrap_frag(prefix: Seq<char>, v: Seq<char>, suffix: Seq<char>) -> Seq<char> {
    prefix + escape_text(v) + suffix
}

/// An optional value wrapped in fixed markup; nothing when absent.
pub open spec fn opt_wrap(prefix: Seq<char>, o: Option<String>, suffix: Seq<char>) -> Seq<char> {
    match o {
        Option::Some(s) => wrap_frag(prefix, s@, suffix),
        Option::None => Seq::<char>::empty(),
    }
}

/// A link whose href and label are both the escaped value.
pub open spec fn link_frag(prefix: Seq<char>, url: Seq<char>, suffix: Seq<char>) -> Seq<char> {
    prefix + escape_text(url) + "\">"@ + escape_text(url) + suffix
}

/// An optional link; nothing when absent.
pub open spec fn opt_link(prefix: Seq<char>, o: Option<String>, suffix: Seq<char>) -> Seq<char> {
    match o {
        Option::Some(u) => link_frag(prefix, u@, suffix),
        Option::None => Seq::<char>::empty(),
    }
}

/// The list items of an unordered list: one per string, escaped, in
/// order.
pub open spec fn li_items(items: Seq<String>) -> Seq<char>
    decreases items.len(),
{
    if items.len() == 0 {
        Seq::<char>::empty()
    } else {
        li_items(items.drop_last()) + "          <li>"@ + escape_text(items.last()@) + "</li>\n"@
    }
}

/// A whole unordered list when the items are non-empty; nothing when
/// they are empty.
pub open spec fn ul_block(open_tag: Seq<char>, items: Seq<String>) -> Seq<char> {
    if items.len() == 0 {
        Seq::<char>::empty()
    } else {
        open_tag + li_items(items) + "        </ul>\n"@
    }
}

/// The structured fragment of a known single-reference field, or
/// nothing when the name is not specialized for this entity kind.
/// A known name whose optional value is absent gives an empty
/// fragment: the field is known, but renders nothing.
pub open spec fn person_known(p: Person, name: Seq<char>) -> Option<Seq<char>> {
    if name == "name"@ {
        Option::Some(wrap_frag("      <h1 class=\"person-name\">"@, p.name@, "</h1>\n"@))
    } else if name == "headline"@ {
        Option::Some(opt_wrap("      <p class=\"person-headline\">"@, p.headline, "</p>\n"@))
    } else if name == "email"@ {
        Option::Some(opt_wrap("      <span class=\"person-email\">"@, p.email, "</span>\n"@))
    } else if name == "phone"@ {
        Option::Some(opt_wrap("      <span class=\"person-phone\">"@, p.phone, "</span>\n"@))
    } else if name == "location"@ {
        Option::Some(opt_wrap("      <span class=\"person-location\">"@, p.location, "</span>\n"@))
    } else if name == "website"@ {
        Option::Some(opt_link("      <a class=\"person-website\" href=\""@, p.website, "</a>\n"@))
    } else {
        Option::None
    }
}

/// As `person_known`, for an experience item.
pub open spec fn experience_known(x: ExperienceItem, name: Seq<char>) -> Option<Seq<char>> {
    if name == "title"@ {
        Option::Some(wrap_frag("        <h3 class=\"experience-title\">"@, x.title@, "</h3>\n"@))
    } else if name == "company"@ {
        Option::Some(wrap_frag("        <p class=\"experience-company\">"@, x.company@, "</p>\n"@))
    } else if name == "summary"@ {
        Option::Some(opt_wrap("        <p class=\"experience-summary\">"@, x.summary, "</p>\n"@))
    } else if name == "highlights"@ {
        Option::Some(ul_block("        <ul class=\"experience-highlights\">\n"@, x.highlights@))
    } else {
        Option::None
    }
}

/// As `person_known`, for a project item.
pub open spec fn project_known(x: ProjectItem, name: Seq<char>) -> Option<Seq<char>> {
    if name == "name"@ {
        Option::Some(wrap_frag("        <h3 class=\"projects-name\">"@, x.name@, "</h3>\n"@))
    } else if name == "url"@ {
        Option::Some(
            opt_link("        <p class=\"projects-url\"><a href=\""@, x.url, "</a></p>\n"@),
        )
    } else if name == "summary"@ {
        Option::Some(opt_wrap("        <p class=\"projects-summary\">"@, x.summary, "</p>\n"@))
    } else {
        Option::None
    }
}

/// As `person_known`, for an education item.
pub open spec fn education_known(x: EducationItem, name: Seq<char>) -> Option<Seq<char>> {
    if name == "degree"@ {
        Option::Some(wrap_frag("        <h3 class=\"education-degree\">"@, x.degree@, "</h3>\n"@))
    } else if name == "institution"@ {
        Option::Some(
            wrap_frag("        <p class=\"education-institution\">"@, x.institution@, "</p>\n"@),
        )
    } else if name == "details"@ {
        Option::Some(ul_block("        <ul class=\"education-details\">\n"@, x.details@))
    } else {
        Option::None
    }
}

/// The structured fragment an entity gives a known field name.
pub open spec fn entity_known(e: EntityVal, name: Seq<char>) -> Option<Seq<char>> {
    match e {
        EntityVal::Person(p) => person_known(p, name),
        EntityVal::Experience(x) => experience_known(x, name),
        EntityVal::Project(x) => project_known(x, name),
        EntityVal::Education(x) => education_known(x, name),
    }
}

/// Appends `prefix`, the escaped value, and `suffix`.
fn append_wrap(out: &mut String, prefix: &str, v: &str, suffix: &str)
    ensures
        final(out)@ == old(out)@ + wrap_frag(prefix@, v@, suffix@),
{
    out.append(prefix);
    append_escaped(out, v);
    out.append(suffix);
    proof {
        assert(out@ =~= old(out)@ + wrap_frag(prefix@, v@, suffix@));
    }
}

/// Appends a wrapped optional value; appends nothing when absent.
fn append_opt_wrap(out: &mut String, prefix: &str, o: &Option<String>, suffix: &str)
    ensures
        final(out)@ == old(out)@ + opt_wrap(prefix@, *o, suffix@),
{
    match o {
        Some(s) => {
            append_wrap(out, prefix, s.as_str(), suffix);
        },
        None => {
            proof {
                assert(out@ =~= old(out)@ + opt_wrap(prefix@, *o, suffix@));
            }
        },
    }
}

/// Appends an optional link; appends nothing when absent.
fn append_opt_link(out: &mut String, prefix: &str, o: &Option<String>, suffix: &str)
    ensures
        final(out)@ == old(out)@ + opt_link(prefix@, *o, suffix@),
{
    match o {
        Some(u) => {
            out.append(prefix);
            append_escaped(out, u.as_str());
            out.append("\">");
            append_escaped(out, u.as_str());
            out.append(suffix);
            proof {
                assert(out@ =~= old(out)@ + link_frag(prefix@, u@, suffix@));
            }
        },
        None => {
            proof {
                assert(out@ =~= old(out)@ + opt_link(prefix@, *o, suffix@));
            }
        },
    }
}

/// Appends a whole unordered list, or nothing for an empty item list.
fn append_ul(out: &mut String, open_tag: &str, items: &Vec<String>)
    ensures
        final(out)@ == old(out)@ + ul_block(open_tag@, items@),
{
    let ghost base = old(out)@;
    if items.len() == 0 {
        proof {
            assert(out@ =~= base + ul_block(open_tag@, items@));
        }
        return ;
    }
    out.append(open_tag);
    let n = items.len();
    let mut i: usize = 0;
    proof {
        assert(li_items(items@.take(0)) =~= Seq::<char>::empty());
        assert(out@ =~= base + open_tag@ + li_items(items@.take(0)));
    }
    while i < n
        invariant
            n == items@.len(),
            i <= n,
            out@ == base + open_tag@ + li_items(items@.take(i as int)),
        decreases n - i,
    {
        proof {
            assert(items@.take(i as int + 1).drop_last() =~= items@.take(i as int));
            assert(items@.take(i as int + 1).last() == items@[i as int]);
        }
        out.append("          <li>");
        append_escaped(out, items[i].as_str());
        out.append("</li>\n");
        i = i + 1;
        proof {
            assert(out@ =~= base + open_tag@ + li_items(items@.take(i as int)));
        }
    }
    out.append("        </ul>\n");
    proof {
        assert(items@.take(n as int) =~= items@);
        assert(out@ =~= base + ul_block(open_tag@, items@));
    }
}

/// Appends the structured fragment of a known field name and reports
/// whether the name was known for this entity kind.
fn append_known(out: &mut String, e: Entity<'_>, name: &str) -> (hit: bool)
    ensures
        hit == (entity_known(e@, name@) is Some),
        final(out)@ == old(out)@ + match entity_known(e@, name@) {
            Option::Some(frag) => frag,
            Option::None => Seq::<char>::empty(),
        },
{
    let ghost base = old(out)@;
    proof {
        assert(base =~= base + Seq::<char>::empty());
    }
    match e {
        Entity::Person(p) => {
            if str_eq(name, "name") {
                append_wrap(out, "      <h1 class=\"person-name\">", p.name.as_str(), "</h1>\n");
                true
            } else if str_eq(name, "headline") {
                append_opt_wrap(out, "      <p class=\"person-headline\">", &p.headline, "</p>\n");
                true
            } else if str_eq(name, "email") {
                append_opt_wrap(out, "      <span class=\"person-email\">", &p.email, "</span>\n");
                true
            } else if str_eq(name, "phone") {
                append_opt_wrap(out, "      <span class=\"person-phone\">", &p.phone, "</span>\n");
                true
            } else if str_eq(name, "location") {
                append_opt_wrap(
                    out,
                    "      <span class=\"person-location\">",
                    &p.location,
                    "</span>\n",
                );
                true
            } else if str_eq(name, "website") {
                append_opt_link(
                    out,
                    "      <a class=\"person-website\" href=\"",
                    &p.website,
                    "</a>\n",
                );
                true
            } else {
                false
            }
        },
        Entity::Experience(x) => {
            if str_eq(name, "title") {
                append_wrap(
                    out,
                    "        <h3 class=\"experience-title\">",
                    x.title.as_str(),
                    "</h3>\n",
                );
                true
            } else if str_eq(name, "company") {
                append_wrap(
                    out,
                    "        <p class=\"experience-company\">",
                    x.company.as_str(),
                    "</p>\n",
                );
                true
            } else if str_eq(name, "summary") {
                append_opt_wrap(
                    out,
                    "        <p class=\"experience-summary\">",
                    &x.summary,
                    "</p>\n",
                );
                true
            } else if str_eq(name, "highlights") {
                append_ul(out, "        <ul class=\"experience-highlights\">\n", &x.highlights);
                true
            } else {
                false
            }
        },
        Entity::Project(x) => {
            if str_eq(name, "name") {
                append_wrap(
                    out,
                    "        <h3 class=\"projects-name\">",
                    x.name.as_str(),
                    "</h3>\n",
                );
                true
            } else if str_eq(name, "url") {
                append_opt_link(
                    out,
                    "        <p class=\"projects-url\"><a href=\"",
                    &x.url,
                    "</a></p>\n",
                );
                true
            } else if str_eq(name, "summary") {
                append_opt_wrap(
                    out,
                    "        <p class=\"projects-summary\">",
                    &x.summary,
                    "</p>\n",
                );
                true
            } else {
                false
            }
        },
        Entity::Education(x) => {
            if str_eq(name, "degree") {
                append_wrap(
                    out,
                    "        <h3 class=\"education-degree\">",
                    x.degree.as_str(),
                    "</h3>\n",
                );
                true
            } else if str_eq(name, "institution") {
                append_wrap(
                    out,
                    "        <p class=\"education-institution\">",
                    x.institution.as_str(),
                    "</p>\n",
                );
                true
            } else if str_eq(name, "details") {
                append_ul(out, "        <ul class=\"education-details\">\n", &x.details);
                true
            } else {
                false
            }
        },
    }
}

// ---------------------------------------------------------------------
// Field rendering
// ---------------------------------------------------------------------

/// The opening of a generic inline fragment, at the entity's depth.
pub open spec fn inline_open(e: EntityVal) -> Seq<char> {
    match e {
        EntityVal::Person(_) => "      <p>"@,
        _ => "        <p>"@,
    }
}

/// One token's contribution to a generic inline fragment: literal text
/// escaped; a reference resolved and escaped, an absent value
/// contributing the empty string.
pub open spec fn part_frag(e: EntityVal, p: FieldPartView) -> Seq<char> {
    match p {
        FieldPartView::Literal(t) => escape_text(t),
        FieldPartView::Reference(n) => match entity_value(e, n) {
            Option::Some(v) => escape_text(v),
            Option::None => Seq::<char>::empty(),
        },
    }
}

/// The concatenation of every token's contribution, in order.
pub open spec fn inline_parts(e: EntityVal, parts: Seq<FieldPartView>) -> Seq<char>
    decreases parts.len(),
{
    if parts.len() == 0 {
        Seq::<char>::empty()
    } else {
        inline_parts(e, parts.drop_last()) + part_frag(e, parts.last())
    }
}

/// A whole generic inline fragment: one wrapping element around the
/// token contributions.
pub open spec fn inline_frag(e: EntityVal, parts: Seq<FieldPartView>) -> Seq<char> {
    inline_open(e) + inline_parts(e, parts) + "</p>\n"@
}

/// What one field renders to: nothing for a field with no parts; the
/// structured fragment for a single reference to a known name; a
/// generic inline fragment otherwise.
pub open spec fn render_field_frag(e: EntityVal, f: FieldView) -> Seq<char> {
    if f.parts.len() == 0 {
        Seq::<char>::empty()
    } else if f.parts.len() == 1 {
        match f.parts[0] {
            FieldPartView::Reference(n) => match entity_known(e, n) {
                Option::Some(frag) => frag,
                Option::None => inline_frag(e, f.parts),
            },
            FieldPartView::Literal(_) => inline_frag(e, f.parts),
        }
    } else {
        inline_frag(e, f.parts)
    }
}

/// What a list of fields renders to, in order.
pub open spec fn render_fields_frag(e: EntityVal, fs: Seq<FieldView>) -> Seq<char>
    decreases fs.len(),
{
    if fs.len() == 0 {
        Seq::<char>::empty()
    } else {
        render_fields_frag(e, fs.drop_last()) + render_field_frag(e, fs.last())
    }
}

/// What one section entry renders to: a container renders its fields
/// in order, like a section's own field list.
pub open spec fn entry_frag(e: EntityVal, en: EntryView) -> Seq<char> {
    match en {
        EntryView::Field(f) => render_field_frag(e, f),
        EntryView::Container(c) => render_fields_frag(e, c.fields),
    }
}

/// What a list of section entries renders to, in order.
pub open spec fn entries_frag(e: EntityVal, es: Seq<EntryView>) -> Seq<char>
    decreases es.len(),
{
    if es.len() == 0 {
        Seq::<char>::empty()
    } else {
        entries_frag(e, es.drop_last()) + entry_frag(e, es.last())
    }
}

/// Appends a generic inline fragment.
fn append_inline(out: &mut String, e: Entity<'_>, parts: &Vec<FieldPart>)
    ensures
        final(out)@ == old(out)@ + inline_frag(e@, parts_view(parts@)),
{
    let ghost base = old(out)@;
    match e {
        Entity::Person(_) => out.append("      <p>"),
        _ => out.append("        <p>"),
    }
    let n = parts.len();
    let mut i: usize = 0;
    proof {
        assert(inline_parts(e@, parts_view(parts@).take(0)) =~= Seq::<char>::empty());
        assert(out@ =~= base + inline_open(e@) + inline_parts(e@, parts_view(parts@).take(0)));
    }
    while i < n
        invariant
            n == parts@.len(),
            i <= n,
            out@ == base + inline_open(e@) + inline_parts(e@, parts_view(parts@).take(i as int)),
        decreases n - i,
    {
        proof {
            assert(parts_view(parts@).take(i as int + 1).drop_last() =~= parts_view(
                parts@,
            ).take(i as int));
            assert(parts_view(parts@).take(i as int + 1).last() == parts@[i as int]@);
        }
        match &parts[i] {
            FieldPart::Literal(t) => {
                append_escaped(out, t.as_str());
            },
            FieldPart::Field(nm) => {
                match resolve_value(e, nm.as_str()) {
                    Some(v) => {
                        append_escaped(out, v.as_str());
                    },
                    None => {},
                }
            },
        }
        i = i + 1;
        proof {
            assert(out@ =~= base + inline_open(e@) + inline_parts(
                e@,
                parts_view(parts@).take(i as int),
            ));
        }
    }
    out.append("</p>\n");
    proof {
        assert(parts_view(parts@).take(n as int) =~= parts_view(parts@));
        assert(out@ =~= base + inline_frag(e@, parts_view(parts@)));
    }
}

/// Appends what one field renders to.
fn render_field_exec(out: &mut String, e: Entity<'_>, f: &Field)
    ensures
        final(out)@ == old(out)@ + render_field_frag(e@, f@),
{
    let ghost base = old(out)@;
    if f.parts.len() == 0 {
        proof {
            assert(out@ =~= base + render_field_frag(e@, f@));
        }
        return ;
    }
    if f.parts.len() == 1 {
        let is_known: bool = match &f.parts[0] {
            FieldPart::Field(nm) => append_known(out, e, nm.as_str()),
            FieldPart::Literal(_) => false,
        };
        proof {
            assert(parts_view(f.parts@)[0] == f.parts@[0]@);
        }
        if is_known {
            return ;
        }
        proof {
            assert(out@ =~= base);
        }
    }
    append_inline(out, e, &f.parts);
}

/// Appends what a list of fields renders to.
fn render_fields_exec(out: &mut String, e: Entity<'_>, fs: &Vec<Field>)
    ensures
        final(out)@ == old(out)@ + render_fields_frag(e@, fields_view(fs@)),
{
    let ghost base = old(out)@;
    let n = fs.len();
    let mut i: usize = 0;
    proof {
        assert(render_fields_frag(e@, fields_view(fs@).take(0)) =~= Seq::<char>::empty());
        assert(out@ =~= base + render_fields_frag(e@, fields_view(fs@).take(0)));
    }
    while i < n
        invariant
            n == fs@.len(),
            i <= n,
            out@ == base + render_fields_frag(e@, fields_view(fs@).take(i as int)),
        decreases n - i,
    {
        proof {
            assert(fields_view(fs@).take(i as int + 1).drop_last() =~= fields_view(fs@).take(
                i as int,
            ));
            assert(fields_view(fs@).take(i as int + 1).last() == fs@[i as int]@);
        }
        render_field_exec(out, e, &fs[i]);
        i = i + 1;
        proof {
            assert(out@ =~= base + render_fields_frag(e@, fields_view(fs@).take(i as int)));
        }
    }
    proof {
        assert(fields_view(fs@).take(n as int) =~= fields_view(fs@));
    }
}

/// Appends what a list of section entries renders to.
fn render_entries_exec(out: &mut String, e: Entity<'_>, es: &Vec<FieldOrContainer>)
    ensures
        final(out)@ == old(out)@ + entries_frag(e@, entries_view(es@)),
{
    let ghost base = old(out)@;
    let n = es.len();
    let mut i: usize = 0;
    proof {
        assert(entries_frag(e@, entries_view(es@).take(0)) =~= Seq::<char>::empty());
        assert(out@ =~= base + entries_frag(e@, entries_view(es@).take(0)));
    }
    while i < n
        invariant
            n == es@.len(),
            i <= n,
            out@ == base + entries_frag(e@, entries_view(es@).take(i as int)),
        decreases n - i,
    {
        proof {
            assert(entries_view(es@).take(i as int + 1).drop_last() =~= entries_view(es@).take(
                i as int,
            ));
            assert(entries_view(es@).take(i as int + 1).last() == es@[i as int]@);
        }
        match &es[i] {
            FieldOrContainer::Field(f) => {
                render_field_exec(out, e, f);
            },
            FieldOrContainer::Container(c) => {
                render_fields_exec(out, e, &c.fields);
            },
        }
        i = i + 1;
        proof {
            assert(out@ =~= base + entries_frag(e@, entries_view(es@).take(i as int)));
        }
    }
    proof {
        assert(entries_view(es@).take(n as int) =~= entries_view(es@));
    }
}

// ---------------------------------------------------------------------
// Section rendering
// ---------------------------------------------------------------------

/// The escaped skills of one category, joined with `", "`.
pub open spec fn join_skills(items: Seq<String>) -> Seq<char>
    decreases items.len(),
{
    if items.len() == 0 {
        Seq::<char>::empty()
    } else if items.len() == 1 {
        escape_text(items[0]@)
    } else {
        join_skills(items.drop_last()) + ", "@ + escape_text(items.last()@)
    }
}

/// One category line of the skills section.
pub open spec fn skills_line(c: SkillCategory) -> Seq<char> {
    "      <p class=\"skills-category\"><strong class=\"skills-category-name\">"@ + escape_text(
        c.name@,
    ) + ":</strong> <span class=\"skills-items\">"@ + join_skills(c.items@) + "</span></p>\n"@
}

/// All category lines, in order.
pub open spec fn skills_lines(cs: Seq<SkillCategory>) -> Seq<char>
    decreases cs.len(),
{
    if cs.len() == 0 {
        Seq::<char>::empty()
    } else {
        skills_lines(cs.drop_last()) + skills_line(cs.last())
    }
}

/// The item blocks of the experience section: each item wrapped in an
/// item container, every entry of the section rendered against it.
pub open spec fn experience_items_frag(xs: Seq<ExperienceItem>, es: Seq<EntryView>) -> Seq<char>
    decreases xs.len(),
{
    if xs.len() == 0 {
        Seq::<char>::empty()
    } else {
        experience_items_frag(xs.drop_last(), es) + "      <div class=\"experience-item\">\n"@
            + entries_frag(EntityVal::Experience(xs.last()), es) + "      </div>\n"@
    }
}

/// The item blocks of the projects section.
pub open spec fn project_items_frag(xs: Seq<ProjectItem>, es: Seq<EntryView>) -> Seq<char>
    decreases xs.len(),
{
    if xs.len() == 0 {
        Seq::<char>::empty()
    } else {
        project_items_frag(xs.drop_last(), es) + "      <div class=\"projects-item\">\n"@
            + entries_frag(EntityVal::Project(xs.last()), es) + "      </div>\n"@
    }
}

/// The item blocks of the education section.
pub open spec fn education_items_frag(xs: Seq<EducationItem>, es: Seq<EntryView>) -> Seq<char>
    decreases xs.len(),
{
    if xs.len() == 0 {
        Seq::<char>::empty()
    } else {
        education_items_frag(xs.drop_last(), es) + "      <div class=\"education-item\">\n"@
            + entries_frag(EntityVal::Education(xs.last()), es) + "      </div>\n"@
    }
}

/// What one section renders to. The section name picks the section
/// renderer; an unrecognized name renders nothing. A list section
/// whose list is empty, a skills section with no categories, and a
/// summary section with no summary text render nothing at all.
pub open spec fn render_section_frag(doc: Document, s: SectionView) -> Seq<char> {
    if s.name == "person"@ {
        "    <header id=\"person\" class=\"section section-person\">\n"@ + entries_frag(
            EntityVal::Person(doc.person),
            s.entries,
        ) + "    </header>\n"@
    } else if s.name == "summary"@ {
        match doc.person.summary {
            Option::Some(t) =>
                "    <section id=\"summary\" class=\"section section-summary\">\n      <h2>Summary</h2>\n      <p class=\"summary-text\">"@
                + escape_text(t@) + "</p>\n    </section>\n"@,
            Option::None => Seq::<char>::empty(),
        }
    } else if s.name == "skills"@ {
        if doc.skills.len() == 0 {
            Seq::<char>::empty()
        } else {
            "    <section id=\"skills\" class=\"section section-skills\">\n      <h2>Skills</h2>\n"@
                + skills_lines(doc.skills@) + "    </section>\n"@
        }
    } else if s.name == "experience"@ {
        if doc.experience.len() == 0 {
            Seq::<char>::empty()
        } else {
            "    <section id=\"experience\" class=\"section section-experience\">\n      <h2>Experience</h2>\n"@
                + experience_items_frag(doc.experience@, s.entries) + "    </section>\n"@
        }
    } else if s.name == "projects"@ {
        if doc.projects.len() == 0 {
            Seq::<char>::empty()
        } else {
            "    <section id=\"projects\" class=\"section section-projects\">\n      <h2>Projects</h2>\n"@
                + project_items_frag(doc.projects@, s.entries) + "    </section>\n"@
        }
    } else if s.name == "education"@ {
        if doc.education.len() == 0 {
            Seq::<char>::empty()
        } else {
            "    <section id=\"education\" class=\"section section-education\">\n      <h2>Education</h2>\n"@
                + education_items_frag(doc.education@, s.entries) + "    </section>\n"@
        }
    } else {
        Seq::<char>::empty()
    }
}

/// What a list of sections renders to, in layout order.
pub open spec fn sections_frag(doc: Document, ss: Seq<SectionView>) -> Seq<char>
    decreases ss.len(),
{
    if ss.len() == 0 {
        Seq::<char>::empty()
    } else {
        sections_frag(doc, ss.drop_last()) + render_section_frag(doc, ss.last())
    }
}

/// Appends the escaped, `", "`-joined skills of one category.
fn append_skills_join(out: &mut String, items: &Vec<String>)
    ensures
        final(out)@ == old(out)@ + join_skills(items@),
{
    let ghost base = old(out)@;
    let n = items.len();
    let mut j: usize = 0;
    proof {
        assert(join_skills(items@.take(0)) =~= Seq::<char>::empty());
        assert(out@ =~= base + join_skills(items@.take(0)));
    }
    while j < n
        invariant
            n == items@.len(),
            j <= n,
            out@ == base + join_skills(items@.take(j as int)),
        decreases n - j,
    {
        proof {
            assert(items@.take(j as int + 1).drop_last() =~= items@.take(j as int));
            assert(items@.take(j as int + 1).last() == items@[j as int]);
            assert(items@.take(j as int + 1)[0] == items@[0]);
        }
        if j > 0 {
            out.append(", ");
        }
        append_escaped(out, items[j].as_str());
        j = j + 1;
        proof {
            assert(out@ =~= base + join_skills(items@.take(j as int)));
        }
    }
    proof {
        assert(items@.take(n as int) =~= items@);
    }
}

/// Appends what one section renders to.
fn render_section_exec(out: &mut String, doc: &Document, s: &Section)
    ensures
        final(out)@ == old(out)@ + render_section_frag(*doc, s@),
{
    let ghost base = old(out)@;
    let name = s.name.as_str();
    if str_eq(name, "person") {
        out.append("    <header id=\"person\" class=\"section section-person\">\n");
        render_entries_exec(out, Entity::Person(&doc.person), &s.fields);
        out.append("    </header>\n");
        proof {
            assert(out@ =~= base + render_section_frag(*doc, s@));
        }
    } else if str_eq(name, "summary") {
        match &doc.person.summary {
            Some(t) => {
                out.append(
                    "    <section id=\"summary\" class=\"section section-summary\">\n      <h2>Summary</h2>\n      <p class=\"summary-text\">",
                );
                append_escaped(out, t.as_str());
                out.append("</p>\n    </section>\n");
            },
            None => {},
        }
        proof {
            assert(out@ =~= base + render_section_frag(*doc, s@));
        }
    } else if str_eq(name, "skills") {
        if doc.skills.len() > 0 {
            out.append(
                "    <section id=\"skills\" class=\"section section-skills\">\n      <h2>Skills</h2>\n",
            );
            let ghost mid = out@;
            let n = doc.skills.len();
            let mut i: usize = 0;
            proof {
                assert(skills_lines(doc.skills@.take(0)) =~= Seq::<char>::empty());
                assert(out@ =~= mid + skills_lines(doc.skills@.take(0)));
            }
            while i < n
                invariant
                    n == doc.skills@.len(),
                    i <= n,
                    out@ == mid + skills_lines(doc.skills@.take(i as int)),
                decreases n - i,
            {
                proof {
                    assert(doc.skills@.take(i as int + 1).drop_last() =~= doc.skills@.take(
                        i as int,
                    ));
                    assert(doc.skills@.take(i as int + 1).last() == doc.skills@[i as int]);
                }
                let cat = &doc.skills[i];
                out.append(
                    "      <p class=\"skills-category\"><strong class=\"skills-category-name\">",
                );
                append_escaped(out, cat.name.as_str());
                out.append(":</strong> <span class=\"skills-items\">");
                append_skills_join(out, &cat.items);
                out.append("</span></p>\n");
                i = i + 1;
                proof {
                    assert(out@ =~= mid + skills_lines(doc.skills@.take(i as int)));
                }
            }
            out.append("    </section>\n");
            proof {
                assert(doc.skills@.take(n as int) =~= doc.skills@);
                assert(out@ =~= base + render_section_frag(*doc, s@));
            }
        } else {
            proof {
                assert(out@ =~= base + render_section_frag(*doc, s@));
            }
        }
    } else if str_eq(name, "experience") {
        if doc.experience.len() > 0 {
            out.append(
                "    <section id=\"experience\" class=\"section section-experience\">\n      <h2>Experience</h2>\n",
            );
            let ghost mid = out@;
            let n = doc.experience.len();
            let mut i: usize = 0;
            proof {
                assert(experience_items_frag(doc.experience@.take(0), entries_view(s.fields@))
                    =~= Seq::<char>::empty());
                assert(out@ =~= mid + experience_items_frag(
                    doc.experience@.take(0),
                    entries_view(s.fields@),
                ));
            }
            while i < n
                invariant
                    n == doc.experience@.len(),
                    i <= n,
                    out@ == mid + experience_items_frag(
                        doc.experience@.take(i as int),
                        entries_view(s.fields@),
                    ),
                decreases n - i,
            {
                proof {
                    assert(doc.experience@.take(i as int + 1).drop_last() =~= doc.experience@.take(
                        i as int,
                    ));
                    assert(doc.experience@.take(i as int + 1).last() == doc.experience@[i as int]);
                }
                out.append("      <div class=\"experience-item\">\n");
                render_entries_exec(out, Entity::Experience(&doc.experience[i]), &s.fields);
                out.append("      </div>\n");
                i = i + 1;
                proof {
                    assert(out@ =~= mid + experience_items_frag(
                        doc.experience@.take(i as int),
                        entries_view(s.fields@),
                    ));
                }
            }
            out.append("    </section>\n");
            proof {
                assert(doc.experience@.take(n as int) =~= doc.experience@);
                assert(out@ =~= base + render_section_frag(*doc, s@));
            }
        } else {
            proof {
                assert(out@ =~= base + render_section_frag(*doc, s@));
            }
        }
    } else if str_eq(name, "projects") {
        if doc.projects.len() > 0 {
            out.append(
                "    <section id=\"projects\" class=\"section section-projects\">\n      <h2>Projects</h2>\n",
            );
            let ghost mid = out@;
            let n = doc.projects.len();
            let mut i: usize = 0;
            proof {
                assert(project_items_frag(doc.projects@.take(0), entries_view(s.fields@))
                    =~= Seq::<char>::empty());
                assert(out@ =~= mid + project_items_frag(
                    doc.projects@.take(0),
                    entries_view(s.fields@),
                ));
            }
            while i < n
                invariant
                    n == doc.projects@.len(),
                    i <= n,
                    out@ == mid + project_items_frag(
                        doc.projects@.take(i as int),
                        entries_view(s.fields@),
                    ),
                decreases n - i,
            {
                proof {
                    assert(doc.projects@.take(i as int + 1).drop_last() =~= doc.projects@.take(
                        i as int,
                    ));
                    assert(doc.projects@.take(i as int + 1).last() == doc.projects@[i as int]);
                }
                out.append("      <div class=\"projects-item\">\n");
                render_entries_exec(out, Entity::Project(&doc.projects[i]), &s.fields);
                out.append("      </div>\n");
                i = i + 1;
                proof {
                    assert(out@ =~= mid + project_items_frag(
                        doc.projects@.take(i as int),
                        entries_view(s.fields@),
                    ));
                }
            }
            out.append("    </section>\n");
            proof {
                assert(doc.projects@.take(n as int) =~= doc.projects@);
                assert(out@ =~= base + render_section_frag(*doc, s@));
            }
        } else {
            proof {
                assert(out@ =~= base + render_section_frag(*doc, s@));
            }
        }
    } else if str_eq(name, "education") {
        if doc.education.len() > 0 {
            out.append(
                "    <section id=\"education\" class=\"section section-education\">\n      <h2>Education</h2>\n",
            );
            let ghost mid = out@;
            let n = doc.education.len();
            let mut i: usize = 0;
            proof {
                assert(education_items_frag(doc.education@.take(0), entries_view(s.fields@))
                    =~= Seq::<char>::empty());
                assert(out@ =~= mid + education_items_frag(
                    doc.education@.take(0),
                    entries_view(s.fields@),
                ));
            }
            while i < n
                invariant
                    n == doc.education@.len(),
                    i <= n,
                    out@ == mid + education_items_frag(
                        doc.education@.take(i as int),
                        entries_view(s.fields@),
                    ),
                decreases n - i,
            {
                proof {
                    assert(doc.education@.take(i as int + 1).drop_last() =~= doc.education@.take(
                        i as int,
                    ));
                    assert(doc.education@.take(i as int + 1).last() == doc.education@[i as int]);
                }
                out.append("      <div class=\"education-item\">\n");
                render_entries_exec(out, Entity::Education(&doc.education[i]), &s.fields);
                out.append("      </div>\n");
                i = i + 1;
                proof {
                    assert(out@ =~= mid + education_items_frag(
                        doc.education@.take(i as int),
                        entries_view(s.fields@),
                    ));
                }
            }
            out.append("    </section>\n");
            proof {
                assert(doc.education@.take(n as int) =~= doc.education@);
                assert(out@ =~= base + render_section_frag(*doc, s@));
            }
        } else {
            proof {
                assert(out@ =~= base + render_section_frag(*doc, s@));
            }
        }
    } else {
        proof {
            assert(out@ =~= base + render_section_frag(*doc, s@));
        }
    }
}

// ---------------------------------------------------------------------
// The document shell and the whole render
// ---------------------------------------------------------------------

/// The style sheet of the minimal template.
pub open spec fn minimal_css_chars() -> Seq<char> {
    "    body { font-family: Georgia, serif; max-width: 48rem; margin: 2rem auto; color: #222; }\n    h1 { margin-bottom: 0.2rem; }\n    h2 { border-bottom: 1px solid #999; padding-bottom: 0.2rem; }\n    .section { margin-bottom: 1.2rem; }\n"@
}

/// The style sheet of the minimal template.
pub fn minimal_css_text() -> (r: &'static str)
    ensures
        r@ == minimal_css_chars(),
{
    "    body { font-family: Georgia, serif; max-width: 48rem; margin: 2rem auto; color: #222; }\n    h1 { margin-bottom: 0.2rem; }\n    h2 { border-bottom: 1px solid #999; padding-bottom: 0.2rem; }\n    .section { margin-bottom: 1.2rem; }\n"
}

/// The shell up to the title text.
pub open spec fn head_prefix() -> Seq<char> {
    "<!DOCTYPE html>\n<html lang=\"en\">\n<head>\n  <meta charset=\"UTF-8\">\n  <meta name=\"viewport\" content=\"width=device-width, initial-scale=1.0\">\n  <title>"@
}

/// The shell between the title text and the style sheet.
pub open spec fn head_mid() -> Seq<char> {
    "</title>\n  <style>\n"@
}

/// The shell between the style sheet and the first section.
pub open spec fn head_suffix() -> Seq<char> {
    "  </style>\n</head>\n<body>\n  <main>\n"@
}

/// The closing shell.
pub open spec fn html_tail() -> Seq<char> {
    "  </main>\n</body>\n</html>\n"@
}

/// The markup of a whole document under a layout: the fixed shell with
/// the escaped person name as title, then every section in layout
/// order.
pub open spec fn render_document_frag(layout: LayoutView, doc: Document) -> Seq<char> {
    head_prefix() + escape_text(doc.person.name@) + head_mid() + minimal_css_chars()
        + head_suffix() + sections_frag(doc, layout.sections) + html_tail()
}

/// Whether a template name selects a known template variant.
pub open spec fn template_known(t: Seq<char>) -> bool {
    t == "minimal"@
}

/// Errors of rendering: only an unknown template name.
#[derive(Debug, Clone, PartialEq, Eq)]
pub enum RenderError {
    UnknownTemplate,
}

/// Renders a document against a layout with the named template.
/// Succeeds on exactly the known template names, whatever the layout
/// and document hold, and returns the complete markup string.
pub fn generate_html(doc: &Document, template: &str, layout: &Layout) -> (r: Result<
    String,
    RenderError,
>)
    ensures
        match r {
            Result::Ok(h) => template_known(template@) && h@ == render_document_frag(
                layout@,
                *doc,
            ),
            Result::Err(e) => !template_known(template@) && e == RenderError::UnknownTemplate,
        },
{
    if !str_eq(template, "minimal") {
        return Err(RenderError::UnknownTemplate);
    }
    let mut out = String::new();
    out.append(
        "<!DOCTYPE html>\n<html lang=\"en\">\n<head>\n  <meta charset=\"UTF-8\">\n  <meta name=\"viewport\" content=\"width=device-width, initial-scale=1.0\">\n  <title>",
    );
    append_escaped(&mut out, doc.person.name.as_str());
    out.append("</title>\n  <style>\n");
    out.append(minimal_css_text());
    out.append("  </style>\n</head>\n<body>\n  <main>\n");
    let ghost mid = out@;
    let ghost sv = crate::layout::sections_view(layout.sections@);
    let n = layout.sections.len();
    let mut i: usize = 0;
    proof {
        assert(sections_frag(*doc, sv.take(0)) =~= Seq::<char>::empty());
        assert(out@ =~= mid + sections_frag(*doc, sv.take(0)));
    }
    while i < n
        invariant
            n == layout.sections@.len(),
            sv == crate::layout::sections_view(layout.sections@),
            i <= n,
            out@ == mid + sections_frag(*doc, sv.take(i as int)),
        decreases n - i,
    {
        proof {
            assert(sv.take(i as int + 1).drop_last() =~= sv.take(i as int));
            assert(sv.take(i as int + 1).last() == layout.sections@[i as int]@);
        }
        render_section_exec(&mut out, doc, &layout.sections[i]);
        i = i + 1;
        proof {
            assert(out@ =~= mid + sections_frag(*doc, sv.take(i as int)));
        }
    }
    out.append("  </main>\n</body>\n</html>\n");
    proof {
        assert(sv.take(n as int) =~= sv);
        assert(out@ =~= render_document_frag(layout@, *doc));
    }
    Ok(out)
}

/// Renders with the given template; the entry point that callers and
/// tests use directly.
pub fn generate_test_html(doc: &Document, template: &str, layout: &Layout) -> (r: Result<
    String,
    RenderError,
>)
    ensures
        match r {
            Result::Ok(h) => template_known(template@) && h@ == render_document_frag(
                layout@,
                *doc,
            ),
            Result::Err(e) => !template_known(template@) && e == RenderError::UnknownTemplate,
        },
{
    generate_html(doc, template, layout)
}

} // verus!
