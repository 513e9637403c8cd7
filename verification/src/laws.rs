//! Laws of the library, each stated over the same spec functions the
//! executable contracts use, and proved once for all inputs.
use vstd::prelude::*;
use crate::document::{Document, ExperienceItem};
use crate::layout::{EntryView, FieldPartView, FieldView, LayoutView, ParseState, SectionView,
    close_container, close_section, container_header_name, field_of_line, indent_of, init_state,
    is_space, parse_lines_spec, run_lines, step_line, trim_end_rec, trim_start_rec, trim_text};
use crate::render::{EntityVal, entity_known, escape_char, escape_text, li_items,
    render_field_frag, render_section_frag, sections_frag};

verus! {

/// The escaped form of one character holds no raw `<`, `>`, `"` or
/// `'`.
proof fn lemma_escape_char_no_raw(c: char)
    ensures
        forall|i: int|
            0 <= i < escape_char(c).len() ==> escape_char(c)[i] != '<' && escape_char(c)[i] != '>'
                && escape_char(c)[i] != '"' && escape_char(c)[i] != '\'',
{
    reveal_strlit("&amp;");
    reveal_strlit("&lt;");
    reveal_strlit("&gt;");
    reveal_strlit("&quot;");
    reveal_strlit("&#39;");
}

/// Law: the escaping round trip is safe. However a value reaches the
/// output - as literal layout text or as a referenced document value -
/// its escaped form never holds a raw `<`, `>`, `"` or `'`; markup
/// structure can only come from the renderer's own fixed fragments.
pub proof fn lemma_escape_no_raw_markup(s: Seq<char>)
    ensures
        forall|i: int|
            0 <= i < escape_text(s).len() ==> escape_text(s)[i] != '<' && escape_text(s)[i] != '>'
                && escape_text(s)[i] != '"' && escape_text(s)[i] != '\'',
    decreases s.len(),
{
    if s.len() == 0 {
    } else {
        lemma_escape_no_raw_markup(s.drop_last());
        lemma_escape_char_no_raw(s.last());
        assert forall|i: int| 0 <= i < escape_text(s).len() implies escape_text(s)[i] != '<'
            && escape_text(s)[i] != '>' && escape_text(s)[i] != '"' && escape_text(s)[i]
            != '\'' by {
            let left = escape_text(s.drop_last());
            if i < left.len() {
                assert(escape_text(s)[i] == left[i]);
            } else {
                assert(escape_text(s)[i] == escape_char(s.last())[i - left.len()]);
            }
        }
    }
}

/// One of the five entities escaping can produce.
pub open spec fn is_entity(e: Seq<char>) -> bool {
    e == "&amp;"@ || e == "&lt;"@ || e == "&gt;"@ || e == "&quot;"@ || e == "&#39;"@
}

/// Law, the other half of the escaping round trip: every ampersand in
/// escaped text is the start of one of the five entities. Together
/// with `lemma_escape_no_raw_markup`, no markup-significant character
/// of an escaped value survives unescaped.
pub proof fn lemma_escape_amp_starts_entity(s: Seq<char>)
    ensures
        forall|i: int|
            0 <= i < escape_text(s).len() && escape_text(s)[i] == '&' ==> exists|j: int|
                i < j <= escape_text(s).len() && is_entity(#[trigger] escape_text(s).subrange(i, j)),
    decreases s.len(),
{
    reveal_strlit("&amp;");
    reveal_strlit("&lt;");
    reveal_strlit("&gt;");
    reveal_strlit("&quot;");
    reveal_strlit("&#39;");
    if s.len() == 0 {
    } else {
        lemma_escape_amp_starts_entity(s.drop_last());
        let left = escape_text(s.drop_last());
        let block = escape_char(s.last());
        let out = escape_text(s);
        assert(out == left + block);
        assert forall|i: int| 0 <= i < out.len() && out[i] == '&' implies exists|j: int|
            i < j <= out.len() && is_entity(#[trigger] out.subrange(i, j)) by {
            if i < left.len() {
                assert(left[i] == '&');
                let j = choose|j: int|
                    i < j <= left.len() && is_entity(#[trigger] left.subrange(i, j));
                assert(out.subrange(i, j) =~= left.subrange(i, j));
                assert(is_entity(out.subrange(i, j)));
            } else {
                let c = s.last();
                assert(block[i - left.len()] == '&');
                if c == '&' || c == '<' || c == '>' || c == '"' || c == '\'' {
                    assert(i == left.len());
                    let j = i + block.len();
                    assert forall|k: int| 0 <= k < block.len() implies out.subrange(i, j)[k]
                        == block[k] by {
                        assert(out.subrange(i, j)[k] == out[i + k]);
                        assert(out[i + k] == block[k]);
                    }
                    assert(out.subrange(i, j) =~= block);
                    assert(is_entity(out.subrange(i, j)));
                } else {
                    assert(block == seq![c]);
                    assert(false);
                }
            }
        }
    }
}

/// Law: section order in the output equals section order in the
/// layout: the markup of the sections `a + b` is the markup of `a`
/// followed by the markup of `b`, whatever the document holds.
pub proof fn lemma_section_order(doc: Document, a: Seq<SectionView>, b: Seq<SectionView>)
    ensures
        sections_frag(doc, a + b) == sections_frag(doc, a) + sections_frag(doc, b),
    decreases b.len(),
{
    if b.len() == 0 {
        assert(a + b =~= a);
        assert(sections_frag(doc, a) + sections_frag(doc, b) =~= sections_frag(doc, a));
    } else {
        lemma_section_order(doc, a, b.drop_last());
        assert((a + b).drop_last() =~= a + b.drop_last());
        assert((a + b).last() == b.last());
        assert(sections_frag(doc, a) + sections_frag(doc, b) =~= sections_frag(doc, a) + (
        sections_frag(doc, b.drop_last()) + render_section_frag(doc, b.last())));
        assert(sections_frag(doc, a + b) =~= sections_frag(doc, a) + sections_frag(doc, b));
    }
}

/// Law: a field that is exactly the reference `highlights`, rendered
/// against an experience item, renders a list container with one item
/// per highlight string when the list is non-empty, and renders
/// nothing at all when the list is empty.
pub proof fn lemma_highlights_field(x: ExperienceItem, f: FieldView)
    requires
        f.parts =~= seq![FieldPartView::Reference("highlights"@)],
    ensures
        x.highlights@.len() == 0 ==> render_field_frag(EntityVal::Experience(x), f) == Seq::<
            char,
        >::empty(),
        x.highlights@.len() > 0 ==> render_field_frag(EntityVal::Experience(x), f)
            == "        <ul class=\"experience-highlights\">\n"@ + li_items(x.highlights@)
            + "        </ul>\n"@,
{
    reveal_strlit("highlights");
    reveal_strlit("title");
    reveal_strlit("company");
    reveal_strlit("summary");
    assert("highlights"@.len() == 10);
    assert("title"@.len() != 10 && "company"@.len() != 10 && "summary"@.len() != 10);
    assert(entity_known(EntityVal::Experience(x), "highlights"@) is Some);
}

// ---------------------------------------------------------------------
// Parsing is idempotent on re-serialization of structure
// ---------------------------------------------------------------------

/// Trimming the start never lengthens a sequence.
proof fn lemma_trim_start_len(s: Seq<char>)
    ensures
        trim_start_rec(s).len() <= s.len(),
    decreases s.len(),
{
    if s.len() > 0 && is_space(s[0]) {
        lemma_trim_start_len(s.drop_first());
    }
}

/// Trimming the end never lengthens a sequence.
proof fn lemma_trim_end_len(s: Seq<char>)
    ensures
        trim_end_rec(s).len() <= s.len(),
    decreases s.len(),
{
    if s.len() > 0 && is_space(s.last()) {
        lemma_trim_end_len(s.drop_last());
    }
}

/// A sequence that trimming leaves whole is left whole by each side's
/// trim alone.
proof fn lemma_trim_text_id(s: Seq<char>)
    requires
        trim_text(s) == s,
    ensures
        trim_start_rec(s) == s,
        trim_end_rec(s) == s,
{
    lemma_trim_start_len(s);
    lemma_trim_end_len(trim_start_rec(s));
    if s.len() > 0 && is_space(s[0]) {
        lemma_trim_start_len(s.drop_first());
        assert(false);
    }
}

/// A trimmed, non-empty line prefixed with two spaces trims back to
/// itself and stands at indentation 2.
proof fn lemma_two_space_line(f: Seq<char>)
    requires
        trim_text(f) == f,
        f.len() > 0,
    ensures
        trim_text("  "@ + f) == f,
        indent_of("  "@ + f) == 2,
{
    reveal_strlit("  ");
    lemma_trim_text_id(f);
    let t = "  "@ + f;
    assert(t[0] == ' ');
    let t1 = t.drop_first();
    assert(t1[0] == t[1]);
    assert(t[1] == ' ');
    assert(t1.drop_first() =~= f);
    assert(trim_start_rec(t) == trim_start_rec(t1));
    assert(trim_start_rec(t1) == trim_start_rec(f));
}

/// Running the parser over concatenated line lists is running it over
/// each in turn.
proof fn lemma_run_append(st: ParseState, a: Seq<Seq<char>>, b: Seq<Seq<char>>)
    ensures
        run_lines(st, a + b) == run_lines(run_lines(st, a), b),
    decreases b.len(),
{
    if b.len() == 0 {
        assert(a + b =~= a);
    } else {
        lemma_run_append(st, a, b.drop_last());
        assert((a + b).drop_last() =~= a + b.drop_last());
        assert((a + b).last() == b.last());
    }
}

/// A field line, well-formed for the round trip: trimmed, non-empty,
/// and not a container header.
pub open spec fn wf_field_line(f: Seq<char>) -> bool {
    &&& trim_text(f) == f
    &&& f.len() > 0
    &&& container_header_name(f) is None
}

/// One source block: a section name and its field lines.
pub open spec fn wf_block(sp: (Seq<char>, Seq<Seq<char>>)) -> bool {
    &&& trim_text(sp.0) == sp.0
    &&& sp.0.len() > 0
    &&& forall|j: int| 0 <= j < sp.1.len() ==> #[trigger] wf_field_line(sp.1[j])
}

/// The serialized lines of one block: the name line at indentation 0,
/// then each field line at indentation 2.
pub open spec fn section_block(sp: (Seq<char>, Seq<Seq<char>>)) -> Seq<Seq<char>> {
    seq![sp.0] + sp.1.map_values(|f: Seq<char>| "  "@ + f)
}

/// The serialized lines of a list of blocks, in order.
pub open spec fn blocks_lines(specs: Seq<(Seq<char>, Seq<Seq<char>>)>) -> Seq<Seq<char>>
    decreases specs.len(),
{
    if specs.len() == 0 {
        Seq::<Seq<char>>::empty()
    } else {
        blocks_lines(specs.drop_last()) + section_block(specs.last())
    }
}

/// The section a block should parse back to: its name, and one plain
/// field entry per field line, in source order.
pub open spec fn expected_section(sp: (Seq<char>, Seq<Seq<char>>)) -> SectionView {
    SectionView {
        name: sp.0,
        entries: sp.1.map_values(|f: Seq<char>| EntryView::Field(field_of_line(f))),
    }
}

/// The sections a list of blocks should parse back to.
pub open spec fn expected_sections(specs: Seq<(Seq<char>, Seq<Seq<char>>)>) -> Seq<SectionView> {
    specs.map_values(|sp: (Seq<char>, Seq<Seq<char>>)| expected_section(sp))
}

/// Running the parser over a section's field lines appends one field
/// entry per line, in order, to the open section.
proof fn lemma_run_field_lines(done: Seq<SectionView>, sec: SectionView, fields: Seq<Seq<char>>)
    requires
        forall|j: int| 0 <= j < fields.len() ==> #[trigger] wf_field_line(fields[j]),
    ensures
        run_lines(
            ParseState { done, cur: Option::Some(sec), cont: Option::None },
            fields.map_values(|f: Seq<char>| "  "@ + f),
        ) == (ParseState {
            done,
            cur: Option::Some(
                SectionView {
                    name: sec.name,
                    entries: sec.entries + fields.map_values(
                        |f: Seq<char>| EntryView::Field(field_of_line(f)),
                    ),
                },
            ),
            cont: Option::None,
        }),
    decreases fields.len(),
{
    let lines = fields.map_values(|f: Seq<char>| "  "@ + f);
    let entries = fields.map_values(|f: Seq<char>| EntryView::Field(field_of_line(f)));
    if fields.len() == 0 {
        assert(sec.entries + entries =~= sec.entries);
        assert(SectionView { name: sec.name, entries: sec.entries + entries } =~= sec);
    } else {
        let fl = fields.drop_last();
        assert forall|j: int| 0 <= j < fl.len() implies #[trigger] wf_field_line(fl[j]) by {
            assert(fl[j] == fields[j]);
        }
        lemma_run_field_lines(done, sec, fl);
        let lines_fl = fl.map_values(|f: Seq<char>| "  "@ + f);
        assert(lines.drop_last() =~= lines_fl);
        assert(lines.last() == "  "@ + fields.last());
        let st1 = ParseState {
            done,
            cur: Option::Some(
                SectionView {
                    name: sec.name,
                    entries: sec.entries + fl.map_values(
                        |f: Seq<char>| EntryView::Field(field_of_line(f)),
                    ),
                },
            ),
            cont: Option::None,
        };
        assert(run_lines(
            ParseState { done, cur: Option::Some(sec), cont: Option::None },
            lines,
        ) == step_line(st1, lines.last()));
        let f = fields.last();
        assert(wf_field_line(f));
        lemma_two_space_line(f);
        assert(trim_text(lines.last()) == f);
        assert(indent_of(lines.last()) == 2);
        let pushed = (sec.entries + fl.map_values(
            |g: Seq<char>| EntryView::Field(field_of_line(g)),
        )).push(EntryView::Field(field_of_line(f)));
        assert(pushed =~= sec.entries + entries);
    }
}

/// Running the parser over one serialized block closes what was open
/// and leaves exactly the expected section open.
proof fn lemma_run_block(st: ParseState, sp: (Seq<char>, Seq<Seq<char>>))
    requires
        st.cont is None,
        wf_block(sp),
    ensures
        run_lines(st, section_block(sp)) == (ParseState {
            done: close_section(st).done,
            cur: Option::Some(expected_section(sp)),
            cont: Option::None,
        }),
{
    let name_line: Seq<Seq<char>> = seq![sp.0];
    let field_lines = sp.1.map_values(|f: Seq<char>| "  "@ + f);
    assert(section_block(sp) == name_line + field_lines);
    lemma_run_append(st, name_line, field_lines);
    assert(name_line.drop_last() =~= Seq::<Seq<char>>::empty());
    assert(name_line.last() == sp.0);
    assert(run_lines(st, name_line.drop_last()) == st);
    assert(run_lines(st, name_line) == step_line(st, sp.0));
    lemma_trim_text_id(sp.0);
    assert(indent_of(sp.0) == 0);
    let opened = SectionView { name: sp.0, entries: Seq::<EntryView>::empty() };
    let st_a = ParseState {
        done: close_section(st).done,
        cur: Option::Some(opened),
        cont: Option::None,
    };
    assert(step_line(st, sp.0) == st_a);
    lemma_run_field_lines(st_a.done, opened, sp.1);
    let entries = sp.1.map_values(|f: Seq<char>| EntryView::Field(field_of_line(f)));
    assert(Seq::<EntryView>::empty() + entries =~= entries);
    assert(SectionView { name: sp.0, entries: Seq::<EntryView>::empty() + entries }
        =~= expected_section(sp));
}

/// Running the parser over all serialized blocks finishes every block
/// but the last and leaves the last one open.
proof fn lemma_run_blocks(specs: Seq<(Seq<char>, Seq<Seq<char>>)>)
    requires
        forall|k: int| 0 <= k < specs.len() ==> #[trigger] wf_block(specs[k]),
    ensures
        specs.len() == 0 ==> run_lines(init_state(), blocks_lines(specs)) == init_state(),
        specs.len() > 0 ==> run_lines(init_state(), blocks_lines(specs)) == (ParseState {
            done: expected_sections(specs.drop_last()),
            cur: Option::Some(expected_section(specs.last())),
            cont: Option::None,
        }),
    decreases specs.len(),
{
    if specs.len() == 0 {
    } else {
        let dl = specs.drop_last();
        assert forall|k: int| 0 <= k < dl.len() implies #[trigger] wf_block(dl[k]) by {
            assert(dl[k] == specs[k]);
        }
        lemma_run_blocks(dl);
        lemma_run_append(init_state(), blocks_lines(dl), section_block(specs.last()));
        let st = run_lines(init_state(), blocks_lines(dl));
        assert(wf_block(specs[specs.len() - 1]));
        assert(specs.last() == specs[specs.len() - 1]);
        lemma_run_block(st, specs.last());
        if dl.len() == 0 {
            assert(expected_sections(dl) =~= Seq::<SectionView>::empty());
        } else {
            assert(close_section(st).done =~= expected_sections(dl)) by {
                assert(expected_sections(dl.drop_last()).push(expected_section(dl.last()))
                    =~= expected_sections(dl));
            }
        }
    }
}

/// Law: parsing is idempotent on re-serialization of structure. Take
/// any sections given as a trimmed, non-empty name and trimmed,
/// non-empty field lines that are not container headers; serialize them
/// with the name at indentation 0 and each field line at indentation 2;
/// then parsing the serialized lines yields exactly one section per
/// name, in order, each with one field per field line, in source order.
pub proof fn lemma_parse_round_trip(specs: Seq<(Seq<char>, Seq<Seq<char>>)>)
    requires
        forall|k: int| 0 <= k < specs.len() ==> #[trigger] wf_block(specs[k]),
    ensures
        parse_lines_spec(blocks_lines(specs)) == (LayoutView { sections: expected_sections(specs) }),
{
    lemma_run_blocks(specs);
    if specs.len() == 0 {
        assert(expected_sections(specs) =~= Seq::<SectionView>::empty());
    } else {
        let st = run_lines(init_state(), blocks_lines(specs));
        assert(close_container(st) == st);
        assert(expected_sections(specs.drop_last()).push(expected_section(specs.last()))
            =~= expected_sections(specs));
    }
}

} // verus!