//! The layout language: an indentation-sensitive, quote-aware text
//! format that describes which document fields are rendered, in what
//! order, and in what composition of literal text and field references.
//!
//! A layout is an ordered list of sections. A section header stands at
//! indentation 0; its entries stand at indentation 2 and are fields,
//! class-qualified fields (`label: ...`), or container headers
//! (`label:` alone); lines at indentation 4 or more belong to the open
//! container, if any. The grammar itself never fails: malformed
//! indentation and unclosed quotes degrade to a deterministic
//! best-effort structure.
use vstd::prelude::*;
use crate::strutil::{chars_of, string_of_chars, str_eq, subrange_chars};

verus! {

// ---------------------------------------------------------------------
// The layout tree
// ---------------------------------------------------------------------

/// One token of a field definition: a reference to a document field
/// (`Field`) or literal text to emit verbatim after escaping
/// (`Literal`).
#[derive(Debug, Clone, PartialEq)]
pub enum FieldPart {
    Field(String),
    Literal(String),
}

/// An ordered composition of tokens, with an optional class label
/// taken from a `label:` prefix.
#[derive(Debug, Clone)]
pub struct Field {
    pub parts: Vec<FieldPart>,
    pub class_name: Option<String>,
}

/// A grouping of fields under a shared class label.
#[derive(Debug, Clone)]
pub struct Container {
    pub class_name: String,
    pub fields: Vec<Field>,
}

/// One entry of a section: a field or a container.
#[derive(Debug, Clone)]
pub enum FieldOrContainer {
    Field(Field),
    Container(Container),
}

/// A named top-level grouping with its ordered entries.
#[derive(Debug, Clone)]
pub struct Section {
    pub name: String,
    pub fields: Vec<FieldOrContainer>,
}

/// An ordered list of sections. Duplicate names are legal; each
/// occurrence is rendered independently.
#[derive(Debug, Clone)]
pub struct Layout {
    pub sections: Vec<Section>,
}

// ---------------------------------------------------------------------
// Mathematical views of the tree
// ---------------------------------------------------------------------

/// Abstract token: a field reference or literal text.
pub enum FieldPartView {
    Reference(Seq<char>),
    Literal(Seq<char>),
}

/// Abstract field.
#[verifier::ext_equal]
pub struct FieldView {
    pub parts: Seq<FieldPartView>,
    pub class_name: Option<Seq<char>>,
}

/// Abstract container.
#[verifier::ext_equal]
pub struct ContainerView {
    pub class_name: Seq<char>,
    pub fields: Seq<FieldView>,
}

/// Abstract section entry.
pub enum EntryView {
    Field(FieldView),
    Container(ContainerView),
}

/// Abstract section.
#[verifier::ext_equal]
pub struct SectionView {
    pub name: Seq<char>,
    pub entries: Seq<EntryView>,
}

/// Abstract layout.
#[verifier::ext_equal]
pub struct LayoutView {
    pub sections: Seq<SectionView>,
}

impl View for FieldPart {
    type V = FieldPartView;

    open spec fn view(&self) -> FieldPartView {
        match self {
            FieldPart::Field(s) => FieldPartView::Reference(s@),
            FieldPart::Literal(s) => FieldPartView::Literal(s@),
        }
    }
}

/// The views of a list of tokens, in order.
pub open spec fn parts_view(ps: Seq<FieldPart>) -> Seq<FieldPartView> {
    ps.map_values(|p: FieldPart| p@)
}

impl View for Field {
    type V = FieldView;

    open spec fn view(&self) -> FieldView {
        FieldView { parts: parts_view(self.parts@), class_name: match self.class_name {
            Option::Some(c) => Option::Some(c@),
            Option::None => Option::None,
        } }
    }
}

/// The views of a list of fields, in order.
pub open spec fn fields_view(fs: Seq<Field>) -> Seq<FieldView> {
    fs.map_values(|f: Field| f@)
}

impl View for Container {
    type V = ContainerView;

    open spec fn view(&self) -> ContainerView {
        ContainerView { class_name: self.class_name@, fields: fields_view(self.fields@) }
    }
}

impl View for FieldOrContainer {
    type V = EntryView;

    open spec fn view(&self) -> EntryView {
        match self {
            FieldOrContainer::Field(f) => EntryView::Field(f@),
            FieldOrContainer::Container(c) => EntryView::Container(c@),
        }
    }
}

/// The views of a list of section entries, in order.
pub open spec fn entries_view(es: Seq<FieldOrContainer>) -> Seq<EntryView> {
    es.map_values(|e: FieldOrContainer| e@)
}

impl View for Section {
    type V = SectionView;

    open spec fn view(&self) -> SectionView {
        SectionView { name: self.name@, entries: entries_view(self.fields@) }
    }
}

/// The views of a list of sections, in order.
pub open spec fn sections_view(ss: Seq<Section>) -> Seq<SectionView> {
    ss.map_values(|s: Section| s@)
}

impl View for Layout {
    type V = LayoutView;

    open spec fn view(&self) -> LayoutView {
        LayoutView { sections: sections_view(self.sections@) }
    }
}

impl Field {
    /// A plain field, without a class label.
    pub fn new(parts: Vec<FieldPart>) -> (r: Self)
        ensures
            r@ == (FieldView { parts: parts_view(parts@), class_name: Option::<Seq<char>>::None }),
    {
        Self { parts, class_name: None }
    }

    /// A field carrying a class label from a `label:` prefix.
    pub fn with_class(parts: Vec<FieldPart>, class_name: String) -> (r: Self)
        ensures
            r@ == (FieldView {
                parts: parts_view(parts@),
                class_name: Option::Some(class_name@),
            }),
    {
        Self { parts, class_name: Some(class_name) }
    }
}

// ---------------------------------------------------------------------
// Token splitting
// ---------------------------------------------------------------------

/// One step of the token-splitting state machine: `buf` is the pending
/// run of characters and `in_quote` says whether a quotation is open.
/// A `"` toggles the quotation; closing one flushes the buffer (even
/// empty) as a literal, opening one first flushes a pending buffer as
/// a reference. A space outside a quotation flushes a non-empty buffer
/// as a reference and is otherwise dropped. At end of line a remaining
/// buffer becomes a literal if the quotation is still open (unclosed
/// quote), else a reference.
pub open spec fn split_rec(s: Seq<char>, buf: Seq<char>, in_quote: bool) -> Seq<FieldPartView>
    decreases s.len(),
{
    if s.len() == 0 {
        if buf.len() == 0 {
            Seq::<FieldPartView>::empty()
        } else if in_quote {
            seq![FieldPartView::Literal(buf)]
        } else {
            seq![FieldPartView::Reference(buf)]
        }
    } else {
        let c = s[0];
        let rest = s.drop_first();
        if c == '"' {
            if in_quote {
                seq![FieldPartView::Literal(buf)] + split_rec(rest, Seq::empty(), false)
            } else if buf.len() > 0 {
                seq![FieldPartView::Reference(buf)] + split_rec(rest, Seq::empty(), true)
            } else {
                split_rec(rest, Seq::empty(), true)
            }
        } else if c == ' ' && !in_quote {
            if buf.len() > 0 {
                seq![FieldPartView::Reference(buf)] + split_rec(rest, Seq::empty(), false)
            } else {
                split_rec(rest, buf, false)
            }
        } else {
            split_rec(rest, buf.push(c), in_quote)
        }
    }
}

/// The tokens of one trimmed layout line: the splitting state machine
/// run from an empty buffer outside any quotation. Total: defined for
/// every line.
pub open spec fn split_parts(s: Seq<char>) -> Seq<FieldPartView> {
    split_rec(s, Seq::empty(), false)
}

/// Splits one trimmed layout line into its ordered tokens, honoring
/// quoting. Never fails, whatever the line holds.
pub fn parse_field_parts(line: &str) -> (r: Vec<FieldPart>)
    ensures
        parts_view(r@) == split_parts(line@),
{
    let cs = chars_of(line);
    parse_field_parts_chars(&cs)
}

/// As `parse_field_parts`, over a character vector.
pub fn parse_field_parts_chars(cs: &Vec<char>) -> (r: Vec<FieldPart>)
    ensures
        parts_view(r@) == split_parts(cs@),
{
    let n = cs.len();
    let mut parts: Vec<FieldPart> = Vec::new();
    let mut current: Vec<char> = Vec::new();
    let mut in_quote: bool = false;
    let mut i: usize = 0;
    proof {
        assert(parts_view(parts@) =~= Seq::<FieldPartView>::empty());
        assert(cs@.skip(0) =~= cs@);
    }
    while i < n
        invariant
            n == cs@.len(),
            i <= n,
            parts_view(parts@) + split_rec(cs@.skip(i as int), current@, in_quote)
                == split_parts(cs@),
        decreases n - i,
    {
        let c = cs[i];
        proof {
            assert(cs@.skip(i as int).len() > 0);
            assert(cs@.skip(i as int)[0] == c);
            assert(cs@.skip(i as int).drop_first() =~= cs@.skip(i as int + 1));
        }
        let ghost prev_parts = parts@;
        let ghost prev_buf = current@;
        let ghost prev_q = in_quote;
        if c == '"' {
            if in_quote {
                let lit = string_of_chars(&current);
                parts.push(FieldPart::Literal(lit));
                current = Vec::new();
                in_quote = false;
                proof {
                    assert(parts_view(parts@) =~= parts_view(prev_parts).push(
                        FieldPartView::Literal(prev_buf),
                    ));
                    assert(parts_view(parts@) + split_rec(cs@.skip(i as int + 1), current@, false)
                        =~= parts_view(prev_parts) + split_rec(cs@.skip(i as int), prev_buf, prev_q));
                }
            } else {
                if current.len() > 0 {
                    let name = string_of_chars(&current);
                    parts.push(FieldPart::Field(name));
                    current = Vec::new();
                    proof {
                        assert(parts_view(parts@) =~= parts_view(prev_parts).push(
                            FieldPartView::Reference(prev_buf),
                        ));
                        assert(parts_view(parts@) + split_rec(cs@.skip(i as int + 1), current@, true)
                            =~= parts_view(prev_parts) + split_rec(
                            cs@.skip(i as int),
                            prev_buf,
                            prev_q,
                        ));
                    }
                } else {
                    proof {
                        assert(current@ =~= Seq::<char>::empty());
                    }
                }
                in_quote = true;
            }
        } else if c == ' ' && !in_quote {
            if current.len() > 0 {
                let name = string_of_chars(&current);
                parts.push(FieldPart::Field(name));
                current = Vec::new();
                proof {
                    assert(parts_view(parts@) =~= parts_view(prev_parts).push(
                        FieldPartView::Reference(prev_buf),
                    ));
                    assert(parts_view(parts@) + split_rec(cs@.skip(i as int + 1), current@, false)
                        =~= parts_view(prev_parts) + split_rec(cs@.skip(i as int), prev_buf, prev_q));
                }
            }
        } else {
            current.push(c);
        }
        i = i + 1;
    }
    proof {
        assert(cs@.skip(n as int) =~= Seq::<char>::empty());
    }
    if current.len() > 0 {
        let ghost prev_parts = parts@;
        let ghost prev_buf = current@;
        let text = string_of_chars(&current);
        if in_quote {
            parts.push(FieldPart::Literal(text));
            proof {
                assert(parts_view(parts@) =~= parts_view(prev_parts).push(
                    FieldPartView::Literal(prev_buf),
                ));
                assert(parts_view(parts@) =~= parts_view(prev_parts) + split_rec(
                    Seq::<char>::empty(),
                    prev_buf,
                    true,
                ));
            }
        } else {
            parts.push(FieldPart::Field(text));
            proof {
                assert(parts_view(parts@) =~= parts_view(prev_parts).push(
                    FieldPartView::Reference(prev_buf),
                ));
                assert(parts_view(parts@) =~= parts_view(prev_parts) + split_rec(
                    Seq::<char>::empty(),
                    prev_buf,
                    false,
                ));
            }
        }
    } else {
        proof {
            assert(split_rec(Seq::<char>::empty(), current@, in_quote)
                =~= Seq::<FieldPartView>::empty());
            assert(parts_view(parts@) + Seq::<FieldPartView>::empty() =~= parts_view(parts@));
        }
    }
    parts
}

// ---------------------------------------------------------------------
// Lines, whitespace, and indentation
// ---------------------------------------------------------------------

/// Whitespace for trimming and indentation counting.
pub open spec fn is_space(c: char) -> bool {
    c == ' ' || c == '\t' || c == '\r' || c == '\n'
}

/// The sequence with leading whitespace removed.
pub open spec fn trim_start_rec(s: Seq<char>) -> Seq<char>
    decreases s.len(),
{
    if s.len() > 0 && is_space(s[0]) {
        trim_start_rec(s.drop_first())
    } else {
        s
    }
}

/// The sequence with trailing whitespace removed.
pub open spec fn trim_end_rec(s: Seq<char>) -> Seq<char>
    decreases s.len(),
{
    if s.len() > 0 && is_space(s.last()) {
        trim_end_rec(s.drop_last())
    } else {
        s
    }
}

/// The sequence with whitespace removed at both ends.
pub open spec fn trim_text(s: Seq<char>) -> Seq<char> {
    trim_end_rec(trim_start_rec(s))
}

/// The width of a line's leading whitespace, in characters.
pub open spec fn indent_of(s: Seq<char>) -> int {
    s.len() - trim_start_rec(s).len()
}

/// A line with a trailing carriage return removed.
pub open spec fn strip_cr(l: Seq<char>) -> Seq<char> {
    if l.len() > 0 && l.last() == '\r' {
        l.drop_last()
    } else {
        l
    }
}

/// Splitting text into lines at `'\n'`, a trailing `'\r'` removed from
/// each line, a final unterminated line kept, a final empty line (after
/// a terminating `'\n'`) dropped.
pub open spec fn lines_rec(s: Seq<char>, cur: Seq<char>) -> Seq<Seq<char>>
    decreases s.len(),
{
    if s.len() == 0 {
        if cur.len() == 0 {
            Seq::<Seq<char>>::empty()
        } else {
            seq![strip_cr(cur)]
        }
    } else if s[0] == '\n' {
        seq![strip_cr(cur)] + lines_rec(s.drop_first(), Seq::empty())
    } else {
        lines_rec(s.drop_first(), cur.push(s[0]))
    }
}

/// The lines of a text.
pub open spec fn lines_of(s: Seq<char>) -> Seq<Seq<char>> {
    lines_rec(s, Seq::empty())
}

/// The views of a list of line buffers.
pub open spec fn lines_views(ls: Seq<Vec<char>>) -> Seq<Seq<char>> {
    ls.map_values(|l: Vec<char>| l@)
}

fn is_space_exec(c: char) -> (b: bool)
    ensures
        b == is_space(c),
{
    c == ' ' || c == '\t' || c == '\r' || c == '\n'
}

/// The number of leading whitespace characters; what remains after them
/// is exactly the whitespace-trimmed start.
fn leading_ws(v: &Vec<char>) -> (j: usize)
    ensures
        j <= v@.len(),
        trim_start_rec(v@) == v@.skip(j as int),
        j == indent_of(v@),
{
    let mut j: usize = 0;
    proof {
        assert(v@.skip(0) =~= v@);
    }
    while j < v.len() && is_space_exec(v[j])
        invariant
            j <= v@.len(),
            trim_start_rec(v@) == trim_start_rec(v@.skip(j as int)),
        decreases v@.len() - j,
    {
        proof {
            assert(v@.skip(j as int)[0] == v@[j as int]);
            assert(v@.skip(j as int).drop_first() =~= v@.skip(j as int + 1));
        }
        j = j + 1;
    }
    proof {
        if j == v.len() {
            assert(v@.skip(j as int) =~= Seq::<char>::empty());
        }
        assert(trim_start_rec(v@.skip(j as int)) == v@.skip(j as int));
    }
    j
}

/// The end position of the whitespace-trimmed tail of `v@.skip(j)`.
fn trailing_ws_end(v: &Vec<char>, j: usize) -> (k: usize)
    requires
        j <= v@.len(),
    ensures
        j <= k <= v@.len(),
        trim_end_rec(v@.skip(j as int)) == v@.subrange(j as int, k as int),
{
    let mut k: usize = v.len();
    proof {
        assert(v@.skip(j as int) =~= v@.subrange(j as int, v@.len() as int));
    }
    while k > j && is_space_exec(v[k - 1])
        invariant
            j <= k <= v@.len(),
            trim_end_rec(v@.skip(j as int)) == trim_end_rec(v@.subrange(j as int, k as int)),
        decreases k,
    {
        proof {
            assert(v@.subrange(j as int, k as int).last() == v@[k as int - 1]);
            assert(v@.subrange(j as int, k as int).drop_last() =~= v@.subrange(
                j as int,
                k as int - 1,
            ));
        }
        k = k - 1;
    }
    proof {
        assert(trim_end_rec(v@.subrange(j as int, k as int)) == v@.subrange(j as int, k as int));
    }
    k
}

/// The whitespace-trimmed copy of a line.
fn trim_chars(v: &Vec<char>) -> (r: Vec<char>)
    ensures
        r@ == trim_text(v@),
{
    let j = leading_ws(v);
    let k = trailing_ws_end(v, j);
    subrange_chars(v, j, k)
}

/// Whether a character occurs in a sequence.
pub open spec fn has_char(s: Seq<char>, c: char) -> bool {
    exists|i: int| 0 <= i < s.len() && s[i] == c
}

fn contains_char(v: &Vec<char>, c: char) -> (r: bool)
    ensures
        r == has_char(v@, c),
{
    let mut i: usize = 0;
    while i < v.len()
        invariant
            i <= v@.len(),
            forall|k: int| 0 <= k < i ==> v@[k] != c,
        decreases v@.len() - i,
    {
        if v[i] == c {
            return true;
        }
        i = i + 1;
    }
    false
}

/// The position of the first occurrence of a character, if any.
pub open spec fn find_char(s: Seq<char>, c: char) -> Option<int>
    decreases s.len(),
{
    if s.len() == 0 {
        Option::None
    } else if s[0] == c {
        Option::Some(0int)
    } else {
        match find_char(s.drop_first(), c) {
            Option::Some(j) => Option::Some(j + 1),
            Option::None => Option::None,
        }
    }
}

/// A found position lies in the sequence and holds the character.
proof fn lemma_find_char_bounds(s: Seq<char>, c: char)
    ensures
        match find_char(s, c) {
            Option::Some(p) => 0 <= p < s.len() && s[p] == c,
            Option::None => true,
        },
    decreases s.len(),
{
    if s.len() > 0 && s[0] != c {
        lemma_find_char_bounds(s.drop_first(), c);
    }
}

/// An option position moved right by `d`.
spec fn shift_pos(o: Option<int>, d: int) -> Option<int> {
    match o {
        Option::Some(j) => Option::Some(j + d),
        Option::None => Option::None,
    }
}

fn find_char_at(v: &Vec<char>, c: char) -> (r: Option<usize>)
    ensures
        match r {
            Option::Some(p) => find_char(v@, c) == Option::Some(p as int),
            Option::None => find_char(v@, c) is None,
        },
{
    let mut i: usize = 0;
    proof {
        assert(v@.skip(0) =~= v@);
    }
    while i < v.len()
        invariant
            i <= v@.len(),
            find_char(v@, c) == shift_pos(find_char(v@.skip(i as int), c), i as int),
        decreases v@.len() - i,
    {
        proof {
            assert(v@.skip(i as int)[0] == v@[i as int]);
            assert(v@.skip(i as int).drop_first() =~= v@.skip(i as int + 1));
        }
        if v[i] == c {
            return Some(i);
        }
        i = i + 1;
    }
    proof {
        assert(v@.skip(v@.len() as int) =~= Seq::<char>::empty());
    }
    None
}

/// A line with every trailing colon removed.
pub open spec fn strip_trailing_colons(s: Seq<char>) -> Seq<char>
    decreases s.len(),
{
    if s.len() > 0 && s.last() == ':' {
        strip_trailing_colons(s.drop_last())
    } else {
        s
    }
}

fn strip_colons_exec(v: &Vec<char>) -> (r: Vec<char>)
    ensures
        r@ == strip_trailing_colons(v@),
{
    let mut k: usize = v.len();
    proof {
        assert(v@.subrange(0, v@.len() as int) =~= v@);
    }
    while k > 0 && v[k - 1] == ':'
        invariant
            k <= v@.len(),
            strip_trailing_colons(v@) == strip_trailing_colons(v@.subrange(0, k as int)),
        decreases k,
    {
        proof {
            assert(v@.subrange(0, k as int).last() == v@[k as int - 1]);
            assert(v@.subrange(0, k as int).drop_last() =~= v@.subrange(0, k as int - 1));
        }
        k = k - 1;
    }
    proof {
        assert(strip_trailing_colons(v@.subrange(0, k as int)) == v@.subrange(0, k as int));
    }
    subrange_chars(v, 0, k)
}

// ---------------------------------------------------------------------
// Line classification
// ---------------------------------------------------------------------

/// A usable class label: non-empty, without quotes or spaces.
pub open spec fn valid_label(n: Seq<char>) -> bool {
    n.len() > 0 && !has_char(n, '"') && !has_char(n, ' ')
}

/// The container name of a trimmed line, when the line is a container
/// header: it ends with a colon, and what stands before the trailing
/// colons, trimmed, is a usable label.
pub open spec fn container_header_name(t: Seq<char>) -> Option<Seq<char>> {
    if t.len() > 0 && t.last() == ':' {
        let n = trim_text(strip_trailing_colons(t));
        if valid_label(n) {
            Option::Some(n)
        } else {
            Option::None
        }
    } else {
        Option::None
    }
}

/// The class-qualified field of a trimmed line, when it has the form
/// `label: definition`: the text before the first colon, trimmed, is a
/// usable label, and the text after it, trimmed, is non-empty.
pub open spec fn class_field(t: Seq<char>) -> Option<FieldView> {
    match find_char(t, ':') {
        Option::Some(p) => {
            let before = trim_text(t.take(p));
            let after = trim_text(t.skip(p + 1));
            if valid_label(before) && after.len() > 0 {
                Option::Some(
                    FieldView { parts: split_parts(after), class_name: Option::Some(before) },
                )
            } else {
                Option::None
            }
        },
        Option::None => Option::None,
    }
}

/// A whole trimmed line split as one plain field.
pub open spec fn plain_field(t: Seq<char>) -> FieldView {
    FieldView { parts: split_parts(t), class_name: Option::None }
}

/// The field of a trimmed line: class-qualified where the `label:`
/// form applies, plain otherwise. The fallback is silent: a line with
/// an unusable prefix is a plain field, never an error.
pub open spec fn field_of_line(t: Seq<char>) -> FieldView {
    match class_field(t) {
        Option::Some(f) => f,
        Option::None => plain_field(t),
    }
}

/// Builds the field of one trimmed line.
fn field_of_line_exec(t: &Vec<char>) -> (f: Field)
    ensures
        f@ == field_of_line(t@),
{
    match find_char_at(t, ':') {
        Some(p) => {
            proof {
                lemma_find_char_bounds(t@, ':');
            }
            let n = t.len();
            let before_raw = subrange_chars(t, 0, p);
            let before = trim_chars(&before_raw);
            let after_raw = subrange_chars(t, p + 1, n);
            let after = trim_chars(&after_raw);
            proof {
                assert(t@.subrange(0, p as int) =~= t@.take(p as int));
                assert(t@.subrange(p as int + 1, t@.len() as int) =~= t@.skip(p as int + 1));
            }
            if before.len() > 0 && !contains_char(&before, '"') && !contains_char(&before, ' ')
                && after.len() > 0 {
                Field::with_class(parse_field_parts_chars(&after), string_of_chars(&before))
            } else {
                Field::new(parse_field_parts_chars(t))
            }
        },
        None => Field::new(parse_field_parts_chars(t)),
    }
}

/// Copies a line buffer with a trailing carriage return removed.
fn strip_cr_exec(cur: Vec<char>) -> (r: Vec<char>)
    ensures
        r@ == strip_cr(cur@),
{
    if cur.len() > 0 && cur[cur.len() - 1] == '\r' {
        let r = subrange_chars(&cur, 0, cur.len() - 1);
        proof {
            assert(cur@.subrange(0, cur@.len() - 1) =~= cur@.drop_last());
        }
        r
    } else {
        cur
    }
}

/// Splits a text into its lines.
fn split_lines(cs: &Vec<char>) -> (r: Vec<Vec<char>>)
    ensures
        lines_views(r@) == lines_of(cs@),
{
    let n = cs.len();
    let mut lines: Vec<Vec<char>> = Vec::new();
    let mut cur: Vec<char> = Vec::new();
    let mut i: usize = 0;
    proof {
        assert(lines_views(lines@) =~= Seq::<Seq<char>>::empty());
        assert(cs@.skip(0) =~= cs@);
    }
    while i < n
        invariant
            n == cs@.len(),
            i <= n,
            lines_views(lines@) + lines_rec(cs@.skip(i as int), cur@) == lines_of(cs@),
        decreases n - i,
    {
        let c = cs[i];
        proof {
            assert(cs@.skip(i as int)[0] == c);
            assert(cs@.skip(i as int).drop_first() =~= cs@.skip(i as int + 1));
        }
        let ghost prev_lines = lines@;
        let ghost prev_cur = cur@;
        if c == '\n' {
            let finished = strip_cr_exec(cur);
            lines.push(finished);
            cur = Vec::new();
            proof {
                assert(lines_views(lines@) =~= lines_views(prev_lines).push(strip_cr(prev_cur)));
                assert(lines_views(lines@) + lines_rec(cs@.skip(i as int + 1), cur@)
                    =~= lines_views(prev_lines) + lines_rec(cs@.skip(i as int), prev_cur));
            }
        } else {
            cur.push(c);
        }
        i = i + 1;
    }
    proof {
        assert(cs@.skip(n as int) =~= Seq::<char>::empty());
    }
    if cur.len() > 0 {
        let ghost prev_lines = lines@;
        let ghost prev_cur = cur@;
        let finished = strip_cr_exec(cur);
        lines.push(finished);
        proof {
            assert(lines_views(lines@) =~= lines_views(prev_lines).push(strip_cr(prev_cur)));
            assert(lines_views(lines@) =~= lines_views(prev_lines) + lines_rec(
                Seq::<char>::empty(),
                prev_cur,
            ));
        }
    } else {
        proof {
            assert(lines_rec(Seq::<char>::empty(), cur@) =~= Seq::<Seq<char>>::empty());
            assert(lines_views(lines@) + Seq::<Seq<char>>::empty() =~= lines_views(lines@));
        }
    }
    lines
}

// ---------------------------------------------------------------------
// The layout parser
// ---------------------------------------------------------------------

/// The parser's state between lines: the finished sections, the open
/// section, and the open container. A container is only ever open
/// while a section is.
#[verifier::ext_equal]
pub struct ParseState {
    pub done: Seq<SectionView>,
    pub cur: Option<SectionView>,
    pub cont: Option<ContainerView>,
}

/// Closing the open container, if any: it becomes the open section's
/// next entry. With no open section the container is dropped. The
/// container slot is cleared either way.
pub open spec fn close_container(st: ParseState) -> ParseState {
    match (st.cont, st.cur) {
        (Option::Some(c), Option::Some(s)) => ParseState {
            done: st.done,
            cur: Option::Some(
                SectionView { name: s.name, entries: s.entries.push(EntryView::Container(c)) },
            ),
            cont: Option::None,
        },
        _ => ParseState { done: st.done, cur: st.cur, cont: Option::None },
    }
}

/// Closing the open section, if any: it is appended to the finished
/// sections.
pub open spec fn close_section(st: ParseState) -> ParseState {
    match st.cur {
        Option::Some(s) => ParseState { done: st.done.push(s), cur: Option::None, cont: st.cont },
        Option::None => st,
    }
}

/// One line of parsing. Blank lines change nothing. Indentation 0
/// closes container and section and opens a new section named by the
/// trimmed line. Indentation 2 closes the container, then adds a
/// container header or a field to the open section; with no open
/// section the line is dropped. Indentation 4 or more adds a field to
/// the open container, or, with none, a plain field to the open
/// section. Lines at indentation 1 or 3 are dropped.
pub open spec fn step_line(st: ParseState, line: Seq<char>) -> ParseState {
    let t = trim_text(line);
    if t.len() == 0 {
        st
    } else {
        let ind = indent_of(line);
        if ind == 0 {
            let st1 = close_section(close_container(st));
            ParseState {
                done: st1.done,
                cur: Option::Some(SectionView { name: t, entries: Seq::empty() }),
                cont: Option::None,
            }
        } else if ind == 2 {
            let st1 = close_container(st);
            match st1.cur {
                Option::Some(s) => match container_header_name(t) {
                    Option::Some(n) => ParseState {
                        done: st1.done,
                        cur: Option::Some(s),
                        cont: Option::Some(
                            ContainerView { class_name: n, fields: Seq::empty() },
                        ),
                    },
                    Option::None => ParseState {
                        done: st1.done,
                        cur: Option::Some(
                            SectionView {
                                name: s.name,
                                entries: s.entries.push(EntryView::Field(field_of_line(t))),
                            },
                        ),
                        cont: Option::None,
                    },
                },
                Option::None => st1,
            }
        } else if ind >= 4 {
            match st.cont {
                Option::Some(c) => ParseState {
                    done: st.done,
                    cur: st.cur,
                    cont: Option::Some(
                        ContainerView {
                            class_name: c.class_name,
                            fields: c.fields.push(field_of_line(t)),
                        },
                    ),
                },
                Option::None => match st.cur {
                    Option::Some(s) => ParseState {
                        done: st.done,
                        cur: Option::Some(
                            SectionView {
                                name: s.name,
                                entries: s.entries.push(EntryView::Field(plain_field(t))),
                            },
                        ),
                        cont: Option::None,
                    },
                    Option::None => st,
                },
            }
        } else {
            st
        }
    }
}

/// The parser's initial state.
pub open spec fn init_state() -> ParseState {
    ParseState { done: Seq::empty(), cur: Option::None, cont: Option::None }
}

/// The state after running the parser over the given lines in order.
pub open spec fn run_lines(st: ParseState, lines: Seq<Seq<char>>) -> ParseState
    decreases lines.len(),
{
    if lines.len() == 0 {
        st
    } else {
        step_line(run_lines(st, lines.drop_last()), lines.last())
    }
}

/// At end of input any open container and section are closed, in that
/// order.
pub open spec fn finish_state(st: ParseState) -> LayoutView {
    LayoutView { sections: close_section(close_container(st)).done }
}

/// The layout of a sequence of lines.
pub open spec fn parse_lines_spec(lines: Seq<Seq<char>>) -> LayoutView {
    finish_state(run_lines(init_state(), lines))
}

/// The layout of a whole text.
pub open spec fn parse_spec(text: Seq<char>) -> LayoutView {
    parse_lines_spec(lines_of(text))
}

/// The view of the parser's executable state.
pub open spec fn state_view(
    done: Seq<Section>,
    cur: Option<Section>,
    cont: Option<Container>,
) -> ParseState {
    ParseState {
        done: sections_view(done),
        cur: match cur {
            Option::Some(s) => Option::Some(s@),
            Option::None => Option::None,
        },
        cont: match cont {
            Option::Some(c) => Option::Some(c@),
            Option::None => Option::None,
        },
    }
}

/// Errors of layout loading. The grammar itself never fails; only an
/// unknown theme name does.
#[derive(Debug, Clone, PartialEq, Eq)]
pub enum LayoutError {
    UnknownTheme,
}

impl Layout {
    /// Parses a whole layout text. Never fails: malformed indentation,
    /// unclosed quotes and ambiguous class prefixes degrade to a
    /// deterministic best-effort structure.
    pub fn parse(content: &str) -> (r: Result<Layout, LayoutError>)
        ensures
            match r {
                Result::Ok(l) => l@ == parse_spec(content@),
                Result::Err(_) => false,
            },
    {
        let cs = chars_of(content);
        let lines = split_lines(&cs);
        let ghost lv = lines_views(lines@);
        let n = lines.len();
        let mut done: Vec<Section> = Vec::new();
        let mut cur: Option<Section> = None;
        let mut cont: Option<Container> = None;
        let mut i: usize = 0;
        proof {
            assert(sections_view(done@) =~= Seq::<SectionView>::empty());
            assert(lv.take(0) =~= Seq::<Seq<char>>::empty());
        }
        while i < n
            invariant
                n == lines@.len(),
                i <= n,
                lv == lines_views(lines@),
                state_view(done@, cur, cont) == run_lines(init_state(), lv.take(i as int)),
            decreases n - i,
        {
            let ghost prev = state_view(done@, cur, cont);
            let line: &Vec<char> = &lines[i];
            let ind = leading_ws(line);
            let trimmed = trim_chars(line);
            proof {
                assert(lv[i as int] == line@);
            }
            if trimmed.len() == 0 {
                // blank line: nothing opens or closes
            } else if ind == 0 {
                let c_opt = cont;
                cont = None;
                let s_opt = cur;
                cur = None;
                let closed: Option<Section> = match (c_opt, s_opt) {
                    (Some(c), Some(mut s)) => {
                        let ghost sv = s@;
                        s.fields.push(FieldOrContainer::Container(c));
                        proof {
                            assert(entries_view(s.fields@) =~= sv.entries.push(
                                EntryView::Container(c@),
                            ));
                        }
                        Some(s)
                    },
                    (_, s_opt2) => s_opt2,
                };
                let ghost dv = sections_view(done@);
                match closed {
                    Some(s) => {
                        let ghost sv = s@;
                        done.push(s);
                        proof {
                            assert(sections_view(done@) =~= dv.push(sv));
                        }
                    },
                    None => {},
                }
                cur = Some(Section { name: string_of_chars(&trimmed), fields: Vec::new() });
                proof {
                    assert(entries_view(Seq::<FieldOrContainer>::empty())
                        =~= Seq::<EntryView>::empty());
                    assert(state_view(done@, cur, cont) == step_line(prev, line@));
                }
            } else if ind == 2 {
                let c_opt = cont;
                cont = None;
                let closed: Option<Section> = match (c_opt, cur) {
                    (Some(c), Some(mut s)) => {
                        let ghost sv = s@;
                        s.fields.push(FieldOrContainer::Container(c));
                        proof {
                            assert(entries_view(s.fields@) =~= sv.entries.push(
                                EntryView::Container(c@),
                            ));
                        }
                        Some(s)
                    },
                    (_, s_opt2) => s_opt2,
                };
                cur = closed;
                match cur {
                    Some(mut s) => {
                        let mut handled = false;
                        if trimmed[trimmed.len() - 1] == ':' {
                            let stripped = strip_colons_exec(&trimmed);
                            let nm = trim_chars(&stripped);
                            if nm.len() > 0 && !contains_char(&nm, '"') && !contains_char(
                                &nm,
                                ' ',
                            ) {
                                cont = Some(
                                    Container {
                                        class_name: string_of_chars(&nm),
                                        fields: Vec::new(),
                                    },
                                );
                                handled = true;
                                proof {
                                    assert(fields_view(Seq::<Field>::empty())
                                        =~= Seq::<FieldView>::empty());
                                }
                            }
                        }
                        if !handled {
                            let ghost sv = s@;
                            let f = field_of_line_exec(&trimmed);
                            s.fields.push(FieldOrContainer::Field(f));
                            proof {
                                assert(entries_view(s.fields@) =~= sv.entries.push(
                                    EntryView::Field(field_of_line(trimmed@)),
                                ));
                            }
                        }
                        cur = Some(s);
                        proof {
                            assert(state_view(done@, cur, cont) == step_line(prev, line@));
                        }
                    },
                    None => {
                        proof {
                            assert(state_view(done@, cur, cont) == step_line(prev, line@));
                        }
                    },
                }
            } else if ind >= 4 {
                let c_opt = cont;
                cont = None;
                match c_opt {
                    Some(mut c) => {
                        let ghost cv = c@;
                        let f = field_of_line_exec(&trimmed);
                        c.fields.push(f);
                        proof {
                            assert(fields_view(c.fields@) =~= cv.fields.push(
                                field_of_line(trimmed@),
                            ));
                        }
                        cont = Some(c);
                    },
                    None => {
                        match cur {
                            Some(mut s) => {
                                let ghost sv = s@;
                                let f = Field::new(parse_field_parts_chars(&trimmed));
                                s.fields.push(FieldOrContainer::Field(f));
                                proof {
                                    assert(entries_view(s.fields@) =~= sv.entries.push(
                                        EntryView::Field(plain_field(trimmed@)),
                                    ));
                                }
                                cur = Some(s);
                            },
                            None => {
                                cur = None;
                            },
                        }
                    },
                }
                proof {
                    assert(state_view(done@, cur, cont) == step_line(prev, line@));
                }
            } else {
                proof {
                    assert(state_view(done@, cur, cont) == step_line(prev, line@));
                }
            }
            i = i + 1;
            proof {
                assert(lv.take(i as int).drop_last() =~= lv.take(i as int - 1));
                assert(lv.take(i as int).last() == line@);
                assert(state_view(done@, cur, cont) == run_lines(init_state(), lv.take(i as int)));
            }
        }
        proof {
            assert(lv.take(n as int) =~= lv);
        }
        // close any remaining open container, then any open section
        let c_opt = cont;
        let closed: Option<Section> = match (c_opt, cur) {
            (Some(c), Some(mut s)) => {
                let ghost sv = s@;
                s.fields.push(FieldOrContainer::Container(c));
                proof {
                    assert(entries_view(s.fields@) =~= sv.entries.push(EntryView::Container(c@)));
                }
                Some(s)
            },
            (_, s_opt2) => s_opt2,
        };
        let ghost dv = sections_view(done@);
        match closed {
            Some(s) => {
                let ghost sv = s@;
                done.push(s);
                proof {
                    assert(sections_view(done@) =~= dv.push(sv));
                }
            },
            None => {},
        }
        Ok(Layout { sections: done })
    }
}

// ---------------------------------------------------------------------
// Built-in theme layouts
// ---------------------------------------------------------------------

/// The text of the built-in minimal layout.
pub open spec fn minimal_layout_chars() -> Seq<char> {
    "person\n  name\n  headline\n  email\n  phone\n  location\n  website\n\nsummary\n\nskills\n\nexperience\n  title\n  company\n  start \" - \" end\n  summary\n  highlights\n\nprojects\n  name\n  url\n  summary\n\neducation\n  degree\n  institution\n  start \" - \" end\n  details\n"@
}

/// The text of the built-in compact layout.
pub open spec fn jake_layout_chars() -> Seq<char> {
    "person\n  name\n  email phone location\n\nexperience\n  title\n  company\n  start \" - \" end\n  highlights\n\neducation\n  degree\n  institution\n\nskills\n"@
}

/// The built-in minimal layout text.
pub fn minimal_layout_text() -> (r: &'static str)
    ensures
        r@ == minimal_layout_chars(),
{
    "person\n  name\n  headline\n  email\n  phone\n  location\n  website\n\nsummary\n\nskills\n\nexperience\n  title\n  company\n  start \" - \" end\n  summary\n  highlights\n\nprojects\n  name\n  url\n  summary\n\neducation\n  degree\n  institution\n  start \" - \" end\n  details\n"
}

/// The built-in compact layout text.
pub fn jake_layout_text() -> (r: &'static str)
    ensures
        r@ == jake_layout_chars(),
{
    "person\n  name\n  email phone location\n\nexperience\n  title\n  company\n  start \" - \" end\n  highlights\n\neducation\n  degree\n  institution\n\nskills\n"
}

/// Whether a theme name selects a built-in layout.
pub open spec fn theme_known(theme: Seq<char>) -> bool {
    theme == "minimal"@ || theme == "jake"@
}

/// The layout of a known theme.
pub open spec fn theme_layout(theme: Seq<char>) -> LayoutView {
    if theme == "minimal"@ {
        parse_spec(minimal_layout_chars())
    } else {
        parse_spec(jake_layout_chars())
    }
}

impl Layout {
    /// The layout of a named built-in theme; exactly the unknown theme
    /// names are rejected.
    pub fn from_theme(theme: &str) -> (r: Result<Layout, LayoutError>)
        ensures
            match r {
                Result::Ok(l) => theme_known(theme@) && l@ == theme_layout(theme@),
                Result::Err(e) => !theme_known(theme@) && e == LayoutError::UnknownTheme,
            },
    {
        if str_eq(theme, "minimal") {
            Layout::parse(minimal_layout_text())
        } else if str_eq(theme, "jake") {
            Layout::parse(jake_layout_text())
        } else {
            Err(LayoutError::UnknownTheme)
        }
    }

    /// The built-in minimal layout.
    pub fn default() -> (r: Layout)
        ensures
            r@ == parse_spec(minimal_layout_chars()),
    {
        match Layout::parse(minimal_layout_text()) {
            Ok(l) => l,
            Err(_) => Layout { sections: Vec::new() },
        }
    }
}

} // verus!
