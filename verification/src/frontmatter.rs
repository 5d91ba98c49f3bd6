//! The header block of a note file: its fields, the rules they obey, how
//! it is written and how a file is taken apart into header and body.

use vstd::prelude::*;
use crate::models::{copy_texts, push_text, texts};
use crate::notes_fs::NotesError;
use crate::text::{
    chars_blank, chars_of, is_blank, is_space, join, join_rows, join_texts, lemma_leading_spaces,
    lemma_lines_final_feed, lemma_lines_first, lemma_lines_joined, lemma_lines_split,
    lemma_single_line_concat,
    lemma_trailing_spaces, lemma_trailing_spaces_ends, lemma_trim_ends, lines, rows, same_text,
    single_line, split_lines, trim, trim_bounds,
};

verus! {

/// The header of a note, field by field.
#[derive(Debug, Clone)]
pub struct Frontmatter {
    pub title: String,
    pub layout: String,
    pub date: String,
    pub description: String,
    pub statut: String,
    pub tags: Vec<String>,
    pub updated: String,
    pub archived: bool,
}

/// What a `Frontmatter` holds, as plain sequences.
pub struct FrontmatterView {
    pub title: Seq<char>,
    pub layout: Seq<char>,
    pub date: Seq<char>,
    pub description: Seq<char>,
    pub statut: Seq<char>,
    pub tags: Seq<Seq<char>>,
    pub updated: Seq<char>,
    pub archived: bool,
}

impl View for Frontmatter {
    type V = FrontmatterView;

    open spec fn view(&self) -> FrontmatterView {
        FrontmatterView {
            title: self.title@,
            layout: self.layout@,
            date: self.date@,
            description: self.description@,
            statut: self.statut@,
            tags: texts(self.tags@),
            updated: self.updated@,
            archived: self.archived,
        }
    }
}

impl Frontmatter {
    /// A copy that holds the same values.
    pub fn duplicate(&self) -> (r: Frontmatter)
        ensures
            r@ == self@,
    {
        Frontmatter {
            title: self.title.clone(),
            layout: self.layout.clone(),
            date: self.date.clone(),
            description: self.description.clone(),
            statut: self.statut.clone(),
            tags: copy_texts(&self.tags),
            updated: self.updated.clone(),
            archived: self.archived,
        }
    }
}

/// The one layout that a note may name.
pub const DEFAULT_LAYOUT: &'static str = "note.njk";

/// The status of a new note.
pub const DEFAULT_STATUT: &'static str = "idee";

/// The one layout that a note may name.
pub open spec fn default_layout() -> Seq<char> {
    DEFAULT_LAYOUT@
}

/// The status of a new note.
pub open spec fn default_statut() -> Seq<char> {
    DEFAULT_STATUT@
}

/// Whether `s` is one of the three statuses.
pub open spec fn is_statut(s: Seq<char>) -> bool {
    s == "idee"@ || s == "chantier"@ || s == "termine"@
}

/// The first rule that `f` breaks, by its message; `None` where it breaks
/// none.
pub open spec fn frontmatter_fault(f: FrontmatterView) -> Option<Seq<char>> {
    if f.layout != default_layout() {
        Some("Invalid layout"@)
    } else if !is_statut(f.statut) {
        Some("Invalid statut"@)
    } else if is_blank(f.title) {
        Some("Missing title"@)
    } else if is_blank(f.date) || is_blank(f.updated) {
        Some("Missing date fields"@)
    } else {
        None
    }
}

/// Checks the rules of a header: the layout is the one known, the status is
/// one of the three, and title, date and stamp are not blank.
pub fn validate_frontmatter(frontmatter: &Frontmatter) -> (r: Result<(), NotesError>)
    ensures
        match r {
            Ok(_) => frontmatter_fault(frontmatter@) is None,
            Err(e) => frontmatter_fault(frontmatter@) == Some(e@),
        },
{
    if !same_text(frontmatter.layout.as_str(), DEFAULT_LAYOUT) {
        return Err(NotesError::new("Invalid layout"));
    }
    let statut = frontmatter.statut.as_str();
    if !(same_text(statut, "idee") || same_text(statut, "chantier") || same_text(
        statut,
        "termine",
    )) {
        return Err(NotesError::new("Invalid statut"));
    }
    if chars_blank(&chars_of(frontmatter.title.as_str())) {
        return Err(NotesError::new("Missing title"));
    }
    if chars_blank(&chars_of(frontmatter.date.as_str())) || chars_blank(
        &chars_of(frontmatter.updated.as_str()),
    ) {
        return Err(NotesError::new("Missing date fields"));
    }
    Ok(())
}

/// `s` with a backslash before each double quote.
pub open spec fn escaped(s: Seq<char>) -> Seq<char>
    decreases s.len(),
{
    if s.len() == 0 {
        Seq::empty()
    } else if s.last() == '"' {
        escaped(s.drop_last()).push('\\').push('"')
    } else {
        escaped(s.drop_last()).push(s.last())
    }
}

/// Puts a backslash before each double quote of `value`.
pub fn escape_yaml_string(value: &str) -> (r: String)
    ensures
        r@ == escaped(value@),
{
    let v = chars_of(value);
    let mut r = String::new();
    let mut i: usize = 0;
    assert(v@.take(0) =~= Seq::<char>::empty());
    while i < v.len()
        invariant
            i <= v.len(),
            r@ == escaped(v@.take(i as int)),
        decreases v.len() - i,
    {
        let c = v[i];
        proof {
            let next = v@.take(i + 1);
            assert(next.drop_last() =~= v@.take(i as int));
            assert(next.last() == c);
        }
        if c == '"' {
            r.push('\\');
        }
        r.push(c);
        i += 1;
    }
    assert(v@.take(v.len() as int) =~= v@);
    r
}

/// A header line whose value stands in double quotes.
pub open spec fn quoted_line(key: Seq<char>, value: Seq<char>) -> Seq<char> {
    key + ": \""@ + value + "\""@
}

/// A header line whose value stands bare.
pub open spec fn plain_line(key: Seq<char>, value: Seq<char>) -> Seq<char> {
    key + ": "@ + value
}

/// A line of the block list of tags.
pub open spec fn tag_line(tag: Seq<char>) -> Seq<char> {
    "  - "@ + escaped(tag)
}

/// The header lines that carry the tags: the empty list in one line, or a
/// block list with one line for each tag.
pub open spec fn tag_rows(tags: Seq<Seq<char>>) -> Seq<Seq<char>> {
    if tags.len() == 0 {
        seq!["tags: []"@]
    } else {
        seq!["tags:"@] + tags.map_values(|t: Seq<char>| tag_line(t))
    }
}

/// How a flag is written.
pub open spec fn bool_text(b: bool) -> Seq<char> {
    if b {
        "true"@
    } else {
        "false"@
    }
}

/// The lines between the two delimiters of the header of `f`, in their
/// fixed order.
pub open spec fn header_lines(f: FrontmatterView) -> Seq<Seq<char>> {
    seq![
        quoted_line("title"@, escaped(f.title)),
        plain_line("layout"@, f.layout),
        quoted_line("date"@, f.date),
        quoted_line("description"@, escaped(f.description)),
        plain_line("statut"@, f.statut),
    ] + tag_rows(f.tags) + seq![
        quoted_line("updated"@, f.updated),
        plain_line("archived"@, bool_text(f.archived)),
    ]
}

/// The text between the two delimiters of the header of `f`.
pub open spec fn header_yaml(f: FrontmatterView) -> Seq<char> {
    join(header_lines(f), "\n"@)
}

/// The header block of `f`, both delimiter lines included.
pub open spec fn header_text(f: FrontmatterView) -> Seq<char> {
    "---\n"@ + header_yaml(f) + "\n---\n"@
}

/// The text of a note file: the header block, and after a blank line the
/// body, unless the body is empty.
pub open spec fn content_text(f: FrontmatterView, body: Seq<char>) -> Seq<char> {
    if body.len() == 0 {
        header_text(f)
    } else {
        header_text(f) + "\n"@ + body
    }
}

fn quoted(key: &str, value: &str) -> (r: String)
    ensures
        r@ == quoted_line(key@, value@),
{
    let mut r = String::from_str(key);
    r.append(": \"");
    r.append(value);
    r.append("\"");
    r
}

fn plain(key: &str, value: &str) -> (r: String)
    ensures
        r@ == plain_line(key@, value@),
{
    let mut r = String::from_str(key);
    r.append(": ");
    r.append(value);
    r
}

/// Writes the header block of `frontmatter`.
pub fn format_frontmatter(frontmatter: &Frontmatter) -> (r: String)
    ensures
        r@ == header_text(frontmatter@),
{
    let mut rows: Vec<String> = Vec::new();
    assert(texts(rows@) =~= Seq::<Seq<char>>::empty());
    push_text(&mut rows, quoted("title", escape_yaml_string(frontmatter.title.as_str()).as_str()));
    push_text(&mut rows, plain("layout", frontmatter.layout.as_str()));
    push_text(&mut rows, quoted("date", frontmatter.date.as_str()));
    push_text(
        &mut rows,
        quoted("description", escape_yaml_string(frontmatter.description.as_str()).as_str()),
    );
    push_text(&mut rows, plain("statut", frontmatter.statut.as_str()));
    let ghost head = texts(rows@);
    let ghost tags = texts(frontmatter.tags@);
    if frontmatter.tags.len() == 0 {
        push_text(&mut rows, String::from_str("tags: []"));
        assert(texts(rows@) =~= head + tag_rows(tags));
    } else {
        push_text(&mut rows, String::from_str("tags:"));
        let mut i: usize = 0;
        assert(texts(rows@) =~= head + seq!["tags:"@] + tags.take(0).map_values(
            |t: Seq<char>| tag_line(t),
        ));
        while i < frontmatter.tags.len()
            invariant
                i <= frontmatter.tags.len(),
                tags == texts(frontmatter.tags@),
                texts(rows@) == head + seq!["tags:"@] + tags.take(i as int).map_values(
                    |t: Seq<char>| tag_line(t),
                ),
            decreases frontmatter.tags.len() - i,
        {
            let mut row = String::from_str("  - ");
            row.append(escape_yaml_string(frontmatter.tags[i].as_str()).as_str());
            assert(row@ == tag_line(tags[i as int]));
            push_text(&mut rows, row);
            i += 1;
            assert(texts(rows@) =~= head + seq!["tags:"@] + tags.take(i as int).map_values(
                |t: Seq<char>| tag_line(t),
            ));
        }
        assert(tags.take(i as int) =~= tags);
        assert(texts(rows@) =~= head + tag_rows(tags));
    }
    push_text(&mut rows, quoted("updated", frontmatter.updated.as_str()));
    push_text(&mut rows, plain("archived", if frontmatter.archived { "true" } else { "false" }));
    assert(texts(rows@) =~= header_lines(frontmatter@));
    let mut r = String::from_str("---\n");
    r.append(join_texts(&rows, "\n").as_str());
    r.append("\n---\n");
    r
}

/// Writes a note file: the header block of `frontmatter`, and after a blank
/// line the body, unless the body is empty.
pub fn build_content(frontmatter: &Frontmatter, body: &str) -> (r: String)
    ensures
        r@ == content_text(frontmatter@, body@),
{
    let mut r = format_frontmatter(frontmatter);
    if !body.is_empty() {
        r.append("\n");
        r.append(body);
    }
    r
}

/// Whether `line` is a delimiter of the header: three hyphens, with
/// nothing but white space around them.
pub open spec fn is_delimiter(line: Seq<char>) -> bool {
    trim(line) == "---"@
}

fn delimiter_row(line: &Vec<char>) -> (r: bool)
    ensures
        r == is_delimiter(line@),
{
    proof {
        reveal_strlit("---");
    }
    let (a, b) = trim_bounds(line);
    let ghost t = line@.subrange(a as int, b as int);
    assert("---"@.len() == 3 && "---"@[0] == '-' && "---"@[1] == '-' && "---"@[2] == '-');
    assert(t == trim(line@) && t.len() == b - a);
    if b - a != 3 {
        return false;
    }
    if line[a] == '-' && line[a + 1] == '-' && line[a + 2] == '-' {
        assert(t =~= "---"@);
        true
    } else {
        assert(t[0] == line@[a as int] && t[1] == line@[a + 1] && t[2] == line@[a + 2]);
        false
    }
}

/// The index of the first delimiter among `ls[from..]`, or the length of
/// `ls` where there is none.
pub open spec fn find_delimiter(ls: Seq<Seq<char>>, from: int) -> int
    decreases ls.len() - from,
{
    if from >= ls.len() {
        ls.len() as int
    } else if from >= 0 && is_delimiter(ls[from]) {
        from
    } else {
        find_delimiter(ls, from + 1)
    }
}

/// An index from `from` on before which no line is a delimiter, and at which
/// one is or the lines end, is the one that `find_delimiter` gives.
pub proof fn lemma_find_delimiter(ls: Seq<Seq<char>>, from: int, k: int)
    requires
        0 <= from <= k <= ls.len(),
        forall|i: int| from <= i < k ==> !is_delimiter(#[trigger] ls[i]),
        k < ls.len() ==> is_delimiter(ls[k]),
    ensures
        find_delimiter(ls, from) == k,
    decreases k - from,
{
    if from < k {
        lemma_find_delimiter(ls, from + 1, k);
    }
}

/// The body that the lines after the closing delimiter make. One empty line
/// at their head is the separator and no part of the body.
pub open spec fn body_of(rest: Seq<Seq<char>>) -> Seq<char> {
    if rest.len() > 0 && rest[0].len() == 0 {
        join(rest.drop_first(), "\n"@)
    } else {
        join(rest, "\n"@)
    }
}

/// A note file taken apart: the text between the delimiters and the body.
pub struct Framed {
    pub yaml: Seq<char>,
    pub body: Seq<char>,
}

/// `content` taken apart into the text between the two delimiters and the
/// body, or the message that says why it cannot be.
pub open spec fn framed(content: Seq<char>) -> Result<Framed, Seq<char>> {
    let ls = lines(content);
    if ls.len() == 0 {
        Err("Empty file"@)
    } else if !is_delimiter(ls[0]) {
        Err("Missing frontmatter"@)
    } else {
        let k = find_delimiter(ls, 1);
        if k >= ls.len() {
            Err("Frontmatter not closed"@)
        } else {
            Ok(Framed { yaml: join(ls.subrange(1, k), "\n"@), body: body_of(ls.skip(k + 1)) })
        }
    }
}

/// Takes a note file apart: the first line must be a delimiter; the lines up
/// to the next delimiter are the header's text; what follows it is the body.
pub fn split_frontmatter(content: &str) -> (r: Result<(String, String), NotesError>)
    ensures
        match r {
            Ok(p) => framed(content@) == Ok::<Framed, Seq<char>>(Framed { yaml: p.0@, body: p.1@ }),
            Err(e) => framed(content@) == Err::<Framed, Seq<char>>(e@),
        },
{
    let chars = chars_of(content);
    let ls = split_lines(&chars);
    let ghost all = rows(ls@);
    if ls.len() == 0 {
        return Err(NotesError::new("Empty file"));
    }
    if !delimiter_row(&ls[0]) {
        return Err(NotesError::new("Missing frontmatter"));
    }
    let mut k: usize = 1;
    while k < ls.len() && !delimiter_row(&ls[k])
        invariant
            1 <= k <= ls.len(),
            all == rows(ls@),
            forall|i: int| 1 <= i < k ==> !is_delimiter(#[trigger] all[i]),
        decreases ls.len() - k,
    {
        k += 1;
    }
    proof {
        lemma_find_delimiter(all, 1, k as int);
    }
    if k == ls.len() {
        return Err(NotesError::new("Frontmatter not closed"));
    }
    let yaml = join_rows(&ls, 1, k, "\n");
    let from: usize = if k + 1 < ls.len() && ls[k + 1].len() == 0 {
        k + 2
    } else {
        k + 1
    };
    let body = join_rows(&ls, from, ls.len(), "\n");
    proof {
        let rest = all.skip(k + 1);
        assert(all.subrange(k + 1, ls.len() as int) =~= rest);
        if from == k + 2 {
            assert(rest[0] == all[k + 1]);
            assert(all.subrange(k + 2, ls.len() as int) =~= rest.drop_first());
        }
    }
    Ok((yaml, body))
}

/// What parsing `content` gives where decoding its header's text gave
/// `decoded`: the header and the body, or the message of the first failure.
pub open spec fn parsed(content: Seq<char>, decoded: Result<FrontmatterView, Seq<char>>) -> Result<
    (FrontmatterView, Seq<char>),
    Seq<char>,
> {
    match framed(content) {
        Err(m) => Err(m),
        Ok(parts) => match decoded {
            Err(m) => Err("Invalid frontmatter: "@ + m),
            Ok(f) => match frontmatter_fault(f) {
                Some(m) => Err(m),
                None => Ok((f, parts.body)),
            },
        },
    }
}

/// The model of what the header's decoder gave.
pub open spec fn decoded_view(decoded: Result<Frontmatter, String>) -> Result<
    FrontmatterView,
    Seq<char>,
> {
    match decoded {
        Ok(f) => Ok(f@),
        Err(m) => Err(m@),
    }
}

/// Parses a note file. `decoded` is what decoding the header's text, as
/// `split_frontmatter` hands it out, gave: the fields, or the decoder's
/// message. The file must frame a header, the header must decode, and the
/// fields must obey the rules; the first of these to fail is the error.
pub fn parse_frontmatter(content: &str, decoded: &Result<Frontmatter, String>) -> (r: Result<
    (Frontmatter, String),
    NotesError,
>)
    ensures
        match r {
            Ok(p) => parsed(content@, decoded_view(*decoded)) == Ok::<
                (FrontmatterView, Seq<char>),
                Seq<char>,
            >((p.0@, p.1@)),
            Err(e) => parsed(content@, decoded_view(*decoded)) == Err::<
                (FrontmatterView, Seq<char>),
                Seq<char>,
            >(e@),
        },
{
    let body = match split_frontmatter(content) {
        Ok(parts) => parts.1,
        Err(e) => { return Err(e); },
    };
    let frontmatter = match decoded {
        Ok(f) => f.duplicate(),
        Err(m) => {
            let mut text = String::from_str("Invalid frontmatter: ");
            text.append(m.as_str());
            return Err(NotesError::new(text.as_str()));
        },
    };
    match validate_frontmatter(&frontmatter) {
        Ok(_) => Ok((frontmatter, body)),
        Err(e) => Err(e),
    }
}

/// Whether every text field of `f` is free of line breaks, so that each
/// is written on a line of its own.
pub open spec fn one_line_fields(f: FrontmatterView) -> bool {
    &&& single_line(f.title)
    &&& single_line(f.layout)
    &&& single_line(f.date)
    &&& single_line(f.description)
    &&& single_line(f.statut)
    &&& single_line(f.updated)
    &&& forall|i: int| 0 <= i < f.tags.len() ==> single_line(#[trigger] f.tags[i])
}

/// Whether `text` is the text that its own lines make: it does not end in a
/// line feed, and no carriage return stands before one.
pub open spec fn plain_text(text: Seq<char>) -> bool {
    join(lines(text), "\n"@) == text
}

/// Whether the header of `f` is framed as it is written: the text between
/// the delimiters is the text that its own lines make, and none of its lines
/// is a delimiter.
pub open spec fn frames_cleanly(f: FrontmatterView) -> bool {
    &&& plain_text(header_yaml(f))
    &&& forall|i: int|
        0 <= i < lines(header_yaml(f)).len() ==> !is_delimiter(#[trigger] lines(header_yaml(f))[i])
}

proof fn lemma_escaped_single_line(s: Seq<char>)
    requires
        single_line(s),
    ensures
        single_line(escaped(s)),
    decreases s.len(),
{
    if s.len() > 0 {
        let t = s.drop_last();
        assert forall|i: int| 0 <= i < t.len() implies (#[trigger] t[i]) != '\n' && t[i]
            != '\r' by {
            assert(t[i] == s[i]);
        }
        lemma_escaped_single_line(t);
        assert(s.last() == s[s.len() - 1]);
    }
}

proof fn lemma_lettered_line(l: Seq<char>)
    requires
        l.len() > 0,
        !is_space(l[0]),
        l[0] != '-',
    ensures
        !is_delimiter(l),
{
    reveal_strlit("---");
    lemma_leading_spaces(l, 0);
    lemma_trim_ends(l);
    assert(trim(l)[0] == l[0]);
}

proof fn lemma_tag_line(tag: Seq<char>)
    requires
        single_line(tag),
    ensures
        single_line(tag_line(tag)),
        !is_delimiter(tag_line(tag)),
{
    reveal_strlit("---");
    reveal_strlit("  - ");
    let l = tag_line(tag);
    lemma_escaped_single_line(tag);
    lemma_single_line_concat("  - "@, escaped(tag));
    assert(l[0] == ' ' && l[1] == ' ' && l[2] == '-' && l[3] == ' ');
    lemma_leading_spaces(l, 2);
    lemma_trim_ends(l);
    lemma_trailing_spaces_ends(l);
    let t = trim(l);
    if t.len() == 3 {
        assert(t[1] == l[3]);
    }
}

proof fn lemma_quoted_line(key: Seq<char>, value: Seq<char>)
    requires
        single_line(key),
        single_line(value),
        key.len() > 0,
        !is_space(key[0]),
        key[0] != '-',
    ensures
        single_line(quoted_line(key, value)),
        !is_delimiter(quoted_line(key, value)),
{
    reveal_strlit(": \"");
    reveal_strlit("\"");
    lemma_single_line_concat(key, ": \""@);
    lemma_single_line_concat(key + ": \""@, value);
    lemma_single_line_concat(key + ": \""@ + value, "\""@);
    assert(quoted_line(key, value)[0] == key[0]);
    lemma_lettered_line(quoted_line(key, value));
}

proof fn lemma_plain_line(key: Seq<char>, value: Seq<char>)
    requires
        single_line(key),
        single_line(value),
        key.len() > 0,
        !is_space(key[0]),
        key[0] != '-',
    ensures
        single_line(plain_line(key, value)),
        !is_delimiter(plain_line(key, value)),
{
    reveal_strlit(": ");
    lemma_single_line_concat(key, ": "@);
    lemma_single_line_concat(key + ": "@, value);
    assert(plain_line(key, value)[0] == key[0]);
    lemma_lettered_line(plain_line(key, value));
}

proof fn lemma_header_lines(f: FrontmatterView)
    requires
        one_line_fields(f),
    ensures
        header_lines(f).len() > 0,
        forall|i: int|
            0 <= i < header_lines(f).len() ==> single_line(#[trigger] header_lines(f)[i])
                && !is_delimiter(header_lines(f)[i]),
{
    reveal_strlit("title");
    reveal_strlit("layout");
    reveal_strlit("date");
    reveal_strlit("description");
    reveal_strlit("statut");
    reveal_strlit("updated");
    reveal_strlit("archived");
    reveal_strlit("tags: []");
    reveal_strlit("tags:");
    reveal_strlit("true");
    reveal_strlit("false");
    lemma_escaped_single_line(f.title);
    lemma_escaped_single_line(f.description);
    lemma_quoted_line("title"@, escaped(f.title));
    lemma_plain_line("layout"@, f.layout);
    lemma_quoted_line("date"@, f.date);
    lemma_quoted_line("description"@, escaped(f.description));
    lemma_plain_line("statut"@, f.statut);
    lemma_quoted_line("updated"@, f.updated);
    lemma_plain_line("archived"@, bool_text(f.archived));
    lemma_lettered_line("tags: []"@);
    lemma_lettered_line("tags:"@);
    let rows = tag_rows(f.tags);
    assert forall|i: int| 0 <= i < rows.len() implies single_line(#[trigger] rows[i])
        && !is_delimiter(rows[i]) by {
        if f.tags.len() > 0 && i > 0 {
            assert(rows[i] == tag_line(f.tags[i - 1]));
            lemma_tag_line(f.tags[i - 1]);
        }
    }
    let all = header_lines(f);
    assert forall|i: int| 0 <= i < all.len() implies single_line(#[trigger] all[i])
        && !is_delimiter(all[i]) by {
        if i < 5 {
        } else if i < 5 + rows.len() {
            assert(all[i] == rows[i - 5]);
        } else {
        }
    }
}

proof fn lemma_yaml_end(f: FrontmatterView)
    ensures
        header_yaml(f).len() > 0,
        header_yaml(f).last() == 'e',
{
    reveal_strlit("archived");
    reveal_strlit(": ");
    reveal_strlit("true");
    reveal_strlit("false");
    let hs = header_lines(f);
    let last = plain_line("archived"@, bool_text(f.archived));
    assert(hs.len() >= 2);
    assert(hs.last() == last);
    assert(last.len() > 0 && last.last() == 'e');
    assert(header_yaml(f) == join(hs.drop_last(), "\n"@) + "\n"@ + last);
}

/// A header whose fields hold no line breaks is framed as it is written.
pub proof fn lemma_one_line_fields_frame(f: FrontmatterView)
    requires
        one_line_fields(f),
    ensures
        frames_cleanly(f),
        lines(header_yaml(f)) == header_lines(f),
{
    reveal_strlit("\n");
    let nl = seq!['\n'];
    assert("\n"@ =~= nl);
    let hs = header_lines(f);
    let yaml = header_yaml(f);
    lemma_header_lines(f);
    lemma_yaml_end(f);
    lemma_lines_joined(hs, Seq::<char>::empty());
    lemma_lines_final_feed(yaml);
    assert(yaml + nl + Seq::<char>::empty() =~= yaml + nl);
    assert(hs + lines(Seq::<char>::empty()) =~= hs);
}

/// What is written is read back: where the fields of `f` obey the rules,
/// the header is framed as it is written, and the body is the text that its
/// lines make, the file written for them frames the header's text and that
/// body, and parsing it, once the header's text decodes to `f`, gives `f` and
/// the body.
pub proof fn law_round_trip(f: FrontmatterView, body: Seq<char>)
    requires
        frontmatter_fault(f) is None,
        frames_cleanly(f),
        plain_text(body),
    ensures
        framed(content_text(f, body)) == Ok::<Framed, Seq<char>>(
            Framed { yaml: header_yaml(f), body },
        ),
        parsed(content_text(f, body), Ok(f)) == Ok::<(FrontmatterView, Seq<char>), Seq<char>>(
            (f, body),
        ),
{
    reveal_strlit("---");
    reveal_strlit("\n");
    reveal_strlit("---\n");
    reveal_strlit("\n---\n");
    let nl = seq!['\n'];
    let bar = "---"@;
    let yaml = header_yaml(f);
    let hs = lines(yaml);
    let content = content_text(f, body);
    let tail = if body.len() == 0 {
        Seq::<char>::empty()
    } else {
        nl + body
    };
    assert("\n"@ =~= nl);
    assert("---\n"@ =~= bar + nl);
    assert("\n---\n"@ =~= nl + bar + nl);
    lemma_yaml_end(f);
    let closing = bar + nl + tail;
    let inner = yaml + nl + closing;
    assert(content =~= bar + nl + inner);
    assert(single_line(bar));
    lemma_lines_first(bar, inner);
    lemma_lines_split(yaml, closing);
    lemma_lines_final_feed(yaml);
    lemma_lines_first(bar, tail);
    let after = lines(tail);
    if body.len() > 0 {
        lemma_lines_first(Seq::<char>::empty(), body);
        assert(tail =~= Seq::<char>::empty() + nl + body);
        assert(after == seq![Seq::<char>::empty()] + lines(body));
        assert(after.drop_first() =~= lines(body));
    } else {
        assert(after =~= Seq::<Seq<char>>::empty());
    }
    let ls = lines(content);
    assert(ls =~= seq![bar] + (hs + (seq![bar] + after)));
    let k = 1 + hs.len() as int;
    lemma_leading_spaces(bar, 0);
    lemma_trailing_spaces(bar, 0);
    assert(trim(bar) =~= bar);
    assert(is_delimiter(ls[0]));
    assert(ls[k] == bar);
    assert forall|i: int| 1 <= i < k implies !is_delimiter(#[trigger] ls[i]) by {
        assert(ls[i] == hs[i - 1]);
    }
    lemma_find_delimiter(ls, 1, k);
    assert(ls.subrange(1, k) =~= hs);
    assert(ls.skip(k + 1) =~= after);
    assert(body_of(after) == body);
}

/// `find_delimiter` gives an index from `from` on, and none behind a
/// delimiter.
pub proof fn lemma_find_delimiter_bound(ls: Seq<Seq<char>>, from: int, k: int)
    requires
        0 <= from <= k < ls.len(),
        is_delimiter(ls[k]),
    ensures
        from <= find_delimiter(ls, from) <= k,
    decreases k - from,
{
    if from < k && !is_delimiter(ls[from]) {
        lemma_find_delimiter_bound(ls, from + 1, k);
    }
}

/// Every file that is written frames a header: it begins with a delimiter
/// and holds another one.
pub proof fn lemma_written_frames(f: FrontmatterView, body: Seq<char>)
    ensures
        framed(content_text(f, body)) is Ok,
{
    reveal_strlit("---");
    reveal_strlit("\n");
    reveal_strlit("---\n");
    reveal_strlit("\n---\n");
    let nl = seq!['\n'];
    let bar = "---"@;
    let yaml = header_yaml(f);
    let content = content_text(f, body);
    let tail = if body.len() == 0 {
        Seq::<char>::empty()
    } else {
        nl + body
    };
    assert("\n"@ =~= nl);
    assert("---\n"@ =~= bar + nl);
    assert("\n---\n"@ =~= nl + bar + nl);
    let closing = bar + nl + tail;
    let inner = yaml + nl + closing;
    assert(content =~= bar + nl + inner);
    assert(single_line(bar));
    lemma_lines_first(bar, inner);
    lemma_lines_split(yaml, closing);
    lemma_lines_first(bar, tail);
    let ys = lines(yaml + nl);
    let ls = lines(content);
    assert(ls =~= seq![bar] + (ys + (seq![bar] + lines(tail))));
    let k = 1 + ys.len() as int;
    lemma_leading_spaces(bar, 0);
    lemma_trailing_spaces(bar, 0);
    assert(trim(bar) =~= bar);
    assert(ls[0] == bar);
    assert(ls[k] == bar);
    lemma_find_delimiter_bound(ls, 1, k);
}

} // verus!
