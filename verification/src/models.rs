//! The values that the store hands to its callers.

use vstd::prelude::*;

verus! {

/// The characters of each text of `v`, in order.
pub open spec fn texts(v: Seq<String>) -> Seq<Seq<char>> {
    v.map_values(|s: String| s@)
}

/// What a `NoteMetadata` holds, as plain sequences.
pub struct NoteMetadataView {
    pub id: Seq<char>,
    pub title: Seq<char>,
    pub layout: Seq<char>,
    pub date: Seq<char>,
    pub description: Seq<char>,
    pub statut: Seq<char>,
    pub tags: Seq<Seq<char>>,
    pub updated: Seq<char>,
    pub archived: bool,
}

/// A note's identity, which is its file name, and its descriptive fields.
#[derive(Debug, Clone)]
pub struct NoteMetadata {
    pub id: String,
    pub title: String,
    pub layout: String,
    pub date: String,
    pub description: String,
    pub statut: String,
    pub tags: Vec<String>,
    pub updated: String,
    pub archived: bool,
}

impl View for NoteMetadata {
    type V = NoteMetadataView;

    open spec fn view(&self) -> NoteMetadataView {
        NoteMetadataView {
            id: self.id@,
            title: self.title@,
            layout: self.layout@,
            date: self.date@,
            description: self.description@,
            statut: self.statut@,
            tags: texts(self.tags@),
            updated: self.updated@,
            archived: self.archived,
        }
    }
}

/// What a `NoteDetail` holds, as plain sequences.
pub struct NoteDetailView {
    pub metadata: NoteMetadataView,
    pub content: Seq<char>,
}

/// A note's metadata with the text of its file: header block and body.
#[derive(Debug, Clone)]
pub struct NoteDetail {
    pub metadata: NoteMetadata,
    pub content: String,
}

impl View for NoteDetail {
    type V = NoteDetailView;

    open spec fn view(&self) -> NoteDetailView {
        NoteDetailView { metadata: self.metadata@, content: self.content@ }
    }
}

/// Appending a text appends its characters to the model.
pub proof fn lemma_texts_push(v: Seq<String>, s: String)
    ensures
        texts(v.push(s)) == texts(v).push(s@),
{
    assert(texts(v.push(s)) =~= texts(v).push(s@));
}

/// Appends `s` to `v`.
pub fn push_text(v: &mut Vec<String>, s: String)
    ensures
        texts(final(v)@) == texts(old(v)@).push(s@),
{
    proof {
        lemma_texts_push(v@, s);
    }
    v.push(s);
}

/// A copy of `tags` that holds the same texts.
pub fn copy_texts(tags: &Vec<String>) -> (r: Vec<String>)
    ensures
        texts(r@) == texts(tags@),
{
    let mut r: Vec<String> = Vec::new();
    let mut i: usize = 0;
    while i < tags.len()
        invariant
            i <= tags.len(),
            r.len() == i,
            forall|j: int| 0 <= j < i ==> r@[j]@ == tags@[j]@,
        decreases tags.len() - i,
    {
        r.push(tags[i].clone());
        i += 1;
    }
    assert(texts(r@) =~= texts(tags@));
    r
}

/// Whether two lists hold the same texts in the same order.
pub fn same_texts(a: &Vec<String>, b: &Vec<String>) -> (r: bool)
    ensures
        r == (texts(a@) == texts(b@)),
{
    if a.len() != b.len() {
        assert(texts(a@).len() != texts(b@).len());
        return false;
    }
    let mut i: usize = 0;
    while i < a.len()
        invariant
            i <= a.len(),
            a.len() == b.len(),
            forall|j: int| 0 <= j < i ==> a@[j]@ == b@[j]@,
        decreases a.len() - i,
    {
        if a[i] != b[i] {
            assert(texts(a@)[i as int] != texts(b@)[i as int]);
            return false;
        }
        i += 1;
    }
    assert(texts(a@) =~= texts(b@));
    true
}

impl NoteMetadata {
    /// A copy that holds the same values.
    pub fn duplicate(&self) -> (r: NoteMetadata)
        ensures
            r@ == self@,
    {
        NoteMetadata {
            id: self.id.clone(),
            title: self.title.clone(),
            layout: self.layout.clone(),
            date: self.date.clone(),
            description: self.description.clone(),
            statut: self.statut.clone(),
            tags: copy_texts(&self.tags),
            updated: self.updated.clone(),
            archived: self.archived,
        }
    }
}

} // verus!
