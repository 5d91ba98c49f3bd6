//! The search facade: a blank query lists the store, any other query goes
//! to the index, whose hits are turned back into metadata.

use vstd::prelude::*;
use crate::listing::note_views;
use crate::models::{push_text, texts, NoteMetadata, NoteMetadataView};
use crate::notes_fs::{file_views, list_notes, listing, NoteFile, NoteFileView};
use crate::indexer::{row_of, IndexRowView};
use crate::notes_fs::NoteIndexEntryView;
use crate::text::{
    chars_blank, chars_of, has_char, is_blank, is_space, join, lemma_join_front,
    lemma_leading_spaces, lemma_split_first, lemma_split_none, lemma_trailing_spaces, rows,
    same_text, split_chars, split_on, string_of, trim, trim_chars,
};

verus! {

/// A failure of a search, with its description.
#[derive(Debug)]
pub struct SearchError {
    details: String,
}

impl View for SearchError {
    type V = Seq<char>;

    closed spec fn view(&self) -> Seq<char> {
        self.details@
    }
}

impl SearchError {
    /// A failure described by `details`.
    pub fn new(details: &str) -> (e: Self)
        ensures
            e@ == details@,
    {
        SearchError { details: String::from_str(details) }
    }

    /// The description.
    pub fn message(&self) -> (s: String)
        ensures
            s@ == self@,
    {
        self.details.clone()
    }
}

/// Where a query is answered.
#[derive(Debug, Clone, Copy, PartialEq, Eq, Structural)]
pub enum SearchRoute {
    /// By the store's listing.
    Listing,
    /// By the index.
    Index,
}

/// Where `query` is answered: a query of nothing but white space by the
/// store's listing, any other by the index.
pub open spec fn route_of(query: Seq<char>) -> SearchRoute {
    if is_blank(query) {
        SearchRoute::Listing
    } else {
        SearchRoute::Index
    }
}

/// Says where `query` is answered.
pub fn search_route(query: &str) -> (r: SearchRoute)
    ensures
        r == route_of(query@),
{
    if chars_blank(&chars_of(query)) {
        SearchRoute::Listing
    } else {
        SearchRoute::Index
    }
}

/// A hit of the index: the columns of a note's row but its body.
#[derive(Debug, Clone)]
pub struct SearchHit {
    pub id: String,
    pub title: String,
    pub layout: String,
    pub date: String,
    pub description: String,
    pub statut: String,
    pub tags: String,
    pub updated: String,
    pub archived: String,
}

/// What a `SearchHit` holds, as plain sequences.
pub struct SearchHitView {
    pub id: Seq<char>,
    pub title: Seq<char>,
    pub layout: Seq<char>,
    pub date: Seq<char>,
    pub description: Seq<char>,
    pub statut: Seq<char>,
    pub tags: Seq<char>,
    pub updated: Seq<char>,
    pub archived: Seq<char>,
}

impl View for SearchHit {
    type V = SearchHitView;

    open spec fn view(&self) -> SearchHitView {
        SearchHitView {
            id: self.id@,
            title: self.title@,
            layout: self.layout@,
            date: self.date@,
            description: self.description@,
            statut: self.statut@,
            tags: self.tags@,
            updated: self.updated@,
            archived: self.archived@,
        }
    }
}

/// The models of the hits of `v`, in order.
pub open spec fn hit_views(v: Seq<SearchHit>) -> Seq<SearchHitView> {
    v.map_values(|h: SearchHit| h@)
}

/// The pieces of `pieces` without the white space at their ends, but for
/// those that are empty then.
pub open spec fn kept_tags(pieces: Seq<Seq<char>>) -> Seq<Seq<char>>
    decreases pieces.len(),
{
    if pieces.len() == 0 {
        Seq::empty()
    } else {
        let t = trim(pieces.last());
        if t.len() > 0 {
            kept_tags(pieces.drop_last()).push(t)
        } else {
            kept_tags(pieces.drop_last())
        }
    }
}

/// The tags that a row's text of tags stands for: it is cut at each comma,
/// and each piece that is not blank is a tag, without the white space at its
/// ends.
pub open spec fn tags_of(raw: Seq<char>) -> Seq<Seq<char>> {
    kept_tags(split_on(raw, ','))
}

/// Takes a row's text of tags apart.
pub fn split_tags(raw: &str) -> (tags: Vec<String>)
    ensures
        texts(tags@) == tags_of(raw@),
{
    let pieces = split_chars(&chars_of(raw), ',');
    let ghost all = rows(pieces@);
    let mut tags: Vec<String> = Vec::new();
    let mut i: usize = 0;
    assert(all.take(0) =~= Seq::<Seq<char>>::empty());
    assert(texts(tags@) =~= Seq::<Seq<char>>::empty());
    while i < pieces.len()
        invariant
            i <= pieces.len(),
            all == rows(pieces@),
            texts(tags@) == kept_tags(all.take(i as int)),
        decreases pieces.len() - i,
    {
        let t = trim_chars(&pieces[i]);
        proof {
            let next = all.take(i + 1);
            assert(next.drop_last() =~= all.take(i as int));
            assert(next.last() == pieces@[i as int]@);
        }
        if t.len() > 0 {
            push_text(&mut tags, string_of(&t));
        }
        i += 1;
    }
    assert(all.take(pieces.len() as int) =~= all);
    tags
}

/// The metadata that `hit` stands for: the tags are taken apart, and the
/// note is archived where the flag's text is `true`.
pub open spec fn metadata_of_hit(hit: SearchHitView) -> NoteMetadataView {
    NoteMetadataView {
        id: hit.id,
        title: hit.title,
        layout: hit.layout,
        date: hit.date,
        description: hit.description,
        statut: hit.statut,
        tags: tags_of(hit.tags),
        updated: hit.updated,
        archived: hit.archived == "true"@,
    }
}

/// Turns a hit of the index back into metadata.
pub fn metadata_from_row(hit: &SearchHit) -> (m: NoteMetadata)
    ensures
        m@ == metadata_of_hit(hit@),
{
    NoteMetadata {
        id: hit.id.clone(),
        title: hit.title.clone(),
        layout: hit.layout.clone(),
        date: hit.date.clone(),
        description: hit.description.clone(),
        statut: hit.statut.clone(),
        tags: split_tags(hit.tags.as_str()),
        updated: hit.updated.clone(),
        archived: same_text(hit.archived.as_str(), "true"),
    }
}

/// The answer to `query`: for a blank query the store's listing, a failure
/// of the store as a failure of the search; for any other query the metadata
/// of the index's hits, in the order of the hits.
pub open spec fn search_answer(
    query: Seq<char>,
    files: Seq<NoteFileView>,
    hits: Seq<SearchHitView>,
) -> Result<Seq<NoteMetadataView>, Seq<char>> {
    if is_blank(query) {
        listing(files)
    } else {
        Ok(hits.map_values(|h: SearchHitView| metadata_of_hit(h)))
    }
}

/// Answers `query`, given the files of the notes directory and the hits
/// that the index gave for the query, best first. A blank query is answered
/// by the store alone, any other query by the hits alone.
pub fn search_notes(query: &str, files: &Vec<NoteFile>, hits: &Vec<SearchHit>) -> (r: Result<
    Vec<NoteMetadata>,
    SearchError,
>)
    ensures
        match r {
            Ok(v) => search_answer(query@, file_views(files@), hit_views(hits@)) == Ok::<
                Seq<NoteMetadataView>,
                Seq<char>,
            >(note_views(v@)),
            Err(e) => search_answer(query@, file_views(files@), hit_views(hits@)) == Err::<
                Seq<NoteMetadataView>,
                Seq<char>,
            >(e@),
        },
{
    match search_route(query) {
        SearchRoute::Listing => match list_notes(files) {
            Ok(v) => Ok(v),
            Err(e) => Err(SearchError::new(e.message().as_str())),
        },
        SearchRoute::Index => {
            let mut results: Vec<NoteMetadata> = Vec::new();
            let mut i: usize = 0;
            while i < hits.len()
                invariant
                    i <= hits.len(),
                    results.len() == i,
                    forall|k: int| 0 <= k < i ==> results@[k]@ == metadata_of_hit(hits@[k]@),
                decreases hits.len() - i,
            {
                results.push(metadata_from_row(&hits[i]));
                i += 1;
            }
            assert(note_views(results@) =~= hit_views(hits@).map_values(
                |h: SearchHitView| metadata_of_hit(h),
            ));
            Ok(results)
        },
    }
}

/// A query of nothing but white space is answered by the store's listing,
/// whatever the index holds.
pub proof fn law_blank_query_lists(
    query: Seq<char>,
    files: Seq<NoteFileView>,
    hits: Seq<SearchHitView>,
)
    requires
        is_blank(query),
    ensures
        search_answer(query, files, hits) == listing(files),
{
}

/// Whether `t` is a tag that a row keeps as it is: it is not empty, holds
/// no comma, and neither begins nor ends with white space.
pub open spec fn is_plain_tag(t: Seq<char>) -> bool {
    t.len() > 0 && !has_char(t, ',') && !is_space(t[0]) && !is_space(t.last())
}

/// The hit that the index gives for a row.
pub open spec fn hit_of(row: IndexRowView) -> SearchHitView {
    SearchHitView {
        id: row.id,
        title: row.title,
        layout: row.layout,
        date: row.date,
        description: row.description,
        statut: row.statut,
        tags: row.tags,
        updated: row.updated,
        archived: row.archived,
    }
}

proof fn lemma_trim_plain(lead: Seq<char>, t: Seq<char>)
    requires
        is_plain_tag(t),
        is_blank(lead),
    ensures
        trim(lead + t) == t,
{
    let s = lead + t;
    assert forall|i: int| 0 <= i < lead.len() implies is_space(#[trigger] s[i]) by {
        assert(s[i] == lead[i]);
    }
    assert(s[lead.len() as int] == t[0]);
    assert(s[s.len() - 1] == t[t.len() - 1]);
    lemma_leading_spaces(s, lead.len() as int);
    lemma_trailing_spaces(s, 0);
    assert(s.subrange(lead.len() as int, s.len() as int) =~= t);
}

proof fn lemma_kept_plain(pieces: Seq<Seq<char>>, tags: Seq<Seq<char>>)
    requires
        pieces.len() == tags.len(),
        forall|i: int|
            0 <= i < tags.len() ==> trim(#[trigger] pieces[i]) == tags[i] && tags[i].len() > 0,
    ensures
        kept_tags(pieces) == tags,
    decreases pieces.len(),
{
    if pieces.len() == 0 {
        assert(tags =~= Seq::<Seq<char>>::empty());
    } else {
        let p = pieces.drop_last();
        let t = tags.drop_last();
        assert forall|i: int| 0 <= i < t.len() implies trim(#[trigger] p[i]) == t[i] && t[i].len()
            > 0 by {
            assert(p[i] == pieces[i] && t[i] == tags[i]);
        }
        lemma_kept_plain(p, t);
        assert(trim(pieces[pieces.len() - 1]) == tags[tags.len() - 1]);
        assert(t.push(tags.last()) =~= tags);
    }
}

proof fn lemma_split_joined(lead: Seq<char>, tags: Seq<Seq<char>>)
    requires
        tags.len() > 0,
        !has_char(lead, ','),
        forall|i: int| 0 <= i < tags.len() ==> is_plain_tag(#[trigger] tags[i]),
    ensures
        split_on(lead + join(tags, seq![',', ' ']), ',') == seq![lead + tags[0]]
            + tags.drop_first().map_values(|t: Seq<char>| seq![' '] + t),
    decreases tags.len(),
{
    let sep = seq![',', ' '];
    let first = lead + tags[0];
    assert(is_plain_tag(tags[0]));
    assert(!has_char(first, ',')) by {
        if has_char(first, ',') {
            let i = choose|i: int| 0 <= i < first.len() && first[i] == ',';
            if i < lead.len() {
                assert(lead[i] == ',');
            } else {
                assert(tags[0][i - lead.len()] == ',');
            }
        }
    }
    if tags.len() == 1 {
        lemma_split_none(first, ',');
        assert(tags.drop_first().map_values(|t: Seq<char>| seq![' '] + t) =~= Seq::<
            Seq<char>,
        >::empty());
    } else {
        let rest = tags.drop_first();
        lemma_join_front(tags, sep);
        assert forall|i: int| 0 <= i < rest.len() implies is_plain_tag(#[trigger] rest[i]) by {
            assert(rest[i] == tags[i + 1]);
        }
        assert(!has_char(seq![' '], ','));
        lemma_split_joined(seq![' '], rest);
        let tail = seq![' '] + join(rest, sep);
        assert(lead + join(tags, sep) =~= first + seq![','] + tail);
        lemma_split_first(first, ',', tail);
        assert(seq![seq![' '] + rest[0]] + rest.drop_first().map_values(
            |t: Seq<char>| seq![' '] + t,
        ) =~= rest.map_values(|t: Seq<char>| seq![' '] + t));
    }
}

/// Tags that a row keeps as they are come back from the row's text of
/// tags.
pub proof fn lemma_tags_read_back(tags: Seq<Seq<char>>)
    requires
        forall|i: int| 0 <= i < tags.len() ==> is_plain_tag(#[trigger] tags[i]),
    ensures
        tags_of(join(tags, ", "@)) == tags,
{
    reveal_strlit(", ");
    let sep = seq![',', ' '];
    assert(", "@ =~= sep);
    let empty = Seq::<char>::empty();
    if tags.len() == 0 {
        lemma_split_none(empty, ',');
        assert(join(tags, sep) =~= empty);
        lemma_leading_spaces(empty, 0);
        let one = seq![empty];
        assert(one.len() == 1 && one.last() == empty);
        assert(trim(one.last()).len() == 0);
        assert(one.drop_last() =~= Seq::<Seq<char>>::empty());
        assert(kept_tags(one.drop_last()) =~= Seq::<Seq<char>>::empty());
        assert(kept_tags(one) =~= tags);
    } else {
        lemma_split_joined(empty, tags);
        assert(empty + join(tags, sep) =~= join(tags, sep));
        let pieces = split_on(join(tags, sep), ',');
        assert forall|i: int| 0 <= i < tags.len() implies trim(#[trigger] pieces[i]) == tags[i]
            && tags[i].len() > 0 by {
            assert(is_plain_tag(tags[i]));
            if i == 0 {
                lemma_trim_plain(empty, tags[0]);
            } else {
                assert(pieces[i] == seq![' '] + tags[i]);
                lemma_trim_plain(seq![' '], tags[i]);
            }
        }
        lemma_kept_plain(pieces, tags);
    }
}

/// What the index gives back for a note is the note's metadata, where the
/// note's tags are such that a row keeps them as they are.
pub proof fn law_row_reads_back(entry: NoteIndexEntryView)
    requires
        forall|i: int|
            0 <= i < entry.metadata.tags.len() ==> is_plain_tag(#[trigger] entry.metadata.tags[i]),
    ensures
        metadata_of_hit(hit_of(row_of(entry))) == entry.metadata,
{
    reveal_strlit("true");
    reveal_strlit("false");
    lemma_tags_read_back(entry.metadata.tags);
    assert("false"@.len() != "true"@.len());
}

} // verus!
