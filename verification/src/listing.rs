//! The order of a listing: newest date first, and among notes of one date
//! the title that stands last in the order of texts first.

use vstd::prelude::*;
use crate::models::{NoteMetadata, NoteMetadataView};
use crate::text::{
    lemma_text_lt_asymmetric, lemma_text_lt_total, lemma_text_lt_transitive, text_before, text_lt,
};

verus! {

/// A note with the date that its `date` parses to: the year and the day of
/// the year, or `None` where it parses to none.
#[derive(Debug)]
pub struct DatedNote {
    pub key: Option<(i32, u32)>,
    pub note: NoteMetadata,
}

/// What a `DatedNote` holds, as plain sequences.
pub struct Dated {
    pub key: Option<(i32, u32)>,
    pub note: NoteMetadataView,
}

impl View for DatedNote {
    type V = Dated;

    open spec fn view(&self) -> Dated {
        Dated { key: self.key, note: self.note@ }
    }
}

/// The models of the notes of `v`, in order.
pub open spec fn dated_views(v: Seq<DatedNote>) -> Seq<Dated> {
    v.map_values(|d: DatedNote| d@)
}

/// The models of the notes of `v`, in order.
pub open spec fn note_views(v: Seq<NoteMetadata>) -> Seq<NoteMetadataView> {
    v.map_values(|m: NoteMetadata| m@)
}

/// Whether the date `a` is earlier than the date `b`. No date is earlier
/// than any date; dates go by the year, then by the day of the year.
pub open spec fn key_lt(a: Option<(i32, u32)>, b: Option<(i32, u32)>) -> bool {
    match (a, b) {
        (None, None) => false,
        (None, Some(_)) => true,
        (Some(_), None) => false,
        (Some(x), Some(y)) => x.0 < y.0 || (x.0 == y.0 && x.1 < y.1),
    }
}

/// Whether `a` must stand before `b` in a listing: its date is later, or
/// the dates are equal and its title stands after that of `b` in the order
/// of texts.
pub open spec fn comes_before(a: Dated, b: Dated) -> bool {
    key_lt(b.key, a.key) || (a.key == b.key && text_lt(b.note.title, a.note.title))
}

/// `sorted` with `x` put behind the last note that need not stand behind
/// it.
pub open spec fn insert_dated(sorted: Seq<Dated>, x: Dated) -> Seq<Dated>
    decreases sorted.len(),
{
    if sorted.len() == 0 {
        seq![x]
    } else if comes_before(x, sorted.last()) {
        insert_dated(sorted.drop_last(), x).push(sorted.last())
    } else {
        sorted.push(x)
    }
}

/// The notes of `items` in the order of a listing. Notes that need not
/// stand one before the other keep the order in which they came.
pub open spec fn sort_dated(items: Seq<Dated>) -> Seq<Dated>
    decreases items.len(),
{
    if items.len() == 0 {
        Seq::empty()
    } else {
        insert_dated(sort_dated(items.drop_last()), items.last())
    }
}

/// The listing of `items`.
pub open spec fn listed(items: Seq<Dated>) -> Seq<NoteMetadataView> {
    sort_dated(items).map_values(|d: Dated| d.note)
}

/// A place behind which `x` must stand before every note, and before which
/// stands a note that need not stand behind `x`, is where `insert_dated` puts
/// `x`.
pub proof fn lemma_insert_at(s: Seq<Dated>, x: Dated, j: int)
    requires
        0 <= j <= s.len(),
        forall|k: int| j <= k < s.len() ==> comes_before(x, #[trigger] s[k]),
        j > 0 ==> !comes_before(x, s[j - 1]),
    ensures
        insert_dated(s, x) == s.insert(j, x),
    decreases s.len(),
{
    if s.len() == 0 {
        assert(s.insert(j, x) =~= seq![x]);
    } else if j == s.len() {
        assert(s.insert(j, x) =~= s.push(x));
    } else {
        let t = s.drop_last();
        assert forall|k: int| j <= k < t.len() implies comes_before(x, #[trigger] t[k]) by {
            assert(t[k] == s[k]);
        }
        if j > 0 {
            assert(t[j - 1] == s[j - 1]);
        }
        lemma_insert_at(t, x, j);
        assert(t.insert(j, x).push(s.last()) =~= s.insert(j, x));
    }
}

fn date_earlier(a: Option<(i32, u32)>, b: Option<(i32, u32)>) -> (r: bool)
    ensures
        r == key_lt(a, b),
{
    match (a, b) {
        (None, None) => false,
        (None, Some(_)) => true,
        (Some(_), None) => false,
        (Some(x), Some(y)) => x.0 < y.0 || (x.0 == y.0 && x.1 < y.1),
    }
}

fn same_date(a: Option<(i32, u32)>, b: Option<(i32, u32)>) -> (r: bool)
    ensures
        r == (a == b),
{
    match (a, b) {
        (None, None) => true,
        (Some(x), Some(y)) => x.0 == y.0 && x.1 == y.1,
        _ => false,
    }
}

fn stands_before(a: &DatedNote, b: &DatedNote) -> (r: bool)
    ensures
        r == comes_before(a@, b@),
{
    date_earlier(b.key, a.key) || (same_date(a.key, b.key) && text_before(
        b.note.title.as_str(),
        a.note.title.as_str(),
    ))
}

/// Puts notes in the order of a listing, given the date of each.
pub fn sort_notes(items: &Vec<DatedNote>) -> (r: Vec<NoteMetadata>)
    ensures
        note_views(r@) == listed(dated_views(items@)),
{
    let ghost all = dated_views(items@);
    let mut sorted: Vec<DatedNote> = Vec::new();
    let mut i: usize = 0;
    assert(all.take(0) =~= Seq::<Dated>::empty());
    assert(dated_views(sorted@) =~= Seq::<Dated>::empty());
    while i < items.len()
        invariant
            i <= items.len(),
            all == dated_views(items@),
            dated_views(sorted@) == sort_dated(all.take(i as int)),
        decreases items.len() - i,
    {
        let x = DatedNote { key: items[i].key, note: items[i].note.duplicate() };
        let ghost before = dated_views(sorted@);
        let mut j: usize = sorted.len();
        while j > 0 && stands_before(&x, &sorted[j - 1])
            invariant
                j <= sorted.len(),
                before == dated_views(sorted@),
                forall|k: int| j <= k < sorted.len() ==> comes_before(x@, #[trigger] before[k]),
            decreases j,
        {
            j -= 1;
        }
        proof {
            lemma_insert_at(before, x@, j as int);
            let next = all.take(i + 1);
            assert(next.drop_last() =~= all.take(i as int));
            assert(next.last() == x@);
        }
        sorted.insert(j, x);
        assert(dated_views(sorted@) =~= before.insert(j as int, x@));
        i += 1;
    }
    assert(all.take(items.len() as int) =~= all);
    let mut r: Vec<NoteMetadata> = Vec::new();
    let mut k: usize = 0;
    while k < sorted.len()
        invariant
            k <= sorted.len(),
            r.len() == k,
            forall|m: int| 0 <= m < k ==> r@[m]@ == sorted@[m]@.note,
        decreases sorted.len() - k,
    {
        r.push(sorted[k].note.duplicate());
        k += 1;
    }
    assert(note_views(r@) =~= dated_views(sorted@).map_values(|d: Dated| d.note));
    r
}

/// Putting a note in adds that note and no other.
pub proof fn lemma_insert_keeps(s: Seq<Dated>, x: Dated)
    ensures
        insert_dated(s, x).len() == s.len() + 1,
        forall|y: Dated|
            #[trigger] insert_dated(s, x).contains(y) <==> (s.contains(y) || y == x),
    decreases s.len(),
{
    let r = insert_dated(s, x);
    if s.len() == 0 {
        assert forall|y: Dated| r.contains(y) <==> (s.contains(y) || y == x) by {
            if y == x {
                assert(r[0] == y);
            }
        }
    } else if comes_before(x, s.last()) {
        let t = s.drop_last();
        let u = insert_dated(t, x);
        lemma_insert_keeps(t, x);
        assert forall|y: Dated| r.contains(y) <==> (s.contains(y) || y == x) by {
            if r.contains(y) {
                let i = choose|i: int| 0 <= i < r.len() && r[i] == y;
                if i < u.len() {
                    assert(u[i] == y);
                    assert(u.contains(y));
                    if t.contains(y) {
                        let k = choose|k: int| 0 <= k < t.len() && t[k] == y;
                        assert(s[k] == y);
                    }
                } else {
                    assert(s[s.len() - 1] == y);
                }
            }
            if s.contains(y) {
                let k = choose|k: int| 0 <= k < s.len() && s[k] == y;
                if k < t.len() {
                    assert(t[k] == y);
                    assert(t.contains(y));
                    assert(u.contains(y));
                    let i = choose|i: int| 0 <= i < u.len() && u[i] == y;
                    assert(r[i] == y);
                } else {
                    assert(r[r.len() - 1] == y);
                }
            }
            if y == x {
                assert(u.contains(x));
                let i = choose|i: int| 0 <= i < u.len() && u[i] == y;
                assert(r[i] == y);
            }
        }
    } else {
        assert forall|y: Dated| r.contains(y) <==> (s.contains(y) || y == x) by {
            if r.contains(y) {
                let i = choose|i: int| 0 <= i < r.len() && r[i] == y;
                if i < s.len() {
                    assert(s[i] == y);
                }
            }
            if s.contains(y) {
                let k = choose|k: int| 0 <= k < s.len() && s[k] == y;
                assert(r[k] == y);
            }
            if y == x {
                assert(r[s.len() as int] == y);
            }
        }
    }
}

/// A listing holds the notes that it was made of: as many, and each of
/// them.
pub proof fn lemma_sort_keeps(items: Seq<Dated>)
    ensures
        sort_dated(items).len() == items.len(),
        forall|y: Dated| #[trigger] sort_dated(items).contains(y) <==> items.contains(y),
        forall|y: Dated| #[trigger] items.contains(y) ==> sort_dated(items).contains(y),
    decreases items.len(),
{
    if items.len() > 0 {
        let t = items.drop_last();
        let x = items.last();
        lemma_sort_keeps(t);
        lemma_insert_keeps(sort_dated(t), x);
        assert forall|y: Dated| sort_dated(items).contains(y) <==> items.contains(y) by {
            if items.contains(y) {
                let k = choose|k: int| 0 <= k < items.len() && items[k] == y;
                if k < t.len() {
                    assert(t[k] == y);
                }
            }
            if t.contains(y) {
                let k = choose|k: int| 0 <= k < t.len() && t[k] == y;
                assert(items[k] == y);
            }
            if y == x {
                assert(items[items.len() - 1] == y);
            }
        }
    }
}

/// Whether no note of `s` must stand before a note that stands before it.
pub open spec fn in_order(s: Seq<Dated>) -> bool {
    forall|i: int, j: int| 0 <= i < j < s.len() ==> !comes_before(#[trigger] s[j], #[trigger] s[i])
}

/// Of two notes at most one must stand before the other.
pub proof fn lemma_order_asymmetric(a: Dated, b: Dated)
    requires
        comes_before(a, b),
    ensures
        !comes_before(b, a),
{
    if a.key == b.key {
        lemma_text_lt_asymmetric(b.note.title, a.note.title);
    }
}

/// Where a first note need not stand before a second, nor the second
/// before a third, the first need not stand before the third.
pub proof fn lemma_order_chains(a: Dated, b: Dated, c: Dated)
    requires
        !comes_before(a, b),
        !comes_before(b, c),
    ensures
        !comes_before(a, c),
{
    lemma_text_lt_total(a.note.title, b.note.title);
    lemma_text_lt_total(b.note.title, c.note.title);
    if text_lt(c.note.title, a.note.title) {
        if text_lt(a.note.title, b.note.title) {
            lemma_text_lt_transitive(c.note.title, a.note.title, b.note.title);
        }
    }
}

proof fn lemma_insert_in_order(s: Seq<Dated>, x: Dated)
    requires
        in_order(s),
    ensures
        in_order(insert_dated(s, x)),
    decreases s.len(),
{
    let r = insert_dated(s, x);
    if s.len() == 0 {
    } else if comes_before(x, s.last()) {
        let t = s.drop_last();
        let u = insert_dated(t, x);
        assert forall|i: int, j: int| 0 <= i < j < t.len() implies !comes_before(
            #[trigger] t[j],
            #[trigger] t[i],
        ) by {
            assert(t[i] == s[i] && t[j] == s[j]);
        }
        lemma_insert_in_order(t, x);
        lemma_insert_keeps(t, x);
        lemma_order_asymmetric(x, s.last());
        assert forall|i: int, j: int| 0 <= i < j < r.len() implies !comes_before(
            #[trigger] r[j],
            #[trigger] r[i],
        ) by {
            if j < u.len() {
                assert(r[i] == u[i] && r[j] == u[j]);
            } else {
                assert(r[j] == s.last());
                assert(r[i] == u[i]);
                assert(u.contains(u[i]));
                if u[i] != x {
                    assert(t.contains(u[i]));
                    let k = choose|k: int| 0 <= k < t.len() && t[k] == u[i];
                    assert(s[k] == u[i]);
                    assert(!comes_before(s[s.len() - 1], s[k]));
                }
            }
        }
    } else {
        assert forall|i: int, j: int| 0 <= i < j < r.len() implies !comes_before(
            #[trigger] r[j],
            #[trigger] r[i],
        ) by {
            if j < s.len() {
                assert(r[i] == s[i] && r[j] == s[j]);
            } else {
                assert(r[j] == x);
                assert(r[i] == s[i]);
                if i < s.len() - 1 {
                    assert(!comes_before(s[s.len() - 1], s[i]));
                    lemma_order_chains(x, s.last(), s[i]);
                }
            }
        }
    }
}

/// A listing is in order: no note stands behind a note that it must stand
/// before, so dates never rise along it, and titles of one date never rise.
pub proof fn law_listing_in_order(items: Seq<Dated>)
    ensures
        in_order(sort_dated(items)),
    decreases items.len(),
{
    if items.len() > 0 {
        law_listing_in_order(items.drop_last());
        lemma_insert_in_order(sort_dated(items.drop_last()), items.last());
    }
}

} // verus!
