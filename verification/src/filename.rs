//! File names of notes: the slug made of a title, and the name that is
//! still free in the notes directory.

use vstd::prelude::*;
use crate::models::texts;
use crate::text::{
    chars_of, decimal, ends_with, has_suffix, lemma_decimal_value, push_decimal, push_range,
    same_text,
};

verus! {

/// The most characters that a slug takes from a title.
pub const MAX_SLUG_LEN: usize = 101;

/// Whether a file name may not hold `c`.
pub open spec fn is_forbidden(c: char) -> bool {
    c == '/' || c == '\\' || c == ':' || c == '*' || c == '?' || c == '"' || c == '<' || c == '>'
        || c == '|'
}

/// What a slug holds in place of `c`: an underscore for a space, a hyphen
/// for a character that a file name may not hold, else `c` itself.
pub open spec fn slug_char(c: char) -> char {
    if c == ' ' {
        '_'
    } else if is_forbidden(c) {
        '-'
    } else {
        c
    }
}

/// The slug of `title`: its first `MAX_SLUG_LEN` characters, each replaced
/// as `slug_char` says, or `note` for the empty title.
pub open spec fn slug_of(title: Seq<char>) -> Seq<char> {
    if title.len() == 0 {
        "note"@
    } else if title.len() > MAX_SLUG_LEN {
        title.take(MAX_SLUG_LEN as int).map_values(|c: char| slug_char(c))
    } else {
        title.map_values(|c: char| slug_char(c))
    }
}

/// Makes the part of a file name that stands for `title`.
pub fn slugify_title(title: &str) -> (r: String)
    ensures
        r@ == slug_of(title@),
{
    let chars = chars_of(title);
    if chars.len() == 0 {
        return String::from_str("note");
    }
    let n: usize = if chars.len() > MAX_SLUG_LEN {
        MAX_SLUG_LEN
    } else {
        chars.len()
    };
    let mut slug = String::new();
    let mut i: usize = 0;
    while i < n
        invariant
            i <= n <= chars.len(),
            slug@ == chars@.take(i as int).map_values(|c: char| slug_char(c)),
        decreases n - i,
    {
        let ch = chars[i];
        if ch == ' ' {
            slug.push('_');
        } else if ch == '/' || ch == '\\' || ch == ':' || ch == '*' || ch == '?' || ch == '"'
            || ch == '<' || ch == '>' || ch == '|' {
            slug.push('-');
        } else {
            slug.push(ch);
        }
        i += 1;
        assert(slug@ =~= chars@.take(i as int).map_values(|c: char| slug_char(c)));
    }
    assert(chars@.take(chars.len() as int) =~= chars@);
    slug
}

/// The file name made of a prefix and a slug; `note` stands in for an empty
/// slug.
pub open spec fn filename_of(prefix: Seq<char>, slug: Seq<char>) -> Seq<char> {
    if slug.len() == 0 {
        prefix + "note"@ + ".md"@
    } else {
        prefix + slug + ".md"@
    }
}

/// Makes a file name of a prefix and a slug.
pub fn build_filename(prefix: &str, slug: &str) -> (r: String)
    ensures
        r@ == filename_of(prefix@, slug@),
{
    let mut r = String::from_str(prefix);
    if slug.is_empty() {
        r.append("note");
    } else {
        r.append(slug);
    }
    r.append(".md");
    r
}

/// `base` with `_` and the number `n` put before its `.md`, or at its end
/// where it has none.
pub open spec fn suffixed(base: Seq<char>, n: nat) -> Seq<char> {
    if ends_with(base, ".md"@) {
        base.take(base.len() - 3) + "_"@ + decimal(n) + ".md"@
    } else {
        base + "_"@ + decimal(n)
    }
}

/// Puts `_` and `counter` before the `.md` of `base`, or at its end where
/// it has none.
pub fn append_suffix(base: &str, counter: u128) -> (r: String)
    ensures
        r@ == suffixed(base@, counter as nat),
{
    proof {
        reveal_strlit(".md");
    }
    let chars = chars_of(base);
    let md = chars_of(".md");
    let mut r = String::new();
    if has_suffix(&chars, &md) {
        push_range(&mut r, &chars, 0, chars.len() - 3);
        r.append("_");
        push_decimal(&mut r, counter);
        r.append(".md");
        assert(chars@.subrange(0, chars.len() - 3) =~= base@.take(base@.len() - 3));
    } else {
        r.append(base);
        r.append("_");
        push_decimal(&mut r, counter);
        assert(r@ =~= base@ + "_"@ + decimal(counter as nat));
    }
    r
}

/// The `n`th name that is tried for `base`: `base` itself, then `base` with
/// the numbers from 2 on.
pub open spec fn candidate(base: Seq<char>, n: nat) -> Seq<char> {
    if n <= 1 {
        base
    } else {
        suffixed(base, n)
    }
}

/// Whether `name` can be taken: it is the note's current name, or no file
/// has it.
pub open spec fn is_free(
    names: Seq<Seq<char>>,
    current: Option<Seq<char>>,
    name: Seq<char>,
) -> bool {
    current == Some(name) || !names.contains(name)
}

/// Whether the `n`th candidate is the first that can be taken.
pub open spec fn is_first_free(
    names: Seq<Seq<char>>,
    base: Seq<char>,
    current: Option<Seq<char>>,
    n: nat,
) -> bool {
    &&& n >= 1
    &&& is_free(names, current, candidate(base, n))
    &&& forall|k: nat| 1 <= k < n ==> !is_free(names, current, #[trigger] candidate(base, k))
}

/// The name for `base` among the files `names`: the first candidate that
/// can be taken.
pub open spec fn unique_name(
    names: Seq<Seq<char>>,
    base: Seq<char>,
    current: Option<Seq<char>>,
) -> Seq<char> {
    candidate(base, choose|n: nat| is_first_free(names, base, current, n))
}

/// No two candidates are the same name.
pub proof fn lemma_candidates_differ(base: Seq<char>, a: nat, b: nat)
    requires
        1 <= a < b,
    ensures
        candidate(base, a) != candidate(base, b),
{
    reveal_strlit(".md");
    reveal_strlit("_");
    lemma_decimal_value(a);
    lemma_decimal_value(b);
    let x = candidate(base, a);
    let y = candidate(base, b);
    if a == 1 {
        assert(y.len() > base.len());
    } else if x == y {
        if ends_with(base, ".md"@) {
            let stem = base.take(base.len() - 3);
            assert(x.subrange(stem.len() as int + 1, x.len() - 3) =~= decimal(a));
            assert(y.subrange(stem.len() as int + 1, y.len() - 3) =~= decimal(b));
        } else {
            assert(x.subrange(base.len() as int + 1, x.len() as int) =~= decimal(a));
            assert(y.subrange(base.len() as int + 1, y.len() as int) =~= decimal(b));
        }
        assert(decimal(a) == decimal(b));
    }
}

/// The candidates before the `n`th, as a set.
pub open spec fn candidates_below(base: Seq<char>, n: nat) -> Set<Seq<char>>
    decreases n,
{
    if n <= 1 {
        Set::empty()
    } else {
        candidates_below(base, (n - 1) as nat).insert(candidate(base, (n - 1) as nat))
    }
}

proof fn lemma_candidates_below(base: Seq<char>, n: nat)
    requires
        n >= 1,
    ensures
        candidates_below(base, n).finite(),
        candidates_below(base, n).len() == n - 1,
        forall|x: Seq<char>|
            candidates_below(base, n).contains(x) <==> exists|k: nat|
                1 <= k < n && x == #[trigger] candidate(base, k),
    decreases n,
{
    if n > 1 {
        let m = (n - 1) as nat;
        lemma_candidates_below(base, m);
        let s = candidates_below(base, m);
        let c = candidate(base, m);
        if s.contains(c) {
            let k = choose|k: nat| 1 <= k < m && c == #[trigger] candidate(base, k);
            lemma_candidates_differ(base, k, m);
        }
        assert forall|x: Seq<char>| candidates_below(base, n).contains(x) <==> exists|k: nat|
            1 <= k < n && x == #[trigger] candidate(base, k) by {
            if candidates_below(base, n).contains(x) {
                if x == c {
                    assert(1 <= m < n && x == candidate(base, m));
                } else {
                    let k = choose|k: nat| 1 <= k < m && x == #[trigger] candidate(base, k);
                    assert(1 <= k < n && x == candidate(base, k));
                }
            }
            if exists|k: nat| 1 <= k < n && x == #[trigger] candidate(base, k) {
                let k = choose|k: nat| 1 <= k < n && x == #[trigger] candidate(base, k);
                if k < m {
                    assert(s.contains(x));
                }
            }
        }
    }
}

/// Where the candidates before the `n`th are all names of files, there are
/// at least that many files.
pub proof fn lemma_taken_bound(
    names: Seq<Seq<char>>,
    base: Seq<char>,
    current: Option<Seq<char>>,
    n: nat,
)
    requires
        n >= 1,
        forall|k: nat| 1 <= k < n ==> !is_free(names, current, #[trigger] candidate(base, k)),
    ensures
        n - 1 <= names.len(),
{
    lemma_candidates_below(base, n);
    let s = candidates_below(base, n);
    assert forall|x: Seq<char>| s.contains(x) implies names.to_set().contains(x) by {
        let k = choose|k: nat| 1 <= k < n && x == #[trigger] candidate(base, k);
        assert(!is_free(names, current, candidate(base, k)));
    }
    names.lemma_cardinality_of_set();
    vstd::set_lib::lemma_len_subset(s, names.to_set());
}

/// Only one candidate is the first that can be taken.
pub proof fn lemma_first_free_unique(
    names: Seq<Seq<char>>,
    base: Seq<char>,
    current: Option<Seq<char>>,
    n: nat,
)
    requires
        is_first_free(names, base, current, n),
    ensures
        unique_name(names, base, current) == candidate(base, n),
{
    let m = choose|m: nat| is_first_free(names, base, current, m);
    if m < n {
        assert(!is_free(names, current, candidate(base, m)));
    } else if n < m {
        assert(!is_free(names, current, candidate(base, n)));
    }
}

fn holds_name(names: &Vec<String>, name: &String) -> (r: bool)
    ensures
        r == texts(names@).contains(name@),
{
    let mut i: usize = 0;
    while i < names.len()
        invariant
            i <= names.len(),
            forall|j: int| 0 <= j < i ==> names@[j]@ != name@,
        decreases names.len() - i,
    {
        if names[i] == *name {
            assert(texts(names@)[i as int] == name@);
            return true;
        }
        i += 1;
    }
    proof {
        let s = texts(names@);
        if s.contains(name@) {
            let k = choose|k: int| 0 <= k < s.len() && s[k] == name@;
            assert(names@[k]@ == name@);
        }
    }
    false
}

fn can_take(names: &Vec<String>, current: Option<&str>, name: &String) -> (r: bool)
    ensures
        r == is_free(texts(names@), text_of(current), name@),
{
    match current {
        Some(id) => same_text(id, name.as_str()) || !holds_name(names, name),
        None => !holds_name(names, name),
    }
}

/// The characters of an optional text.
pub open spec fn text_of(s: Option<&str>) -> Option<Seq<char>> {
    match s {
        Some(t) => Some(t@),
        None => None,
    }
}

/// Finds the name under which a note can be written: `base` where it is the
/// note's current name or no file has it, else `base` with the first of the
/// numbers 2, 3, ... that gives such a name. `names` are the names of the
/// files in the notes directory.
pub fn ensure_unique_filename(names: &Vec<String>, base: &str, current: Option<&str>) -> (r:
    String)
    ensures
        r@ == unique_name(texts(names@), base@, text_of(current)),
        is_free(texts(names@), text_of(current), r@),
{
    let ghost all = texts(names@);
    let ghost cur = text_of(current);
    let first = String::from_str(base);
    if can_take(names, current, &first) {
        proof {
            assert(is_first_free(all, base@, cur, 1));
            lemma_first_free_unique(all, base@, cur, 1);
        }
        return first;
    }
    let mut counter: u128 = 2;
    proof {
        assert forall|k: nat| 1 <= k < 2 implies !is_free(
            all,
            cur,
            #[trigger] candidate(base@, k),
        ) by {
            assert(k == 1);
        }
        lemma_taken_bound(all, base@, cur, 2);
    }
    loop
        invariant
            all == texts(names@),
            cur == text_of(current),
            2 <= counter <= names.len() + 1,
            forall|k: nat|
                1 <= k < counter ==> !is_free(all, cur, #[trigger] candidate(base@, k)),
        decreases names.len() + 2 - counter,
    {
        let name = append_suffix(base, counter);
        assert(name@ == candidate(base@, counter as nat));
        if can_take(names, current, &name) {
            proof {
                assert(is_first_free(all, base@, cur, counter as nat));
                lemma_first_free_unique(all, base@, cur, counter as nat);
            }
            return name;
        }
        proof {
            assert forall|k: nat| 1 <= k < counter + 1 implies !is_free(
                all,
                cur,
                #[trigger] candidate(base@, k),
            ) by {
                if k == counter {
                }
            }
            lemma_taken_bound(all, base@, cur, (counter + 1) as nat);
        }
        counter += 1;
    }
}

proof fn lemma_first_free_from(
    names: Seq<Seq<char>>,
    base: Seq<char>,
    current: Option<Seq<char>>,
    n: nat,
)
    requires
        n >= 1,
        forall|k: nat| 1 <= k < n ==> !is_free(names, current, #[trigger] candidate(base, k)),
    ensures
        exists|m: nat| is_first_free(names, base, current, m),
    decreases names.len() + 2 - n,
{
    lemma_taken_bound(names, base, current, n);
    if is_free(names, current, candidate(base, n)) {
        assert(is_first_free(names, base, current, n));
    } else {
        assert forall|k: nat| 1 <= k < n + 1 implies !is_free(
            names,
            current,
            #[trigger] candidate(base, k),
        ) by {
            if k == n {
            }
        }
        lemma_taken_bound(names, base, current, n + 1);
        lemma_first_free_from(names, base, current, n + 1);
    }
}

/// Some candidate can always be taken, so the name for `base` is one: it is
/// a candidate, it can be taken, and every candidate before it cannot.
pub proof fn lemma_unique_name(names: Seq<Seq<char>>, base: Seq<char>, current: Option<Seq<char>>)
    ensures
        exists|n: nat|
            is_first_free(names, base, current, n) && unique_name(names, base, current)
                == candidate(base, n),
        is_free(names, current, unique_name(names, base, current)),
{
    lemma_first_free_from(names, base, current, 1);
    let n = choose|n: nat| is_first_free(names, base, current, n);
    assert(is_first_free(names, base, current, n) && unique_name(names, base, current)
        == candidate(base, n));
}

/// A slug is fit for a file name: it is not empty, it holds at most
/// `MAX_SLUG_LEN` characters, and none of them is a space or a character that
/// a file name may not hold.
pub proof fn law_slug_is_safe(title: Seq<char>)
    ensures
        0 < slug_of(title).len() <= MAX_SLUG_LEN,
        forall|i: int|
            0 <= i < slug_of(title).len() ==> (#[trigger] slug_of(title)[i]) != ' '
                && !is_forbidden(slug_of(title)[i]),
{
    reveal_strlit("note");
}

} // verus!
