//! Text as sequences of characters: the model that every contract of the
//! crate speaks in, and the verified routines that work on it.

use vstd::prelude::*;

verus! {

/// `String::push` appends one character to the text.
pub assume_specification[ String::push ](s: &mut String, c: char)
    ensures
        final(s)@ == old(s)@.push(c),
;

/// The characters of `s`, in order.
pub fn chars_of(s: &str) -> (v: Vec<char>)
    ensures
        v@ == s@,
{
    let mut v: Vec<char> = Vec::new();
    for c in it: s.chars()
        invariant
            it.seq() == s@,
            v@ =~= it.seq().take(it.index() as int),
    {
        v.push(c);
    }
    assert(v@ =~= s@);
    v
}

/// Appends the characters `v[from..to]` to `out`.
pub fn push_range(out: &mut String, v: &Vec<char>, from: usize, to: usize)
    requires
        from <= to <= v.len(),
    ensures
        final(out)@ == old(out)@ + v@.subrange(from as int, to as int),
{
    let mut i: usize = from;
    while i < to
        invariant
            from <= i <= to <= v.len(),
            out@ == old(out)@ + v@.subrange(from as int, i as int),
        decreases to - i,
    {
        out.push(v[i]);
        i += 1;
        assert(out@ =~= old(out)@ + v@.subrange(from as int, i as int));
    }
    assert(out@ =~= old(out)@ + v@.subrange(from as int, to as int));
}

/// The text made of the characters `v[from..to]`.
pub fn string_of_range(v: &Vec<char>, from: usize, to: usize) -> (s: String)
    requires
        from <= to <= v.len(),
    ensures
        s@ == v@.subrange(from as int, to as int),
{
    let mut s = String::new();
    push_range(&mut s, v, from, to);
    assert(s@ =~= v@.subrange(from as int, to as int));
    s
}

/// The text made of the characters of `v`.
pub fn string_of(v: &Vec<char>) -> (s: String)
    ensures
        s@ == v@,
{
    let s = string_of_range(v, 0, v.len());
    assert(s@ =~= v@);
    s
}

/// Whether two texts hold the same characters.
pub fn same_text(a: &str, b: &str) -> (r: bool)
    ensures
        r == (a@ == b@),
{
    let x = chars_of(a);
    let y = chars_of(b);
    same_chars(&x, &y)
}

/// Whether two vectors hold the same characters.
pub fn same_chars(a: &Vec<char>, b: &Vec<char>) -> (r: bool)
    ensures
        r == (a@ == b@),
{
    if a.len() != b.len() {
        return false;
    }
    let mut i: usize = 0;
    while i < a.len()
        invariant
            i <= a.len(),
            a.len() == b.len(),
            forall|j: int| 0 <= j < i ==> a@[j] == b@[j],
        decreases a.len() - i,
    {
        if a[i] != b[i] {
            return false;
        }
        i += 1;
    }
    assert(a@ =~= b@);
    true
}

/// Whether `c` occurs in `s`.
pub open spec fn has_char(s: Seq<char>, c: char) -> bool {
    exists|i: int| 0 <= i < s.len() && s[i] == c
}

/// Whether `c` occurs in `v`.
pub fn contains_char(v: &Vec<char>, c: char) -> (r: bool)
    ensures
        r == has_char(v@, c),
{
    let mut i: usize = 0;
    while i < v.len()
        invariant
            i <= v.len(),
            forall|j: int| 0 <= j < i ==> v@[j] != c,
        decreases v.len() - i,
    {
        if v[i] == c {
            return true;
        }
        i += 1;
    }
    false
}

/// Whether `s` ends with the characters of `suffix`.
pub open spec fn ends_with(s: Seq<char>, suffix: Seq<char>) -> bool {
    s.len() >= suffix.len() && s.skip(s.len() - suffix.len()) == suffix
}

/// Whether `v` ends with the characters of `suffix`.
pub fn has_suffix(v: &Vec<char>, suffix: &Vec<char>) -> (r: bool)
    ensures
        r == ends_with(v@, suffix@),
{
    if v.len() < suffix.len() {
        return false;
    }
    let base: usize = v.len() - suffix.len();
    let mut i: usize = 0;
    while i < suffix.len()
        invariant
            i <= suffix.len(),
            base + suffix.len() == v.len(),
            forall|j: int| 0 <= j < i ==> v@[base + j] == suffix@[j],
        decreases suffix.len() - i,
    {
        if v[base + i] != suffix[i] {
            assert(v@.skip(base as int)[i as int] != suffix@[i as int]);
            return false;
        }
        i += 1;
    }
    assert(v@.skip(base as int) =~= suffix@);
    true
}

/// Whether `c` is white space, as Unicode defines `White_Space`.
pub open spec fn is_space(c: char) -> bool {
    let n = c as u32;
    (0x09 <= n <= 0x0D) || n == 0x20 || n == 0x85 || n == 0xA0 || n == 0x1680 || (0x2000 <= n
        <= 0x200A) || n == 0x2028 || n == 0x2029 || n == 0x202F || n == 0x205F || n == 0x3000
}

/// Whether `c` is white space.
pub fn char_is_space(c: char) -> (r: bool)
    ensures
        r == is_space(c),
{
    let n: u32 = c as u32;
    (0x09 <= n && n <= 0x0D) || n == 0x20 || n == 0x85 || n == 0xA0 || n == 0x1680 || (0x2000 <= n
        && n <= 0x200A) || n == 0x2028 || n == 0x2029 || n == 0x202F || n == 0x205F || n == 0x3000
}

/// Whether `s` holds nothing but white space.
pub open spec fn is_blank(s: Seq<char>) -> bool {
    forall|i: int| 0 <= i < s.len() ==> is_space(#[trigger] s[i])
}

/// Whether `v` holds nothing but white space.
pub fn chars_blank(v: &Vec<char>) -> (r: bool)
    ensures
        r == is_blank(v@),
{
    let mut i: usize = 0;
    while i < v.len()
        invariant
            i <= v.len(),
            forall|j: int| 0 <= j < i ==> is_space(#[trigger] v@[j]),
        decreases v.len() - i,
    {
        if !char_is_space(v[i]) {
            return false;
        }
        i += 1;
    }
    true
}

/// The characters of each row of `v`, in order.
pub open spec fn rows(v: Seq<Vec<char>>) -> Seq<Seq<char>> {
    v.map_values(|l: Vec<char>| l@)
}

/// The index of the first `c` in `s`, or the length of `s` where there is
/// none.
pub open spec fn find_char(s: Seq<char>, c: char) -> nat
    decreases s.len(),
{
    if s.len() == 0 {
        0
    } else if s[0] == c {
        0
    } else {
        1 + find_char(s.drop_first(), c)
    }
}

/// `find_char` gives the least index of `c`.
pub proof fn lemma_find_char(s: Seq<char>, c: char)
    ensures
        find_char(s, c) <= s.len(),
        forall|i: int| 0 <= i < find_char(s, c) ==> s[i] != c,
        find_char(s, c) < s.len() ==> s[find_char(s, c) as int] == c,
    decreases s.len(),
{
    if s.len() > 0 && s[0] != c {
        let t = s.drop_first();
        lemma_find_char(t, c);
        assert forall|i: int| 0 <= i < find_char(s, c) implies s[i] != c by {
            if i > 0 {
                assert(s[i] == t[i - 1]);
            }
        }
        if find_char(s, c) < s.len() {
            assert(s[find_char(s, c) as int] == t[find_char(t, c) as int]);
        }
    }
}

/// An index before which `c` does not occur, and at which it does or the
/// text ends, is the one that `find_char` gives.
pub proof fn lemma_find_char_at(s: Seq<char>, c: char, k: int)
    requires
        0 <= k <= s.len(),
        forall|i: int| 0 <= i < k ==> s[i] != c,
        k < s.len() ==> s[k] == c,
    ensures
        find_char(s, c) == k,
{
    lemma_find_char(s, c);
    let f = find_char(s, c) as int;
    if f < k {
        assert(s[f] == c);
    } else if k < f {
        assert(s[k] == c);
    }
}

/// `l` without one carriage return at its end.
pub open spec fn strip_cr(l: Seq<char>) -> Seq<char> {
    if l.len() > 0 && l.last() == '\r' {
        l.drop_last()
    } else {
        l
    }
}

/// The lines of `s`: the text is cut after each line feed; a line's line
/// feed, and a carriage return before it, are not part of the line; what
/// follows the last line feed is a line unless it is empty.
pub open spec fn lines(s: Seq<char>) -> Seq<Seq<char>>
    decreases s.len(),
{
    if s.len() == 0 {
        Seq::empty()
    } else {
        let i = find_char(s, '\n');
        if i >= s.len() {
            seq![s]
        } else {
            seq![strip_cr(s.take(i as int))] + lines(s.skip(i + 1 as int))
        }
    }
}

/// The lines of `v`.
pub fn split_lines(v: &Vec<char>) -> (out: Vec<Vec<char>>)
    ensures
        rows(out@) == lines(v@),
{
    let mut out: Vec<Vec<char>> = Vec::new();
    let mut start: usize = 0;
    let mut i: usize = 0;
    let mut line: Vec<char> = Vec::new();
    assert(v@.skip(0) =~= v@);
    assert(rows(out@) + lines(v@) =~= lines(v@));
    while i < v.len()
        invariant
            start <= i <= v.len(),
            line@ == v@.subrange(start as int, i as int),
            forall|j: int| start <= j < i ==> v@[j] != '\n',
            rows(out@) + lines(v@.skip(start as int)) == lines(v@),
        decreases v.len() - i,
    {
        let c = v[i];
        if c == '\n' {
            let ghost rest = v@.skip(start as int);
            let ghost whole = line@;
            let ghost before = rows(out@);
            proof {
                lemma_find_char_at(rest, '\n', i - start);
                assert(rest.take(i - start) =~= whole);
                assert(rest.skip(i - start + 1) =~= v@.skip(i + 1));
                assert(lines(rest) == seq![strip_cr(whole)] + lines(v@.skip(i + 1)));
            }
            let n = line.len();
            if n > 0 && line[n - 1] == '\r' {
                line.pop();
            }
            assert(line@ =~= strip_cr(whole));
            out.push(line);
            line = Vec::new();
            start = i + 1;
            proof {
                assert(rows(out@) =~= before.push(strip_cr(whole)));
                assert(before.push(strip_cr(whole)) + lines(v@.skip(start as int)) =~= before + (
                seq![strip_cr(whole)] + lines(v@.skip(start as int))));
            }
        } else {
            line.push(c);
        }
        i += 1;
        assert(line@ =~= v@.subrange(start as int, i as int));
    }
    if start < v.len() {
        proof {
            let rest = v@.skip(start as int);
            lemma_find_char_at(rest, '\n', rest.len() as int);
            assert(rest =~= line@);
        }
        let ghost before = rows(out@);
        out.push(line);
        assert(rows(out@) =~= before + seq![v@.skip(start as int)]);
    } else {
        assert(rows(out@) + Seq::<Seq<char>>::empty() =~= rows(out@));
    }
    out
}

/// The parts of `parts` in order, with `sep` between each two.
pub open spec fn join(parts: Seq<Seq<char>>, sep: Seq<char>) -> Seq<char>
    decreases parts.len(),
{
    if parts.len() == 0 {
        Seq::empty()
    } else if parts.len() == 1 {
        parts[0]
    } else {
        join(parts.drop_last(), sep) + sep + parts.last()
    }
}

/// The rows `parts[from..to]`, with `sep` between each two.
pub fn join_rows(parts: &Vec<Vec<char>>, from: usize, to: usize, sep: &str) -> (r: String)
    requires
        from <= to <= parts.len(),
    ensures
        r@ == join(rows(parts@).subrange(from as int, to as int), sep@),
{
    let mut r = String::new();
    let mut i: usize = from;
    let ghost all = rows(parts@);
    while i < to
        invariant
            from <= i <= to <= parts.len(),
            all == rows(parts@),
            r@ == join(all.subrange(from as int, i as int), sep@),
        decreases to - i,
    {
        if i > from {
            r.append(sep);
        }
        push_range(&mut r, &parts[i], 0, parts[i].len());
        proof {
            let next = all.subrange(from as int, i + 1);
            assert(next.drop_last() =~= all.subrange(from as int, i as int));
            assert(next.last() == parts@[i as int]@);
            let part = parts@[i as int]@;
            assert(part.subrange(0, part.len() as int) =~= part);
            if i == from {
                assert(r@ =~= next[0]);
            }
        }
        i += 1;
    }
    r
}

/// The texts of `parts` in order, with `sep` between each two.
pub fn join_texts(parts: &Vec<String>, sep: &str) -> (r: String)
    ensures
        r@ == join(parts@.map_values(|s: String| s@), sep@),
{
    let mut r = String::new();
    let mut i: usize = 0;
    let ghost all = parts@.map_values(|s: String| s@);
    assert(all.take(0) =~= Seq::<Seq<char>>::empty());
    while i < parts.len()
        invariant
            i <= parts.len(),
            all == parts@.map_values(|s: String| s@),
            r@ == join(all.take(i as int), sep@),
        decreases parts.len() - i,
    {
        if i > 0 {
            r.append(sep);
        }
        r.append(parts[i].as_str());
        proof {
            let next = all.take(i + 1);
            assert(next.drop_last() =~= all.take(i as int));
            assert(next.last() == parts@[i as int]@);
            if i == 0 {
                assert(r@ =~= next[0]);
            }
        }
        i += 1;
    }
    assert(all.take(parts.len() as int) =~= all);
    r
}

/// The pieces of `s` between the occurrences of `c`: one more than there
/// are occurrences.
pub open spec fn split_on(s: Seq<char>, c: char) -> Seq<Seq<char>>
    decreases s.len(),
{
    let i = find_char(s, c);
    if i >= s.len() {
        seq![s]
    } else {
        seq![s.take(i as int)] + split_on(s.skip(i as int + 1), c)
    }
}

/// The pieces of `v` between the occurrences of `c`.
pub fn split_chars(v: &Vec<char>, c: char) -> (out: Vec<Vec<char>>)
    ensures
        rows(out@) == split_on(v@, c),
{
    let mut out: Vec<Vec<char>> = Vec::new();
    let mut start: usize = 0;
    let mut i: usize = 0;
    let mut piece: Vec<char> = Vec::new();
    assert(v@.skip(0) =~= v@);
    assert(rows(out@) + split_on(v@, c) =~= split_on(v@, c));
    while i < v.len()
        invariant
            start <= i <= v.len(),
            piece@ == v@.subrange(start as int, i as int),
            forall|j: int| start <= j < i ==> v@[j] != c,
            rows(out@) + split_on(v@.skip(start as int), c) == split_on(v@, c),
        decreases v.len() - i,
    {
        let x = v[i];
        if x == c {
            let ghost rest = v@.skip(start as int);
            let ghost whole = piece@;
            let ghost before = rows(out@);
            proof {
                lemma_find_char_at(rest, c, i - start);
                assert(rest.take(i - start) =~= whole);
                assert(rest.skip(i - start + 1) =~= v@.skip(i + 1));
                assert(split_on(rest, c) == seq![whole] + split_on(v@.skip(i + 1), c));
            }
            out.push(piece);
            piece = Vec::new();
            start = i + 1;
            proof {
                assert(rows(out@) =~= before.push(whole));
                assert(before.push(whole) + split_on(v@.skip(start as int), c) =~= before + (
                seq![whole] + split_on(v@.skip(start as int), c)));
            }
        } else {
            piece.push(x);
        }
        i += 1;
        assert(piece@ =~= v@.subrange(start as int, i as int));
    }
    proof {
        let rest = v@.skip(start as int);
        lemma_find_char_at(rest, c, rest.len() as int);
        assert(rest =~= piece@);
    }
    let ghost before = rows(out@);
    out.push(piece);
    assert(rows(out@) =~= before + seq![v@.skip(start as int)]);
    out
}

/// How many white spaces `s` begins with.
pub open spec fn leading_spaces(s: Seq<char>) -> nat
    decreases s.len(),
{
    if s.len() > 0 && is_space(s[0]) {
        1 + leading_spaces(s.drop_first())
    } else {
        0
    }
}

/// How many white spaces `s` ends with.
pub open spec fn trailing_spaces(s: Seq<char>) -> nat
    decreases s.len(),
{
    if s.len() > 0 && is_space(s.last()) {
        1 + trailing_spaces(s.drop_last())
    } else {
        0
    }
}

/// `s` without the white space at its two ends.
pub open spec fn trim(s: Seq<char>) -> Seq<char> {
    let a = leading_spaces(s);
    if a >= s.len() {
        Seq::empty()
    } else {
        s.subrange(a as int, s.len() - trailing_spaces(s))
    }
}

/// A count of white spaces at the start, after which the text ends or goes
/// on with another character, is the one that `leading_spaces` gives.
pub proof fn lemma_leading_spaces(s: Seq<char>, k: int)
    requires
        0 <= k <= s.len(),
        forall|i: int| 0 <= i < k ==> is_space(#[trigger] s[i]),
        k < s.len() ==> !is_space(s[k]),
    ensures
        leading_spaces(s) == k,
    decreases k,
{
    if k > 0 {
        let t = s.drop_first();
        assert forall|i: int| 0 <= i < k - 1 implies is_space(#[trigger] t[i]) by {
            assert(t[i] == s[i + 1]);
        }
        lemma_leading_spaces(t, k - 1);
    }
}

/// A count of white spaces at the end, before which the text begins or has
/// another character, is the one that `trailing_spaces` gives.
pub proof fn lemma_trailing_spaces(s: Seq<char>, k: int)
    requires
        0 <= k <= s.len(),
        forall|i: int| s.len() - k <= i < s.len() ==> is_space(#[trigger] s[i]),
        k < s.len() ==> !is_space(s[s.len() - k - 1]),
    ensures
        trailing_spaces(s) == k,
    decreases k,
{
    if k > 0 {
        let t = s.drop_last();
        assert forall|i: int| t.len() - (k - 1) <= i < t.len() implies is_space(
            #[trigger] t[i],
        ) by {
            assert(t[i] == s[i]);
        }
        lemma_trailing_spaces(t, k - 1);
    }
}

/// The bounds of `v` without the white space at its two ends.
pub fn trim_bounds(v: &Vec<char>) -> (r: (usize, usize))
    ensures
        r.0 <= r.1 <= v.len(),
        v@.subrange(r.0 as int, r.1 as int) == trim(v@),
        is_blank(v@) == (r.0 == r.1),
{
    let mut a: usize = 0;
    while a < v.len() && char_is_space(v[a])
        invariant
            a <= v.len(),
            forall|i: int| 0 <= i < a ==> is_space(#[trigger] v@[i]),
        decreases v.len() - a,
    {
        a += 1;
    }
    proof {
        lemma_leading_spaces(v@, a as int);
    }
    if a == v.len() {
        assert(v@.subrange(a as int, a as int) =~= Seq::<char>::empty());
        return (a, a);
    }
    let mut b: usize = v.len();
    while b > a && char_is_space(v[b - 1])
        invariant
            a < v.len(),
            !is_space(v@[a as int]),
            a <= b <= v.len(),
            forall|i: int| b <= i < v.len() ==> is_space(#[trigger] v@[i]),
        decreases b,
    {
        b -= 1;
    }
    proof {
        lemma_trailing_spaces(v@, v.len() - b);
    }
    (a, b)
}

/// The characters of `v` without the white space at its two ends.
pub fn trim_chars(v: &Vec<char>) -> (r: Vec<char>)
    ensures
        r@ == trim(v@),
{
    let (a, b) = trim_bounds(v);
    let mut r: Vec<char> = Vec::new();
    let mut i: usize = a;
    while i < b
        invariant
            a <= i <= b <= v.len(),
            r@ == v@.subrange(a as int, i as int),
        decreases b - i,
    {
        r.push(v[i]);
        i += 1;
        assert(r@ =~= v@.subrange(a as int, i as int));
    }
    r
}

/// Before the count that `leading_spaces` gives stands white space only,
/// and at it the text ends or goes on with another character.
pub proof fn lemma_leading_spaces_ends(s: Seq<char>)
    ensures
        leading_spaces(s) <= s.len(),
        forall|i: int| 0 <= i < leading_spaces(s) ==> is_space(#[trigger] s[i]),
        leading_spaces(s) < s.len() ==> !is_space(s[leading_spaces(s) as int]),
    decreases s.len(),
{
    if s.len() > 0 && is_space(s[0]) {
        let t = s.drop_first();
        lemma_leading_spaces_ends(t);
        assert forall|i: int| 0 <= i < leading_spaces(s) implies is_space(#[trigger] s[i]) by {
            if i > 0 {
                assert(s[i] == t[i - 1]);
            }
        }
        if leading_spaces(s) < s.len() {
            assert(s[leading_spaces(s) as int] == t[leading_spaces(t) as int]);
        }
    }
}

/// After the count that `trailing_spaces` gives, taken from the end, stands
/// white space only, and before it the text begins or has another character.
pub proof fn lemma_trailing_spaces_ends(s: Seq<char>)
    ensures
        trailing_spaces(s) <= s.len(),
        forall|i: int| s.len() - trailing_spaces(s) <= i < s.len() ==> is_space(#[trigger] s[i]),
        trailing_spaces(s) < s.len() ==> !is_space(s[s.len() - trailing_spaces(s) - 1]),
    decreases s.len(),
{
    if s.len() > 0 && is_space(s.last()) {
        let t = s.drop_last();
        lemma_trailing_spaces_ends(t);
        assert forall|i: int| s.len() - trailing_spaces(s) <= i < s.len() implies is_space(
            #[trigger] s[i],
        ) by {
            if i < s.len() - 1 {
                assert(s[i] == t[i]);
            }
        }
        if trailing_spaces(s) < s.len() {
            assert(s[s.len() - trailing_spaces(s) - 1] == t[t.len() - trailing_spaces(t) - 1]);
        }
    }
}

/// A text that is not blank is trimmed to the stretch from its first to its
/// last character that is no white space.
pub proof fn lemma_trim_ends(s: Seq<char>)
    requires
        !is_blank(s),
    ensures
        leading_spaces(s) + trailing_spaces(s) < s.len(),
        trim(s) == s.subrange(leading_spaces(s) as int, s.len() - trailing_spaces(s)),
        !is_space(trim(s)[0]),
        !is_space(trim(s).last()),
{
    lemma_leading_spaces_ends(s);
    lemma_trailing_spaces_ends(s);
    let a = leading_spaces(s) as int;
    let t = trailing_spaces(s) as int;
    let k = choose|k: int| 0 <= k < s.len() && !is_space(#[trigger] s[k]);
    assert(a <= k);
    assert(k < s.len() - t);
}

/// Whether `s` holds neither a line feed nor a carriage return.
pub open spec fn single_line(s: Seq<char>) -> bool {
    forall|i: int| 0 <= i < s.len() ==> (#[trigger] s[i]) != '\n' && s[i] != '\r'
}

/// Two texts without line breaks make one without line breaks.
pub proof fn lemma_single_line_concat(a: Seq<char>, b: Seq<char>)
    requires
        single_line(a),
        single_line(b),
    ensures
        single_line(a + b),
{
    assert forall|i: int| 0 <= i < (a + b).len() implies (#[trigger] (a + b)[i]) != '\n' && (a
        + b)[i] != '\r' by {
        if i < a.len() {
            assert((a + b)[i] == a[i]);
        } else {
            assert((a + b)[i] == b[i - a.len()]);
        }
    }
}

/// A text without line breaks, a line feed and more text: the first line is
/// that text, and the other lines are those of the rest.
pub proof fn lemma_lines_first(l: Seq<char>, rest: Seq<char>)
    requires
        single_line(l),
    ensures
        lines(l + seq!['\n'] + rest) == seq![l] + lines(rest),
{
    let s = l + seq!['\n'] + rest;
    assert(s[l.len() as int] == '\n');
    assert forall|i: int| 0 <= i < l.len() implies s[i] != '\n' by {
        assert(s[i] == l[i]);
    }
    lemma_find_char_at(s, '\n', l.len() as int);
    assert(s.take(l.len() as int) =~= l);
    assert(s.skip(l.len() as int + 1) =~= rest);
    if l.len() > 0 {
        assert(l.last() == l[l.len() - 1]);
    }
    assert(strip_cr(l) == l);
}

/// Texts without line breaks joined by line feeds, a line feed and more
/// text: the first lines are those texts, and the others are those of the
/// rest.
pub proof fn lemma_lines_joined(ls: Seq<Seq<char>>, rest: Seq<char>)
    requires
        ls.len() > 0,
        forall|i: int| 0 <= i < ls.len() ==> single_line(#[trigger] ls[i]),
    ensures
        lines(join(ls, seq!['\n']) + seq!['\n'] + rest) == ls + lines(rest),
    decreases ls.len(),
{
    let nl = seq!['\n'];
    if ls.len() == 1 {
        lemma_lines_first(ls[0], rest);
        assert(seq![ls[0]] =~= ls);
    } else {
        let front = ls.drop_last();
        let last = ls.last();
        let tail = last + nl + rest;
        assert forall|i: int| 0 <= i < front.len() implies single_line(#[trigger] front[i]) by {
            assert(front[i] == ls[i]);
        }
        lemma_lines_joined(front, tail);
        lemma_lines_first(last, rest);
        assert(join(ls, nl) + nl + rest =~= join(front, nl) + nl + tail);
        assert(front + (seq![last] + lines(rest)) =~= ls + lines(rest));
    }
}

/// The decimal digit for `d`, which is below ten.
pub open spec fn digit(d: nat) -> char {
    if d == 0 {
        '0'
    } else if d == 1 {
        '1'
    } else if d == 2 {
        '2'
    } else if d == 3 {
        '3'
    } else if d == 4 {
        '4'
    } else if d == 5 {
        '5'
    } else if d == 6 {
        '6'
    } else if d == 7 {
        '7'
    } else if d == 8 {
        '8'
    } else {
        '9'
    }
}

/// The number that a decimal digit stands for.
pub open spec fn digit_value(c: char) -> nat {
    if c == '0' {
        0
    } else if c == '1' {
        1
    } else if c == '2' {
        2
    } else if c == '3' {
        3
    } else if c == '4' {
        4
    } else if c == '5' {
        5
    } else if c == '6' {
        6
    } else if c == '7' {
        7
    } else if c == '8' {
        8
    } else {
        9
    }
}

/// `n` written in decimal digits, without leading zeros.
pub open spec fn decimal(n: nat) -> Seq<char>
    decreases n,
{
    if n < 10 {
        seq![digit(n)]
    } else {
        decimal(n / 10).push(digit(n % 10))
    }
}

/// The number that a text of decimal digits stands for.
pub open spec fn decimal_value(s: Seq<char>) -> nat
    decreases s.len(),
{
    if s.len() == 0 {
        0
    } else {
        decimal_value(s.drop_last()) * 10 + digit_value(s.last())
    }
}

/// Reading what `decimal` wrote gives the number back, so `decimal` writes
/// no two numbers alike.
pub proof fn lemma_decimal_value(n: nat)
    ensures
        decimal_value(decimal(n)) == n,
        decimal(n).len() > 0,
    decreases n,
{
    if n < 10 {
        let s = seq![digit(n)];
        assert(s.drop_last() =~= Seq::<char>::empty());
        assert(s.last() == digit(n));
        assert(decimal_value(s.drop_last()) == 0);
    } else {
        lemma_decimal_value(n / 10);
        let s = decimal(n / 10).push(digit(n % 10));
        assert(s.drop_last() =~= decimal(n / 10));
        assert(s.last() == digit(n % 10));
    }
}

fn digit_char(d: u128) -> (c: char)
    requires
        d < 10,
    ensures
        c == digit(d as nat),
{
    if d == 0 {
        '0'
    } else if d == 1 {
        '1'
    } else if d == 2 {
        '2'
    } else if d == 3 {
        '3'
    } else if d == 4 {
        '4'
    } else if d == 5 {
        '5'
    } else if d == 6 {
        '6'
    } else if d == 7 {
        '7'
    } else if d == 8 {
        '8'
    } else {
        '9'
    }
}

/// Appends `n` in decimal digits to `out`.
pub fn push_decimal(out: &mut String, n: u128)
    ensures
        final(out)@ == old(out)@ + decimal(n as nat),
    decreases n,
{
    if n >= 10 {
        push_decimal(out, n / 10);
    }
    out.push(digit_char(n % 10));
    assert(out@ =~= old(out)@ + decimal(n as nat));
}

/// Whether `a` stands before `b` in the order of texts: at the first
/// place where they differ `a` has the lower character, or `a` ends there and
/// `b` goes on. This is the order in which `String` compares.
pub open spec fn text_lt(a: Seq<char>, b: Seq<char>) -> bool
    decreases a.len(),
{
    if b.len() == 0 {
        false
    } else if a.len() == 0 {
        true
    } else if a[0] != b[0] {
        (a[0] as u32) < (b[0] as u32)
    } else {
        text_lt(a.drop_first(), b.drop_first())
    }
}

/// Whether `a` stands before `b` in the order of texts.
pub fn chars_before(a: &Vec<char>, b: &Vec<char>) -> (r: bool)
    ensures
        r == text_lt(a@, b@),
{
    let mut i: usize = 0;
    assert(a@.skip(0) =~= a@ && b@.skip(0) =~= b@);
    while i < a.len() && i < b.len()
        invariant
            i <= a.len(),
            i <= b.len(),
            text_lt(a@, b@) == text_lt(a@.skip(i as int), b@.skip(i as int)),
        decreases a.len() - i,
    {
        let x = a[i];
        let y = b[i];
        proof {
            assert(a@.skip(i as int)[0] == x && b@.skip(i as int)[0] == y);
            assert(a@.skip(i as int).drop_first() =~= a@.skip(i + 1));
            assert(b@.skip(i as int).drop_first() =~= b@.skip(i + 1));
        }
        if x != y {
            return (x as u32) < (y as u32);
        }
        i += 1;
    }
    i < b.len()
}

/// Whether the text `a` stands before the text `b`.
pub fn text_before(a: &str, b: &str) -> (r: bool)
    ensures
        r == text_lt(a@, b@),
{
    chars_before(&chars_of(a), &chars_of(b))
}

/// The lines of a text that ends in a line feed, followed by more text,
/// are the lines of the one and then the lines of the other.
pub proof fn lemma_lines_split(a: Seq<char>, rest: Seq<char>)
    ensures
        lines(a + seq!['\n'] + rest) == lines(a + seq!['\n']) + lines(rest),
    decreases a.len(),
{
    let nl = seq!['\n'];
    let s = a + nl + rest;
    let t = a + nl;
    lemma_find_char(a, '\n');
    let i = find_char(a, '\n') as int;
    assert forall|k: int| 0 <= k < i implies s[k] != '\n' && t[k] != '\n' by {
        assert(s[k] == a[k] && t[k] == a[k]);
    }
    if i < a.len() {
        assert(s[i] == a[i] && t[i] == a[i]);
    } else {
        assert(s[i] == '\n' && t[i] == '\n');
    }
    lemma_find_char_at(s, '\n', i);
    lemma_find_char_at(t, '\n', i);
    assert(s.take(i) =~= a.take(i));
    assert(t.take(i) =~= a.take(i));
    if i < a.len() {
        let b = a.skip(i + 1);
        lemma_lines_split(b, rest);
        assert(s.skip(i + 1) =~= b + nl + rest);
        assert(t.skip(i + 1) =~= b + nl);
        assert(seq![strip_cr(a.take(i))] + (lines(b + nl) + lines(rest)) =~= (seq![
            strip_cr(a.take(i)),
        ] + lines(b + nl)) + lines(rest));
    } else {
        assert(s.skip(i + 1) =~= rest);
        assert(t.skip(i + 1) =~= Seq::<char>::empty());
        assert(lines(t.skip(i + 1)) =~= Seq::<Seq<char>>::empty());
        assert(lines(t) =~= seq![strip_cr(a.take(i))]);
    }
}

/// No text stands before a text that stands before it.
pub proof fn lemma_text_lt_asymmetric(a: Seq<char>, b: Seq<char>)
    requires
        text_lt(a, b),
    ensures
        !text_lt(b, a),
    decreases a.len(),
{
    if a.len() > 0 && b.len() > 0 && a[0] == b[0] {
        lemma_text_lt_asymmetric(a.drop_first(), b.drop_first());
    }
}

/// A text that stands before a second, which stands before a third, stands
/// before the third.
pub proof fn lemma_text_lt_transitive(a: Seq<char>, b: Seq<char>, c: Seq<char>)
    requires
        text_lt(a, b),
        text_lt(b, c),
    ensures
        text_lt(a, c),
    decreases a.len(),
{
    if a.len() > 0 && b.len() > 0 && c.len() > 0 && a[0] == b[0] && b[0] == c[0] {
        lemma_text_lt_transitive(a.drop_first(), b.drop_first(), c.drop_first());
    }
}

proof fn lemma_codes_differ(x: char, y: char)
    requires
        x != y,
    ensures
        (x as u32) != (y as u32),
{
}

/// Of two texts that differ, one stands before the other.
pub proof fn lemma_text_lt_total(a: Seq<char>, b: Seq<char>)
    ensures
        a == b || text_lt(a, b) || text_lt(b, a),
    decreases a.len(),
{
    if a.len() == 0 || b.len() == 0 {
        if a.len() == 0 && b.len() == 0 {
            assert(a =~= b);
        }
    } else if a[0] == b[0] {
        lemma_text_lt_total(a.drop_first(), b.drop_first());
        if a.drop_first() == b.drop_first() {
            assert(a =~= seq![a[0]] + a.drop_first());
            assert(b =~= seq![b[0]] + b.drop_first());
        }
    } else {
        lemma_codes_differ(a[0], b[0]);
    }
}

/// Joining may as well begin at the front: the first part, the separator,
/// and the other parts joined.
pub proof fn lemma_join_front(parts: Seq<Seq<char>>, sep: Seq<char>)
    requires
        parts.len() >= 2,
    ensures
        join(parts, sep) == parts[0] + sep + join(parts.drop_first(), sep),
    decreases parts.len(),
{
    let rest = parts.drop_first();
    let front = parts.drop_last();
    assert(join(parts, sep) == join(front, sep) + sep + parts.last());
    if parts.len() == 2 {
        assert(front.len() == 1 && front[0] == parts[0]);
        assert(join(front, sep) == parts[0]);
        assert(rest.len() == 1 && rest[0] == parts[1]);
        assert(join(rest, sep) == parts[1]);
        assert(parts.last() == parts[1]);
    } else {
        lemma_join_front(front, sep);
        assert(front.drop_first() =~= rest.drop_last());
        assert(rest.last() == parts.last());
        assert(front[0] == parts[0]);
        assert(join(rest, sep) == join(rest.drop_last(), sep) + sep + rest.last());
        assert(join(parts, sep) =~= parts[0] + sep + (join(rest.drop_last(), sep) + sep
            + rest.last()));
    }
}

/// A text without `c`, then `c` and more text: the first piece is that
/// text, and the other pieces are those of the rest.
pub proof fn lemma_split_first(a: Seq<char>, c: char, rest: Seq<char>)
    requires
        !has_char(a, c),
    ensures
        split_on(a + seq![c] + rest, c) == seq![a] + split_on(rest, c),
{
    let s = a + seq![c] + rest;
    assert(s[a.len() as int] == c);
    assert forall|i: int| 0 <= i < a.len() implies s[i] != c by {
        assert(s[i] == a[i]);
    }
    lemma_find_char_at(s, c, a.len() as int);
    assert(s.take(a.len() as int) =~= a);
    assert(s.skip(a.len() as int + 1) =~= rest);
}

/// A text without `c` is its own single piece.
pub proof fn lemma_split_none(a: Seq<char>, c: char)
    requires
        !has_char(a, c),
    ensures
        split_on(a, c) == seq![a],
{
    lemma_find_char_at(a, c, a.len() as int);
}

/// A line feed at the end of a text makes no line of its own: a text that
/// ends neither in a line feed nor in a carriage return has the same lines
/// with a line feed behind it.
pub proof fn lemma_lines_final_feed(y: Seq<char>)
    requires
        y.len() > 0,
        y.last() != '\n',
        y.last() != '\r',
    ensures
        lines(y + seq!['\n']) == lines(y),
    decreases y.len(),
{
    let nl = seq!['\n'];
    let t = y + nl;
    lemma_find_char(y, '\n');
    let i = find_char(y, '\n') as int;
    assert forall|k: int| 0 <= k < i implies t[k] != '\n' by {
        assert(t[k] == y[k]);
    }
    if i < y.len() {
        assert(t[i] == y[i]);
        assert(y[y.len() - 1] != '\n');
        lemma_find_char_at(t, '\n', i);
        let rest = y.skip(i + 1);
        assert(rest.len() > 0 && rest.last() == y.last());
        lemma_lines_final_feed(rest);
        assert(t.take(i) =~= y.take(i));
        assert(t.skip(i + 1) =~= rest + nl);
    } else {
        assert(t[i] == '\n');
        lemma_find_char_at(t, '\n', i);
        assert(t.take(i) =~= y);
        assert(t.skip(i + 1) =~= Seq::<char>::empty());
        assert(lines(t.skip(i + 1)) =~= Seq::<Seq<char>>::empty());
        assert(strip_cr(y) == y);
        assert(lines(t) =~= seq![y]);
    }
}

} // verus!
