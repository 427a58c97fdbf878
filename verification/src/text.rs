//! Character-level helpers on strings, stated over their `Seq<char>` views.

use vstd::prelude::*;

verus! {

/// `needle` occurs in `hay` as a contiguous run of characters starting at `start`.
pub open spec fn occurs_at(hay: Seq<char>, needle: Seq<char>, start: int) -> bool {
    &&& 0 <= start
    &&& start + needle.len() <= hay.len()
    &&& hay.subrange(start, start + needle.len()) =~= needle
}

/// `needle` is a substring of `hay` (the empty string is a substring of every string).
pub open spec fn contains_chars(hay: Seq<char>, needle: Seq<char>) -> bool {
    exists|start: int| occurs_at(hay, needle, start)
}

/// The characters of `s`, in order.
pub fn chars_of(s: &str) -> (v: Vec<char>)
    ensures
        v@ == s@,
{
    let n = s.unicode_len();
    let mut v: Vec<char> = Vec::new();
    let mut i: usize = 0;
    while i < n
        invariant
            n == s@.len(),
            i <= n,
            v@ =~= s@.subrange(0, i as int),
        decreases n - i,
    {
        let c = s.get_char(i);
        v.push(c);
        i = i + 1;
    }
    v
}

fn matches_at(hay: &Vec<char>, needle: &Vec<char>, start: usize) -> (r: bool)
    requires
        start + needle.len() <= hay.len(),
    ensures
        r == occurs_at(hay@, needle@, start as int),
{
    let mut j: usize = 0;
    while j < needle.len()
        invariant
            start + needle.len() <= hay.len(),
            j <= needle.len(),
            forall|k: int| 0 <= k < j ==> hay@[start + k] == needle@[k],
        decreases needle.len() - j,
    {
        if hay[start + j] != needle[j] {
            assert(hay@.subrange(start as int, start + needle.len())[j as int] != needle@[j as int]);
            return false;
        }
        j = j + 1;
    }
    assert(hay@.subrange(start as int, start + needle.len()) =~= needle@);
    true
}

/// Whether `needle` occurs in `hay`, as `str::contains` with a string pattern answers.
pub fn str_contains(hay: &str, needle: &str) -> (r: bool)
    ensures
        r == contains_chars(hay@, needle@),
{
    let h = chars_of(hay);
    let n = chars_of(needle);
    if n.len() > h.len() {
        assert forall|start: int| !occurs_at(hay@, needle@, start) by {}
        return false;
    }
    let last = h.len() - n.len();
    let mut i: usize = 0;
    while i <= last
        invariant
            h@ == hay@,
            n@ == needle@,
            last == h.len() - n.len(),
            n.len() <= h.len(),
            i <= last + 1,
            forall|k: int| 0 <= k < i ==> !occurs_at(hay@, needle@, k),
        decreases last + 1 - i,
    {
        if matches_at(&h, &n, i) {
            return true;
        }
        i = i + 1;
    }
    assert forall|start: int| !occurs_at(hay@, needle@, start) by {}
    false
}

/// The views of a list of owned strings.
pub open spec fn views(v: Seq<String>) -> Seq<Seq<char>> {
    v.map_values(|s: String| s@)
}

/// The views of a list of string slices.
pub open spec fn slice_views(v: Seq<&str>) -> Seq<Seq<char>> {
    v.map_values(|s: &str| s@)
}

/// The pieces of `s` between occurrences of `sep`, as `str::split` with a
/// character pattern yields them: one more piece than `s` holds separators,
/// empty pieces included.
pub open spec fn split_chars(s: Seq<char>, sep: char) -> Seq<Seq<char>>
    decreases s.len(),
{
    if s.len() == 0 {
        seq![Seq::<char>::empty()]
    } else {
        let rest = split_chars(s.drop_last(), sep);
        if s.last() == sep {
            rest.push(Seq::<char>::empty())
        } else {
            rest.update(rest.len() - 1, rest.last().push(s.last()))
        }
    }
}

/// `split_chars` always yields at least one piece.
pub proof fn lemma_split_nonempty(s: Seq<char>, sep: char)
    ensures
        split_chars(s, sep).len() >= 1,
    decreases s.len(),
{
    if s.len() > 0 {
        lemma_split_nonempty(s.drop_last(), sep);
    }
}

/// The pieces joined back together with `sep` between neighbours.
pub open spec fn join_with(pieces: Seq<Seq<char>>, sep: char) -> Seq<char>
    decreases pieces.len(),
{
    if pieces.len() == 0 {
        Seq::empty()
    } else if pieces.len() == 1 {
        pieces[0]
    } else {
        join_with(pieces.drop_last(), sep).push(sep) + pieces.last()
    }
}

/// Splitting at `sep` loses nothing: no piece holds `sep`, and joining the
/// pieces with `sep` gives back the string.
pub proof fn law_split_rejoin(s: Seq<char>, sep: char)
    ensures
        join_with(split_chars(s, sep), sep) == s,
        forall|i: int|
            0 <= i < split_chars(s, sep).len() ==> !(#[trigger] split_chars(s, sep)[i]).contains(
                sep,
            ),
    decreases s.len(),
{
    if s.len() == 0 {
        assert(split_chars(s, sep) =~= seq![Seq::<char>::empty()]);
        assert(join_with(split_chars(s, sep), sep) =~= s);
    } else {
        let s0 = s.drop_last();
        let c = s.last();
        law_split_rejoin(s0, sep);
        lemma_split_nonempty(s0, sep);
        let rest = split_chars(s0, sep);
        let pieces = split_chars(s, sep);
        if c == sep {
            assert(pieces.drop_last() =~= rest);
            assert(join_with(pieces, sep) =~= s0.push(sep));
            assert(s0.push(sep) =~= s);
            assert forall|i: int| 0 <= i < pieces.len() implies !(#[trigger] pieces[i]).contains(
                sep,
            ) by {
                if i < rest.len() {
                    assert(pieces[i] == rest[i]);
                } else {
                    assert(pieces[i] =~= Seq::<char>::empty());
                }
            }
        } else {
            let last = rest.last().push(c);
            assert(pieces == rest.update(rest.len() - 1, last));
            if rest.len() == 1 {
                assert(join_with(rest, sep) == rest[0]);
                assert(join_with(pieces, sep) == last);
                assert(last =~= s0.push(c));
            } else {
                assert(pieces.drop_last() =~= rest.drop_last());
                let front = join_with(rest.drop_last(), sep).push(sep);
                assert(join_with(rest, sep) == front + rest.last());
                assert(join_with(pieces, sep) == front + last);
                assert(front + last =~= (front + rest.last()).push(c));
            }
            assert(s0.push(c) =~= s);
            assert forall|i: int| 0 <= i < pieces.len() implies !(#[trigger] pieces[i]).contains(
                sep,
            ) by {
                if i < rest.len() - 1 {
                    assert(pieces[i] == rest[i]);
                } else {
                    assert(pieces[i] == last);
                    assert(!rest[rest.len() - 1].contains(sep));
                    if last.contains(sep) {
                        let k = choose|k: int| 0 <= k < last.len() && last[k] == sep;
                        if k < last.len() - 1 {
                            assert(rest.last()[k] == sep);
                        }
                    }
                }
            }
        }
    }
}

/// The pieces of `s` between commas.
pub fn split_commas<'a>(s: &'a str) -> (r: Vec<&'a str>)
    ensures
        slice_views(r@) == split_chars(s@, ','),
{
    let cs = chars_of(s);
    let n = cs.len();
    let mut pieces: Vec<&'a str> = Vec::new();
    let mut start: usize = 0;
    let mut i: usize = 0;
    assert(s@.subrange(0, 0) =~= Seq::<char>::empty());
    assert(slice_views(pieces@) =~= Seq::<Seq<char>>::empty());
    while i < n
        invariant
            cs@ == s@,
            n == s@.len(),
            start <= i <= n,
            split_chars(s@.subrange(0, i as int), ',') =~~= slice_views(pieces@).push(
                s@.subrange(start as int, i as int),
            ),
        decreases n - i,
    {
        let ghost prefix = s@.subrange(0, i + 1);
        assert(prefix.drop_last() =~= s@.subrange(0, i as int));
        assert(prefix.last() == cs@[i as int]);
        if cs[i] == ',' {
            let piece = s.substring_char(start, i);
            pieces.push(piece);
            start = i + 1;
            assert(slice_views(pieces@) =~= slice_views(pieces@.drop_last()).push(piece@));
            assert(s@.subrange(start as int, i + 1) =~= Seq::<char>::empty());
        } else {
            assert(s@.subrange(start as int, i + 1) =~= s@.subrange(start as int, i as int).push(
                cs@[i as int],
            ));
        }
        i = i + 1;
    }
    let piece = s.substring_char(start, n);
    let ghost before = pieces@;
    pieces.push(piece);
    assert(slice_views(pieces@) =~= slice_views(before).push(piece@));
    assert(s@.subrange(0, n as int) =~= s@);
    pieces
}

/// What `str::to_uppercase` makes of a string: each character replaced by its
/// Unicode uppercase mapping.
pub uninterp spec fn uppercased(s: Seq<char>) -> Seq<char>;

/// `c` has the Unicode White_Space property, which `char::is_whitespace`
/// tests and `str::trim` strips.
pub open spec fn is_white_space(c: char) -> bool {
    ||| '\u{9}' <= c <= '\u{D}'
    ||| c == ' '
    ||| c == '\u{85}'
    ||| c == '\u{A0}'
    ||| c == '\u{1680}'
    ||| '\u{2000}' <= c <= '\u{200A}'
    ||| c == '\u{2028}'
    ||| c == '\u{2029}'
    ||| c == '\u{202F}'
    ||| c == '\u{205F}'
    ||| c == '\u{3000}'
}

/// `s` without its leading white space.
pub open spec fn trim_start_chars(s: Seq<char>) -> Seq<char>
    decreases s.len(),
{
    if s.len() > 0 && is_white_space(s[0]) {
        trim_start_chars(s.drop_first())
    } else {
        s
    }
}

/// `s` without its trailing white space.
pub open spec fn trim_end_chars(s: Seq<char>) -> Seq<char>
    decreases s.len(),
{
    if s.len() > 0 && is_white_space(s.last()) {
        trim_end_chars(s.drop_last())
    } else {
        s
    }
}

/// What `str::trim` leaves of a string: it without its leading and trailing
/// white space.
pub open spec fn trimmed(s: Seq<char>) -> Seq<char> {
    trim_end_chars(trim_start_chars(s))
}

proof fn lemma_trim_start(s: Seq<char>) -> (i: int)
    ensures
        0 <= i <= s.len(),
        trim_start_chars(s) == s.subrange(i, s.len() as int),
        forall|k: int| 0 <= k < i ==> is_white_space(#[trigger] s[k]),
        i < s.len() ==> !is_white_space(s[i]),
    decreases s.len(),
{
    if s.len() > 0 && is_white_space(s[0]) {
        let rest = s.drop_first();
        let i0 = lemma_trim_start(rest);
        assert(rest.subrange(i0, rest.len() as int) =~= s.subrange(i0 + 1, s.len() as int));
        assert forall|k: int| 0 <= k < i0 + 1 implies is_white_space(#[trigger] s[k]) by {
            if k > 0 {
                assert(s[k] == rest[k - 1]);
            }
        }
        if i0 + 1 < s.len() {
            assert(s[i0 + 1] == rest[i0]);
        }
        i0 + 1
    } else {
        assert(s.subrange(0, s.len() as int) =~= s);
        0
    }
}

proof fn lemma_trim_end(s: Seq<char>) -> (j: int)
    ensures
        0 <= j <= s.len(),
        trim_end_chars(s) == s.subrange(0, j),
        forall|k: int| j <= k < s.len() ==> is_white_space(#[trigger] s[k]),
        j > 0 ==> !is_white_space(s[j - 1]),
    decreases s.len(),
{
    if s.len() > 0 && is_white_space(s.last()) {
        let rest = s.drop_last();
        let j0 = lemma_trim_end(rest);
        assert(rest.subrange(0, j0) =~= s.subrange(0, j0));
        assert forall|k: int| j0 <= k < s.len() implies is_white_space(#[trigger] s[k]) by {
            if k < s.len() - 1 {
                assert(s[k] == rest[k]);
            }
        }
        if j0 > 0 {
            assert(s[j0 - 1] == rest[j0 - 1]);
        }
        j0
    } else {
        assert(s.subrange(0, s.len() as int) =~= s);
        s.len() as int
    }
}

/// Trimming keeps a contiguous run of the string: everything before it and
/// after it is white space, and the run itself, when not empty, neither
/// starts nor ends with white space.
pub proof fn law_trim(s: Seq<char>)
    ensures
        exists|i: int, j: int|
            0 <= i <= j <= s.len() && trimmed(s) == s.subrange(i, j) && (forall|k: int|
                0 <= k < i ==> is_white_space(#[trigger] s[k])) && (forall|k: int|
                j <= k < s.len() ==> is_white_space(#[trigger] s[k])) && (i < j ==> !is_white_space(
                s[i],
            ) && !is_white_space(s[j - 1])),
{
    let i = lemma_trim_start(s);
    let mid = s.subrange(i, s.len() as int);
    let j0 = lemma_trim_end(mid);
    let j = i + j0;
    assert(mid.subrange(0, j0) =~= s.subrange(i, j));
    assert forall|k: int| j <= k < s.len() implies is_white_space(#[trigger] s[k]) by {
        assert(s[k] == mid[k - i]);
    }
    if i < j {
        assert(s[i] == mid[0]);
        assert(s[j - 1] == mid[j0 - 1]);
    }
    assert(0 <= i <= j <= s.len() && trimmed(s) == s.subrange(i, j));
}

/// Whether `c` is white space, as `char::is_whitespace` answers.
pub fn is_white_space_char(c: char) -> (r: bool)
    ensures
        r == is_white_space(c),
{
    ('\u{9}' <= c && c <= '\u{D}') || c == ' ' || c == '\u{85}' || c == '\u{A0}' || c
        == '\u{1680}' || ('\u{2000}' <= c && c <= '\u{200A}') || c == '\u{2028}' || c
        == '\u{2029}' || c == '\u{202F}' || c == '\u{205F}' || c == '\u{3000}'
}

/// `s` with its leading and trailing white space removed, as `str::trim` gives it.
pub fn trim(s: &str) -> (r: &str)
    ensures
        r@ == trimmed(s@),
{
    let cs = chars_of(s);
    let n = cs.len();
    let mut i: usize = 0;
    assert(s@.subrange(0, n as int) =~= s@);
    while i < n && is_white_space_char(cs[i])
        invariant
            cs@ == s@,
            n == s@.len(),
            i <= n,
            trim_start_chars(s@) == trim_start_chars(s@.subrange(i as int, n as int)),
        decreases n - i,
    {
        let ghost rest = s@.subrange(i as int, n as int);
        assert(rest.drop_first() =~= s@.subrange(i + 1, n as int));
        assert(rest[0] == cs@[i as int]);
        i = i + 1;
    }
    assert(trim_start_chars(s@) == s@.subrange(i as int, n as int));
    let mut j: usize = n;
    while j > i && is_white_space_char(cs[j - 1])
        invariant
            cs@ == s@,
            n == s@.len(),
            i <= j <= n,
            trim_start_chars(s@) == s@.subrange(i as int, n as int),
            trimmed(s@) == trim_end_chars(s@.subrange(i as int, j as int)),
        decreases j - i,
    {
        let ghost rest = s@.subrange(i as int, j as int);
        assert(rest.drop_last() =~= s@.subrange(i as int, j - 1));
        assert(rest.last() == cs@[j - 1]);
        j = j - 1;
    }
    s.substring_char(i, j)
}

/// Calls `str::to_uppercase`. Trusted: the string it returns has the view
/// `uppercased(s@)`, a function of `s` alone; nothing more is claimed of it.
#[verifier::external_body]
pub fn to_uppercase(s: &str) -> (r: String)
    ensures
        r@ == uppercased(s@),
{
    s.to_uppercase()
}

} // verus!
