//! Text helpers shared by the line reader and the command runner: Unicode
//! white space, trimming, and the split of a line at its first separator.

use vstd::prelude::*;
use vstd::string::*;

verus! {

/// The character that parts an identifier from its name.
pub const SEPARATOR: char = '>';

/// Whether `c` has the Unicode property `White_Space`.
pub open spec fn is_whitespace(c: char) -> bool {
    let u = c as u32;
    ||| 0x0009 <= u <= 0x000D
    ||| u == 0x0020
    ||| u == 0x0085
    ||| u == 0x00A0
    ||| u == 0x1680
    ||| 0x2000 <= u <= 0x200A
    ||| u == 0x2028
    ||| u == 0x2029
    ||| u == 0x202F
    ||| u == 0x205F
    ||| u == 0x3000
}

/// `s` without its leading white space.
pub open spec fn trim_start(s: Seq<char>) -> Seq<char>
    decreases s.len(),
{
    if s.len() > 0 && is_whitespace(s.first()) {
        trim_start(s.drop_first())
    } else {
        s
    }
}

/// `s` without its trailing white space.
pub open spec fn trim_end(s: Seq<char>) -> Seq<char>
    decreases s.len(),
{
    if s.len() > 0 && is_whitespace(s.last()) {
        trim_end(s.drop_last())
    } else {
        s
    }
}

/// `s` without the white space that surrounds it.
pub open spec fn trimmed(s: Seq<char>) -> Seq<char> {
    trim_end(trim_start(s))
}

/// Whether `s` holds nothing but white space.
pub open spec fn is_blank(s: Seq<char>) -> bool {
    forall|i: int| 0 <= i < s.len() ==> is_whitespace(#[trigger] s[i])
}

/// What stands before the first separator of `line`: the whole line where
/// it has none.
pub open spec fn before_separator(line: Seq<char>) -> Seq<char> {
    match line.index_of_first(SEPARATOR) {
        Some(at) => line.take(at),
        None => line,
    }
}

/// What stands after the first separator of `line`: nothing where it has
/// none.
pub open spec fn after_separator(line: Seq<char>) -> Seq<char> {
    match line.index_of_first(SEPARATOR) {
        Some(at) => line.skip(at + 1),
        None => Seq::empty(),
    }
}

/// Tells whether a character is white space.
pub fn is_whitespace_char(c: char) -> (r: bool)
    ensures
        r == is_whitespace(c),
{
    let u: u32 = c as u32;
    if u <= 0x00A0 {
        (0x0009 <= u && u <= 0x000D) || u == 0x0020 || u == 0x0085 || u == 0x00A0
    } else if u <= 0x200A {
        u == 0x1680 || 0x2000 <= u
    } else {
        u == 0x2028 || u == 0x2029 || u == 0x202F || u == 0x205F || u == 0x3000
    }
}

/// Removes the white space at both ends of `s`.
pub fn trim(s: &str) -> (r: &str)
    ensures
        r@ == trimmed(s@),
{
    let n: usize = s.unicode_len();
    let mut start: usize = 0;
    assert(s@.skip(0) =~= s@);
    while start < n && is_whitespace_char(s.get_char(start))
        invariant
            start <= n,
            n == s@.len(),
            trim_start(s@) == trim_start(s@.skip(start as int)),
        decreases n - start,
    {
        assert(s@.skip(start as int).drop_first() =~= s@.skip(start as int + 1));
        start = start + 1;
    }
    assert(trim_start(s@) == s@.skip(start as int));
    let mut end: usize = n;
    while end > start && is_whitespace_char(s.get_char(end - 1))
        invariant
            start <= end <= n,
            n == s@.len(),
            trimmed(s@) == trim_end(s@.subrange(start as int, end as int)),
        decreases end - start,
    {
        assert(s@.subrange(start as int, end as int).drop_last() =~= s@.subrange(
            start as int,
            end as int - 1,
        ));
        end = end - 1;
    }
    s.substring_char(start, end)
}

/// Tells whether `s` holds nothing but white space.
pub fn is_blank_text(s: &str) -> (r: bool)
    ensures
        r == is_blank(s@),
{
    let n: usize = s.unicode_len();
    let mut at: usize = 0;
    while at < n
        invariant
            at <= n,
            n == s@.len(),
            forall|i: int| 0 <= i < at ==> is_whitespace(#[trigger] s@[i]),
        decreases n - at,
    {
        if !is_whitespace_char(s.get_char(at)) {
            return false;
        }
        at = at + 1;
    }
    true
}

/// Finds the first separator of `line`.
pub fn find_separator(line: &str) -> (r: Option<usize>)
    ensures
        match r {
            Some(at) => at < line@.len() && line@.index_of_first(SEPARATOR) == Some(at as int),
            None => line@.index_of_first(SEPARATOR) is None,
        },
{
    let n: usize = line.unicode_len();
    let mut at: usize = 0;
    while at < n
        invariant
            at <= n,
            n == line@.len(),
            forall|i: int| 0 <= i < at ==> #[trigger] line@[i] != SEPARATOR,
        decreases n - at,
    {
        if line.get_char(at) == SEPARATOR {
            proof {
                line@.index_of_first_ensures(SEPARATOR);
                assert(line@.contains(SEPARATOR));
            }
            return Some(at);
        }
        at = at + 1;
    }
    proof {
        line@.index_of_first_ensures(SEPARATOR);
    }
    None
}

/// A blank text trims to nothing, and only a blank text does.
pub proof fn lemma_blank_trims_to_nothing(s: Seq<char>)
    ensures
        is_blank(s) <==> trimmed(s).len() == 0,
    decreases s.len(),
{
    if s.len() > 0 && is_whitespace(s.first()) {
        lemma_blank_trims_to_nothing(s.drop_first());
        if is_blank(s.drop_first()) {
            assert forall|i: int| 0 <= i < s.len() implies is_whitespace(#[trigger] s[i]) by {
                if i > 0 {
                    assert(s[i] == s.drop_first()[i - 1]);
                }
            }
        } else {
            let j = choose|j: int|
                0 <= j < s.drop_first().len() && !is_whitespace(#[trigger] s.drop_first()[j]);
            assert(s[j + 1] == s.drop_first()[j]);
        }
    } else if s.len() > 0 {
        lemma_trim_end_keeps_first(s);
    }
}

/// A text that does not begin with white space keeps its first character
/// when its end is trimmed.
proof fn lemma_trim_end_keeps_first(s: Seq<char>)
    requires
        s.len() > 0,
        !is_whitespace(s.first()),
    ensures
        trim_end(s).len() > 0,
    decreases s.len(),
{
    if is_whitespace(s.last()) {
        assert(s.len() > 1);
        assert(s.drop_last().first() == s.first());
        lemma_trim_end_keeps_first(s.drop_last());
    }
}

/// Trimming the start removes the leading white space and nothing else.
proof fn lemma_trim_start_is_a_suffix(s: Seq<char>) -> (from: int)
    ensures
        0 <= from <= s.len(),
        trim_start(s) == s.skip(from),
        is_blank(s.take(from)),
        from < s.len() ==> !is_whitespace(s[from]),
    decreases s.len(),
{
    if s.len() > 0 && is_whitespace(s.first()) {
        let rest = s.drop_first();
        let inner = lemma_trim_start_is_a_suffix(rest);
        assert(rest.skip(inner) =~= s.skip(inner + 1));
        assert forall|i: int| 0 <= i < inner + 1 implies is_whitespace(
            #[trigger] s.take(inner + 1)[i],
        ) by {
            if i > 0 {
                assert(s.take(inner + 1)[i] == rest.take(inner)[i - 1]);
            }
        }
        if inner + 1 < s.len() {
            assert(s[inner + 1] == rest[inner]);
        }
        inner + 1
    } else {
        assert(s.skip(0) =~= s);
        0
    }
}

/// Trimming the end removes the trailing white space and nothing else.
proof fn lemma_trim_end_is_a_prefix(s: Seq<char>) -> (to: int)
    ensures
        0 <= to <= s.len(),
        trim_end(s) == s.take(to),
        is_blank(s.skip(to)),
        0 < to ==> !is_whitespace(s[to - 1]),
    decreases s.len(),
{
    if s.len() > 0 && is_whitespace(s.last()) {
        let rest = s.drop_last();
        let inner = lemma_trim_end_is_a_prefix(rest);
        assert(rest.take(inner) =~= s.take(inner));
        assert forall|i: int| 0 <= i < s.len() - inner implies is_whitespace(
            #[trigger] s.skip(inner)[i],
        ) by {
            if i < rest.len() - inner {
                assert(s.skip(inner)[i] == rest.skip(inner)[i]);
            }
        }
        if 0 < inner {
            assert(s[inner - 1] == rest[inner - 1]);
        }
        inner
    } else {
        assert(s.take(s.len() as int) =~= s);
        s.len() as int
    }
}

/// The trimmed text is the part of `s` that reaches from its first to its
/// last character that is not white space: what stands before and after
/// that part is white space, and the part neither begins nor ends with any.
pub proof fn lemma_trimmed_is_the_core(s: Seq<char>) -> (bounds: (int, int))
    ensures
        0 <= bounds.0 <= bounds.1 <= s.len(),
        trimmed(s) == s.subrange(bounds.0, bounds.1),
        is_blank(s.take(bounds.0)),
        is_blank(s.skip(bounds.1)),
        bounds.0 < bounds.1 ==> !is_whitespace(s[bounds.0]) && !is_whitespace(s[bounds.1 - 1]),
{
    let from = lemma_trim_start_is_a_suffix(s);
    let tail = s.skip(from);
    let kept = lemma_trim_end_is_a_prefix(tail);
    let to = from + kept;
    assert(tail.take(kept) =~= s.subrange(from, to));
    assert forall|i: int| 0 <= i < s.len() - to implies is_whitespace(#[trigger] s.skip(to)[i]) by {
        assert(s.skip(to)[i] == tail.skip(kept)[i]);
    }
    if from < to {
        assert(tail[kept - 1] == s[to - 1]);
    }
    (from, to)
}

} // verus!
