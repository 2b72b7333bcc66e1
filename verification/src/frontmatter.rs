use vstd::prelude::*;

use crate::text::chars_of;

verus! {

/// Raw fields parsed straight out of a post's YAML frontmatter block.
#[derive(Debug, Clone)]
pub struct Frontmatter {
    pub title: String,
    pub slug: Option<String>,
    pub categories: Vec<String>,
    pub tags: Vec<String>,
    pub draft: bool,
}

/// `pat` occurs in `s` starting at index `i`.
pub open spec fn occurs_at(s: Seq<char>, pat: Seq<char>, i: int) -> bool {
    0 <= i && i + pat.len() <= s.len() && s.subrange(i, i + pat.len()) == pat
}

/// The first index at or after `i` where `pat` occurs in `s`.
pub open spec fn find_from(s: Seq<char>, pat: Seq<char>, i: int) -> Option<int>
    decreases s.len() + 1 - i,
{
    if i < 0 || i + pat.len() > s.len() {
        None
    } else if occurs_at(s, pat, i) {
        Some(i)
    } else {
        find_from(s, pat, i + 1)
    }
}

/// The first index where `pat` occurs in `s` (`str::find`).
pub open spec fn first_occurrence(s: Seq<char>, pat: Seq<char>) -> Option<int> {
    find_from(s, pat, 0)
}

/// The byte-order mark some editors put at the start of a file.
pub open spec fn bom() -> char {
    '\u{feff}'
}

/// The fence that opens and closes a frontmatter block.
pub open spec fn fence() -> Seq<char> {
    seq!['-', '-', '-']
}

/// A line break followed by the closing fence.
pub open spec fn closing_fence() -> Seq<char> {
    seq!['\n', '-', '-', '-']
}

/// `s` without one leading byte-order mark, if it has one.
pub open spec fn strip_bom(s: Seq<char>) -> Seq<char> {
    if s.len() > 0 && s[0] == bom() {
        s.drop_first()
    } else {
        s
    }
}

/// `s` without one leading `\n` or `\r\n`, if it has one.
pub open spec fn strip_line_break(s: Seq<char>) -> Seq<char> {
    if s.len() > 0 && s[0] == '\n' {
        s.drop_first()
    } else if s.len() > 1 && s[0] == '\r' && s[1] == '\n' {
        s.skip(2)
    } else {
        s
    }
}

/// `s` starts with `p`.
pub open spec fn starts_with(s: Seq<char>, p: Seq<char>) -> bool {
    p.len() <= s.len() && s.take(p.len() as int) == p
}

/// Error text for a file that does not start with `---`.
pub open spec fn missing_opening_message() -> Seq<char> {
    "missing frontmatter (file must start with `---`)"@
}

/// Error text for a frontmatter block that is never closed.
pub open spec fn missing_closing_message() -> Seq<char> {
    "missing closing `---` for frontmatter"@
}

/// How a raw post file splits into its frontmatter and its markdown body,
/// or the error text when it does not.
pub open spec fn frontmatter_parts(raw: Seq<char>) -> Result<(Seq<char>, Seq<char>), Seq<char>> {
    let s = strip_bom(raw);
    if !starts_with(s, fence()) {
        Err(missing_opening_message())
    } else {
        let rest = strip_line_break(s.skip(3));
        match first_occurrence(rest, closing_fence()) {
            None => Err(missing_closing_message()),
            Some(end) => Ok((rest.take(end), strip_line_break(rest.skip(end + 4)))),
        }
    }
}

/// Whether `pat` occurs in `hay` at `i`.
fn occurs_at_exec(hay: &Vec<char>, pat: &Vec<char>, i: usize) -> (b: bool)
    requires
        i + pat.len() <= hay.len(),
    ensures
        b == occurs_at(hay@, pat@, i as int),
{
    let mut k: usize = 0;
    while k < pat.len()
        invariant
            k <= pat.len(),
            i + pat.len() <= hay.len(),
            forall|m: int| 0 <= m < k ==> hay@[i + m] == pat@[m],
        decreases pat.len() - k,
    {
        if hay[i + k] != pat[k] {
            assert(hay@.subrange(i as int, i + pat.len())[k as int] != pat@[k as int]);
            return false;
        }
        k += 1;
    }
    assert(hay@.subrange(i as int, i + pat.len()) =~= pat@);
    true
}

/// The first index at or after `from` where `pat` occurs in `hay`.
pub fn find_chars(hay: &Vec<char>, pat: &Vec<char>, from: usize) -> (r: Option<usize>)
    ensures
        match r {
            Some(i) => find_from(hay@, pat@, from as int) == Some(i as int),
            None => find_from(hay@, pat@, from as int) is None,
        },
{
    if pat.len() > hay.len() || from > hay.len() - pat.len() {
        return None;
    }
    let mut i: usize = from;
    loop
        invariant
            pat.len() <= hay.len(),
            from <= i <= hay.len() - pat.len(),
            find_from(hay@, pat@, from as int) == find_from(hay@, pat@, i as int),
        decreases hay.len() - i,
    {
        if occurs_at_exec(hay, pat, i) {
            return Some(i);
        }
        if i == hay.len() - pat.len() {
            assert(find_from(hay@, pat@, i + 1) is None);
            return None;
        }
        i += 1;
    }
}

/// Where the text resumes after one optional leading `\n` or `\r\n` at `i`.
fn skip_line_break(chars: &Vec<char>, i: usize) -> (j: usize)
    requires
        i <= chars.len(),
    ensures
        i <= j <= chars.len(),
        chars@.skip(j as int) == strip_line_break(chars@.skip(i as int)),
{
    let n = chars.len();
    let ghost t = chars@.skip(i as int);
    if i < n && chars[i] == '\n' {
        assert(t[0] == chars@[i as int]);
        assert(t.drop_first() =~= chars@.skip(i + 1));
        i + 1
    } else if i < n && n - i > 1 && chars[i] == '\r' && chars[i + 1] == '\n' {
        assert(t[0] == chars@[i as int]);
        assert(t[1] == chars@[i + 1]);
        assert(t.skip(2) =~= chars@.skip(i + 2));
        i + 2
    } else {
        proof {
            if t.len() > 0 {
                assert(t[0] == chars@[i as int]);
            }
            if t.len() > 1 {
                assert(t[1] == chars@[i + 1]);
            }
        }
        i
    }
}

/// Where the text starts once an optional byte-order mark at the front is skipped.
fn skip_bom(chars: &Vec<char>) -> (j: usize)
    ensures
        j <= chars.len(),
        chars@.skip(j as int) == strip_bom(chars@),
{
    if chars.len() > 0 && chars[0] == '\u{feff}' {
        assert(chars@.drop_first() =~= chars@.skip(1));
        1
    } else {
        assert(chars@ =~= chars@.skip(0));
        0
    }
}

/// Splits a file into its `---`-delimited YAML frontmatter and the remaining
/// markdown body. A leading byte-order mark is tolerated, and one line break
/// after each fence is dropped.
pub fn split_frontmatter(raw: &str) -> (r: Result<(&str, &str), String>)
    ensures
        match r {
            Ok((fm, body)) => frontmatter_parts(raw@) == Ok::<(Seq<char>, Seq<char>), Seq<char>>((fm@, body@)),
            Err(e) => frontmatter_parts(raw@) == Err::<(Seq<char>, Seq<char>), Seq<char>>(e@),
        },
{
    let chars = chars_of(raw);
    let n = chars.len();
    let ghost s0 = raw@;
    let mut start = skip_bom(&chars);
    let ghost s = strip_bom(s0);
    if !(n - start >= 3 && chars[start] == '-' && chars[start + 1] == '-' && chars[start + 2] == '-') {
        proof {
            if starts_with(s, fence()) {
                assert(s.take(3)[0] == s[0]);
                assert(s.take(3)[1] == s[1]);
                assert(s.take(3)[2] == s[2]);
                assert(s[0] == s0[start as int]);
                assert(s[1] == s0[start + 1]);
                assert(s[2] == s0[start + 2]);
            }
        }
        return Err(String::from_str("missing frontmatter (file must start with `---`)"));
    }
    proof {
        assert(s[0] == s0[start as int]);
        assert(s[1] == s0[start + 1]);
        assert(s[2] == s0[start + 2]);
        assert(s.take(3) =~= fence());
        assert(s.skip(3) =~= s0.skip(start + 3));
    }
    start = skip_line_break(&chars, start + 3);
    let ghost rest = strip_line_break(s.skip(3));
    let closing: Vec<char> = vec!['\n', '-', '-', '-'];
    assert(closing@ =~= closing_fence());
    proof {
        lemma_find_from_shift(s0, closing_fence(), start as int, 0);
    }
    match find_chars(&chars, &closing, start) {
        None => Err(String::from_str("missing closing `---` for frontmatter")),
        Some(end) => {
            proof {
                lemma_find_from_found(s0, closing_fence(), start as int, end as int);
            }
            let fm = raw.substring_char(start, end);
            assert(fm@ =~= rest.take(end - start));
            assert(rest.skip(end - start + 4) =~= s0.skip(end + 4));
            let body_start = skip_line_break(&chars, end + 4);
            let body = raw.substring_char(body_start, n);
            assert(body@ =~= s0.skip(body_start as int));
            Ok((fm, body))
        },
    }
}

/// Searching a suffix of `s` is searching `s` from the suffix's start, shifted.
proof fn lemma_find_from_shift(s: Seq<char>, pat: Seq<char>, off: int, i: int)
    requires
        0 <= off <= s.len(),
        0 <= i,
    ensures
        match find_from(s.skip(off), pat, i) {
            Some(k) => find_from(s, pat, off + i) == Some(k + off),
            None => find_from(s, pat, off + i) is None,
        },
    decreases s.len() + 1 - (off + i),
{
    let t = s.skip(off);
    if i + pat.len() > t.len() {
    } else {
        assert(t.subrange(i, i + pat.len()) =~= s.subrange(off + i, off + i + pat.len()));
        if occurs_at(t, pat, i) {
        } else {
            lemma_find_from_shift(s, pat, off, i + 1);
        }
    }
}

/// A found index lies at or after where the search began.
proof fn lemma_find_from_found(s: Seq<char>, pat: Seq<char>, from: int, k: int)
    requires
        find_from(s, pat, from) == Some(k),
    ensures
        from <= k,
        occurs_at(s, pat, k),
    decreases s.len() + 1 - from,
{
    if from < 0 || from + pat.len() > s.len() {
    } else if occurs_at(s, pat, from) {
    } else {
        lemma_find_from_found(s, pat, from + 1, k);
    }
}

/// `first_occurrence` finds the first place `pat` occurs, and finds nothing
/// only when `pat` occurs nowhere.
pub proof fn lemma_first_occurrence_is_first(s: Seq<char>, pat: Seq<char>)
    ensures
        match first_occurrence(s, pat) {
            Some(k) => occurs_at(s, pat, k) && forall|j: int| 0 <= j < k ==> !occurs_at(s, pat, j),
            None => forall|j: int| !occurs_at(s, pat, j),
        },
{
    lemma_find_from_scan(s, pat, 0);
}

proof fn lemma_find_from_scan(s: Seq<char>, pat: Seq<char>, i: int)
    requires
        0 <= i,
    ensures
        match find_from(s, pat, i) {
            Some(k) => i <= k && occurs_at(s, pat, k) && forall|j: int| i <= j < k ==> !occurs_at(s, pat, j),
            None => forall|j: int| i <= j ==> !occurs_at(s, pat, j),
        },
    decreases s.len() + 1 - i,
{
    if i + pat.len() > s.len() {
    } else if occurs_at(s, pat, i) {
    } else {
        lemma_find_from_scan(s, pat, i + 1);
    }
}

} // verus!
