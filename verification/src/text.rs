//! Leading and trailing characters of a line: white space and newlines.
use vstd::prelude::*;

verus! {

/// The characters of Unicode's `White_Space` property, those that
/// `char::is_whitespace` accepts.
pub open spec fn is_white_space(c: char) -> bool {
    let u = c as u32;
    ||| 0x9 <= u <= 0xd
    ||| u == 0x20
    ||| u == 0x85
    ||| u == 0xa0
    ||| u == 0x1680
    ||| 0x2000 <= u <= 0x200a
    ||| u == 0x2028
    ||| u == 0x2029
    ||| u == 0x202f
    ||| u == 0x205f
    ||| u == 0x3000
}

/// `s` without its leading white space.
pub open spec fn trim_start(s: Seq<char>) -> Seq<char>
    decreases s.len(),
{
    if s.len() > 0 && is_white_space(s[0]) {
        trim_start(s.drop_first())
    } else {
        s
    }
}

pub fn white_space(c: char) -> (r: bool)
    ensures
        r == is_white_space(c),
{
    let u = c as u32;
    (0x9 <= u && u <= 0xd) || u == 0x20 || u == 0x85 || u == 0xa0 || u == 0x1680 || (0x2000 <= u
        && u <= 0x200a) || u == 0x2028 || u == 0x2029 || u == 0x202f || u == 0x205f || u == 0x3000
}

/// `s` from its first character that is not white space on.
pub fn skip_white_space(s: &str) -> (r: &str)
    ensures
        r@ == trim_start(s@),
{
    let n = s.unicode_len();
    let mut k: usize = 0;
    assert(s@.skip(0) == s@);
    for c in it: s.chars()
        invariant_except_break
            k == it.index(),
            it.seq() == s@,
            n == s@.len(),
            trim_start(s@.skip(k as int)) == trim_start(s@),
        ensures
            k <= n,
            trim_start(s@.skip(k as int)) == trim_start(s@),
            k == n || !is_white_space(s@[k as int]),
    {
        assert(s@.skip(k as int)[0] == c);
        if !white_space(c) {
            break;
        }
        assert(s@.skip(k as int).drop_first() == s@.skip(k + 1));
        k = k + 1;
    }
    if k == n {
        assert(s@.skip(k as int) == Seq::<char>::empty());
    } else {
        assert(s@.skip(k as int)[0] == s@[k as int]);
    }
    s.substring_char(k, n)
}

/// `s` without its trailing white space.
pub open spec fn trim_end(s: Seq<char>) -> Seq<char>
    decreases s.len(),
{
    if s.len() > 0 && is_white_space(s.last()) {
        trim_end(s.drop_last())
    } else {
        s
    }
}

/// `s` without white space at either end.
pub open spec fn trim(s: Seq<char>) -> Seq<char> {
    trim_end(trim_start(s))
}

/// `s` without the newlines it ends with.
pub open spec fn trim_trailing_newlines(s: Seq<char>) -> Seq<char>
    decreases s.len(),
{
    if s.len() > 0 && s.last() == '\n' {
        trim_trailing_newlines(s.drop_last())
    } else {
        s
    }
}

/// `s` without its trailing white space.
pub fn drop_trailing_white_space(s: &str) -> (r: &str)
    ensures
        r@ == trim_end(s@),
{
    let n = s.unicode_len();
    let mut keep: usize = 0;
    let mut pos: usize = 0;
    assert(s@.take(0) == Seq::<char>::empty());
    for c in it: s.chars()
        invariant
            pos == it.index(),
            it.seq() == s@,
            n == s@.len(),
            keep <= pos,
            trim_end(s@.take(pos as int)) == s@.take(keep as int),
    {
        assert(s@.take(pos + 1).drop_last() == s@.take(pos as int));
        assert(s@.take(pos + 1).last() == c);
        if !white_space(c) {
            keep = pos + 1;
        }
        pos = pos + 1;
    }
    assert(s@.take(n as int) == s@);
    s.substring_char(0, keep)
}

/// `s` without the newlines it ends with.
pub fn drop_trailing_newlines(s: &str) -> (r: &str)
    ensures
        r@ == trim_trailing_newlines(s@),
{
    let n = s.unicode_len();
    let mut keep: usize = 0;
    let mut pos: usize = 0;
    assert(s@.take(0) == Seq::<char>::empty());
    for c in it: s.chars()
        invariant
            pos == it.index(),
            it.seq() == s@,
            n == s@.len(),
            keep <= pos,
            trim_trailing_newlines(s@.take(pos as int)) == s@.take(keep as int),
    {
        assert(s@.take(pos + 1).drop_last() == s@.take(pos as int));
        assert(s@.take(pos + 1).last() == c);
        if c != '\n' {
            keep = pos + 1;
        }
        pos = pos + 1;
    }
    assert(s@.take(n as int) == s@);
    s.substring_char(0, keep)
}

/// White space in front of a text that does not start with white space is
/// exactly what `trim_start` takes away.
pub proof fn lemma_trim_start_of_gap(gap: Seq<char>, text: Seq<char>)
    requires
        forall|j: int| 0 <= j < gap.len() ==> is_white_space(#[trigger] gap[j]),
        text.len() == 0 || !is_white_space(text[0]),
    ensures
        trim_start(gap + text) == text,
    decreases gap.len(),
{
    if gap.len() == 0 {
        assert(gap + text == text);
    } else {
        let rest = gap.drop_first();
        assert((gap + text)[0] == gap[0]);
        assert((gap + text).drop_first() == rest + text);
        assert forall|j: int| 0 <= j < rest.len() implies is_white_space(#[trigger] rest[j]) by {
            assert(rest[j] == gap[j + 1]);
        }
        lemma_trim_start_of_gap(rest, text);
    }
}

/// Trimming trailing newlines keeps a prefix of the text.
pub proof fn lemma_trim_trailing_newlines_prefix(s: Seq<char>)
    ensures
        trim_trailing_newlines(s).len() <= s.len(),
        trim_trailing_newlines(s) == s.take(trim_trailing_newlines(s).len() as int),
    decreases s.len(),
{
    if s.len() > 0 && s.last() == '\n' {
        lemma_trim_trailing_newlines_prefix(s.drop_last());
        let t = trim_trailing_newlines(s.drop_last());
        assert(s.drop_last().take(t.len() as int) == s.take(t.len() as int));
    } else {
        assert(s.take(s.len() as int) == s);
    }
}

} // verus!
