//! Text helpers on `char` sequences: case folding for the label filter,
//! substring search, and trimming of whitespace and line endings.
use vstd::prelude::*;

verus! {

/// What `str::to_lowercase` gives for this text (Unicode lowercase
/// mapping; the same in every locale).
pub uninterp spec fn lowercase_of(s: Seq<char>) -> Seq<char>;

/// Whether `c` has the Unicode `White_Space` property, as
/// `char::is_whitespace` checks it: tab through carriage return, space,
/// next line, no-break space, ogham space mark, the spaces from en quad to
/// hair space, line and paragraph separators, narrow no-break space,
/// medium mathematical space and ideographic space.
pub open spec fn white_space(c: char) -> bool {
    let u = c as u32;
    ||| 0x9 <= u <= 0xD
    ||| u == 0x20
    ||| u == 0x85
    ||| u == 0xA0
    ||| u == 0x1680
    ||| 0x2000 <= u <= 0x200A
    ||| u == 0x2028
    ||| u == 0x2029
    ||| u == 0x202F
    ||| u == 0x205F
    ||| u == 0x3000
}

/// Calls `str::to_lowercase`; the contract names its result and says
/// that the empty text lowercases to the empty text.
#[verifier::external_body]
pub(crate) fn to_lowercase(s: &str) -> (lower: String)
    ensures
        lower@ == lowercase_of(s@),
        s@.len() == 0 ==> lower@.len() == 0,
{
    s.to_lowercase()
}

/// Whether `c` is whitespace (the Unicode `White_Space` property).
fn char_is_whitespace(c: char) -> (ws: bool)
    ensures
        ws == white_space(c),
{
    let u = c as u32;
    (0x9 <= u && u <= 0xD) || u == 0x20 || u == 0x85 || u == 0xA0 || u == 0x1680 || (0x2000 <= u
        && u <= 0x200A) || u == 0x2028 || u == 0x2029 || u == 0x202F || u == 0x205F || u == 0x3000
}

/// `needle` occurs in `haystack` as a run of consecutive characters.
pub open spec fn occurs_in(needle: Seq<char>, haystack: Seq<char>) -> bool {
    exists|i: int| 0 <= i <= haystack.len() - needle.len() && #[trigger] haystack.subrange(i, i + needle.len()) == needle
}

/// `s` without its leading whitespace.
pub open spec fn trim_start_spec(s: Seq<char>) -> Seq<char>
    decreases s.len(),
{
    if s.len() > 0 && white_space(s[0]) {
        trim_start_spec(s.drop_first())
    } else {
        s
    }
}

/// `s` without its trailing whitespace.
pub open spec fn trim_end_spec(s: Seq<char>) -> Seq<char>
    decreases s.len(),
{
    if s.len() > 0 && white_space(s.last()) {
        trim_end_spec(s.drop_last())
    } else {
        s
    }
}

/// `s` without leading and trailing whitespace, as `str::trim` gives it.
pub open spec fn trimmed(s: Seq<char>) -> Seq<char> {
    trim_end_spec(trim_start_spec(s))
}

/// Whether `c` ends a line: `'\n'` or `'\r'`.
pub open spec fn is_line_end(c: char) -> bool {
    c == '\n' || c == '\r'
}

/// `s` without its trailing `'\n'` and `'\r'` characters.
pub open spec fn without_line_ends(s: Seq<char>) -> Seq<char>
    decreases s.len(),
{
    if s.len() > 0 && is_line_end(s.last()) {
        without_line_ends(s.drop_last())
    } else {
        s
    }
}

/// The characters of `s`, in order.
pub fn chars_of(s: &str) -> (chars: Vec<char>)
    ensures
        chars@ == s@,
{
    let n = s.unicode_len();
    let mut chars: Vec<char> = Vec::new();
    let mut i: usize = 0;
    while i < n
        invariant
            n == s@.len(),
            i <= n,
            chars@ =~= s@.take(i as int),
        decreases n - i,
    {
        let c = s.get_char(i);
        chars.push(c);
        i = i + 1;
        assert(chars@ =~= s@.take(i as int));
    }
    assert(s@.take(n as int) =~= s@);
    chars
}

/// Whether `needle` occurs in `haystack`.
pub fn occurs(needle: &Vec<char>, haystack: &Vec<char>) -> (found: bool)
    ensures
        found == occurs_in(needle@, haystack@),
{
    let n = needle.len();
    let h = haystack.len();
    if n > h {
        return false;
    }
    let mut start: usize = 0;
    while start <= h - n
        invariant
            n == needle@.len(),
            h == haystack@.len(),
            n <= h,
            start <= h - n + 1,
            forall|i: int| 0 <= i < start ==> #[trigger] haystack@.subrange(i, i + n) != needle@,
        decreases h - n + 1 - start,
    {
        let mut k: usize = 0;
        let mut same = true;
        assert(haystack@.subrange(start as int, start as int) =~= needle@.take(0));
        while k < n
            invariant
                n == needle@.len(),
                h == haystack@.len(),
                start + n <= h,
                k <= n,
                same == (haystack@.subrange(start as int, start + k) == needle@.take(k as int)),
            decreases n - k,
        {
            if same && haystack[start + k] != needle[k] {
                same = false;
                assert(haystack@.subrange(start as int, start + k + 1)[k as int] != needle@.take(k + 1)[k as int]);
            } else if same {
                assert(haystack@.subrange(start as int, start + k + 1) =~= haystack@.subrange(start as int, start + k).push(haystack@[start + k]));
                assert(needle@.take(k + 1) =~= needle@.take(k as int).push(needle@[k as int]));
            } else {
                assert(haystack@.subrange(start as int, start + k) =~= haystack@.subrange(start as int, start + k + 1).take(k as int));
                assert(needle@.take(k as int) =~= needle@.take(k + 1).take(k as int));
            }
            k = k + 1;
        }
        assert(needle@.take(n as int) =~= needle@);
        if same {
            return true;
        }
        if start == h - n {
            return false;
        }
        start = start + 1;
    }
    false
}

/// `s` without leading and trailing whitespace (`str::trim`).
pub fn trim(s: &str) -> (t: String)
    ensures
        t@ == trimmed(s@),
{
    let chars = chars_of(s);
    let n = chars.len();
    let mut a: usize = 0;
    assert(s@.skip(0) =~= s@);
    while a < n && char_is_whitespace(chars[a])
        invariant
            chars@ == s@,
            n == s@.len(),
            a <= n,
            trim_start_spec(s@) == trim_start_spec(s@.skip(a as int)),
        decreases n - a,
    {
        assert(s@.skip(a as int).drop_first() =~= s@.skip(a + 1));
        a = a + 1;
    }
    proof {
        if a == n {
            assert(s@.skip(a as int) =~= Seq::<char>::empty());
        }
        assert(trim_start_spec(s@) == s@.skip(a as int));
    }
    let mut b: usize = n;
    while b > a && char_is_whitespace(chars[b - 1])
        invariant
            chars@ == s@,
            n == s@.len(),
            a <= b <= n,
            trimmed(s@) == trim_end_spec(s@.subrange(a as int, b as int)),
        decreases b,
    {
        assert(s@.subrange(a as int, b as int).drop_last() =~= s@.subrange(a as int, b - 1));
        assert(s@.subrange(a as int, b as int).last() == s@[b - 1]);
        b = b - 1;
    }
    proof {
        assert(s@.skip(a as int) =~= s@.subrange(a as int, n as int));
        if b > a {
            assert(s@.subrange(a as int, b as int).last() == s@[b - 1]);
        }
    }
    s.substring_char(a, b).to_owned()
}

/// `s` without its trailing line endings (what reading a line leaves).
pub fn strip_line_ends(s: &str) -> (t: String)
    ensures
        t@ == without_line_ends(s@),
{
    let chars = chars_of(s);
    let n = chars.len();
    let mut b: usize = n;
    assert(s@.take(n as int) =~= s@);
    while b > 0 && (chars[b - 1] == '\n' || chars[b - 1] == '\r')
        invariant
            chars@ == s@,
            n == s@.len(),
            b <= n,
            without_line_ends(s@) == without_line_ends(s@.take(b as int)),
        decreases b,
    {
        assert(s@.take(b as int).drop_last() =~= s@.take(b - 1));
        assert(s@.take(b as int).last() == s@[b - 1]);
        b = b - 1;
    }
    proof {
        assert(s@.take(n as int) =~= s@);
        if b > 0 {
            assert(s@.take(b as int).last() == s@[b - 1]);
        }
        assert(s@.take(b as int) =~= s@.subrange(0, b as int));
    }
    s.substring_char(0, b).to_owned()
}

} // verus!
