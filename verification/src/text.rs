//! Character-level helpers on strings: trimming and searching.

use vstd::prelude::*;
use vstd::string::*;

verus! {

/// What a sequence of strings stands for.
pub open spec fn texts_of(strings: Seq<String>) -> Seq<Seq<char>> {
    strings.map_values(|s: String| s@)
}

/// What a sequence of pairs of strings stands for.
pub open spec fn pairs_of(pairs: Seq<(String, String)>) -> Seq<(Seq<char>, Seq<char>)> {
    pairs.map_values(|p: (String, String)| (p.0@, p.1@))
}

/// Whether `c` is one of the Unicode `White_Space` characters.
pub open spec fn is_space(c: char) -> bool {
    let n = c as u32;
    ||| 0x09 <= n <= 0x0D
    ||| n == 0x20
    ||| n == 0x85
    ||| n == 0xA0
    ||| n == 0x1680
    ||| 0x2000 <= n <= 0x200A
    ||| n == 0x2028
    ||| n == 0x2029
    ||| n == 0x202F
    ||| n == 0x205F
    ||| n == 0x3000
}

/// Which characters a trimming operation removes from the ends of a string.
#[derive(Clone, Copy, Debug)]
pub enum Trim {
    /// Every whitespace character.
    Whitespace,
    /// Every occurrence of one given character.
    Exactly(char),
}

impl Trim {
    /// Whether the operation removes `c`.
    pub open spec fn removes(self, c: char) -> bool {
        match self {
            Trim::Whitespace => is_space(c),
            Trim::Exactly(x) => c == x,
        }
    }

    /// Executable form of [`Trim::removes`].
    pub fn takes(&self, c: char) -> (r: bool)
        ensures
            r == self.removes(c),
    {
        match self {
            Trim::Whitespace => {
                let n: u32 = c as u32;
                (0x09 <= n && n <= 0x0D) || n == 0x20 || n == 0x85 || n == 0xA0 || n == 0x1680 || (
                0x2000 <= n && n <= 0x200A) || n == 0x2028 || n == 0x2029 || n == 0x202F || n
                    == 0x205F || n == 0x3000
            },
            Trim::Exactly(x) => c == *x,
        }
    }
}

/// `s` without its longest prefix of removed characters.
pub open spec fn skip_leading(s: Seq<char>, how: Trim) -> Seq<char>
    decreases s.len(),
{
    if s.len() > 0 && how.removes(s[0]) {
        skip_leading(s.drop_first(), how)
    } else {
        s
    }
}

/// `s` without its longest suffix of removed characters.
pub open spec fn skip_trailing(s: Seq<char>, how: Trim) -> Seq<char>
    decreases s.len(),
{
    if s.len() > 0 && how.removes(s.last()) {
        skip_trailing(s.drop_last(), how)
    } else {
        s
    }
}

/// `s` with removed characters stripped from both ends.
pub open spec fn stripped(s: Seq<char>, how: Trim) -> Seq<char> {
    skip_trailing(skip_leading(s, how), how)
}

/// `s` with surrounding whitespace stripped.
pub open spec fn trimmed(s: Seq<char>) -> Seq<char> {
    stripped(s, Trim::Whitespace)
}

/// Skipping a prefix of removed characters by hand does not change what
/// `skip_leading` yields.
pub proof fn lemma_skip_leading_from(s: Seq<char>, how: Trim, i: int)
    requires
        0 <= i <= s.len(),
        forall|k: int| 0 <= k < i ==> how.removes(#[trigger] s[k]),
    ensures
        skip_leading(s, how) == skip_leading(s.subrange(i, s.len() as int), how),
    decreases i,
{
    if i == 0 {
        assert(s.subrange(0, s.len() as int) =~= s);
    } else {
        let t = s.drop_first();
        assert(how.removes(s[0]));
        assert forall|k: int| 0 <= k < i - 1 implies how.removes(#[trigger] t[k]) by {
            assert(t[k] == s[k + 1]);
        }
        lemma_skip_leading_from(t, how, i - 1);
        assert(t.subrange(i - 1, t.len() as int) =~= s.subrange(i, s.len() as int));
    }
}

/// Dropping a suffix of removed characters by hand does not change what
/// `skip_trailing` yields.
pub proof fn lemma_skip_trailing_to(s: Seq<char>, how: Trim, j: int)
    requires
        0 <= j <= s.len(),
        forall|k: int| j <= k < s.len() ==> how.removes(#[trigger] s[k]),
    ensures
        skip_trailing(s, how) == skip_trailing(s.subrange(0, j), how),
    decreases s.len() - j,
{
    if j == s.len() {
        assert(s.subrange(0, j) =~= s);
    } else {
        let t = s.drop_last();
        assert(how.removes(s.last()));
        assert forall|k: int| j <= k < t.len() implies how.removes(#[trigger] t[k]) by {
            assert(t[k] == s[k]);
        }
        lemma_skip_trailing_to(t, how, j);
        assert(t.subrange(0, j) =~= s.subrange(0, j));
    }
}

/// What has been stripped has nothing left to strip.
pub proof fn lemma_stripped_twice(s: Seq<char>, how: Trim)
    ensures
        stripped(stripped(s, how), how) == stripped(s, how),
{
    lemma_skip_leading_clean(s, how);
    let lead = skip_leading(s, how);
    lemma_skip_trailing_clean(lead, how);
    let core = skip_trailing(lead, how);
    lemma_skip_trailing_keeps_head(lead, how);
    if core.len() > 0 {
        assert(!how.removes(core[0]));
    }
}

/// What `skip_leading` yields does not begin with a removed character, and
/// is left alone by `skip_leading`.
pub proof fn lemma_skip_leading_clean(s: Seq<char>, how: Trim)
    ensures
        skip_leading(s, how).len() > 0 ==> !how.removes(skip_leading(s, how)[0]),
        skip_leading(skip_leading(s, how), how) == skip_leading(s, how),
    decreases s.len(),
{
    if s.len() > 0 && how.removes(s[0]) {
        lemma_skip_leading_clean(s.drop_first(), how);
    }
}

/// What `skip_trailing` yields does not end with a removed character, and
/// is left alone by `skip_trailing`.
pub proof fn lemma_skip_trailing_clean(s: Seq<char>, how: Trim)
    ensures
        skip_trailing(s, how).len() > 0 ==> !how.removes(skip_trailing(s, how).last()),
        skip_trailing(skip_trailing(s, how), how) == skip_trailing(s, how),
    decreases s.len(),
{
    if s.len() > 0 && how.removes(s.last()) {
        lemma_skip_trailing_clean(s.drop_last(), how);
    }
}

/// `skip_trailing` yields a prefix of its argument.
pub proof fn lemma_skip_trailing_keeps_head(s: Seq<char>, how: Trim)
    ensures
        skip_trailing(s, how).len() <= s.len(),
        skip_trailing(s, how) == s.subrange(0, skip_trailing(s, how).len() as int),
    decreases s.len(),
{
    if s.len() > 0 && how.removes(s.last()) {
        let rest = s.drop_last();
        lemma_skip_trailing_keeps_head(rest, how);
        let n = skip_trailing(rest, how).len() as int;
        assert(rest.subrange(0, n) =~= s.subrange(0, n));
    } else {
        assert(s.subrange(0, s.len() as int) =~= s);
    }
}

/// Whether every character of `s` is removed.
pub open spec fn all_removed(s: Seq<char>, how: Trim) -> bool {
    forall|i: int| 0 <= i < s.len() ==> how.removes(#[trigger] s[i])
}

/// Whether `s` neither begins nor ends with a removed character.
pub open spec fn clean(s: Seq<char>, how: Trim) -> bool {
    s.len() > 0 ==> !how.removes(s[0]) && !how.removes(s.last())
}

/// Stripping leaves a clean text as it is.
pub proof fn lemma_stripped_clean(s: Seq<char>, how: Trim)
    requires
        clean(s, how),
    ensures
        stripped(s, how) == s,
{
}

/// Stripping takes away what surrounds a clean text, where all of that is
/// removed characters.
pub proof fn lemma_stripped_padded(before: Seq<char>, s: Seq<char>, after: Seq<char>, how: Trim)
    requires
        all_removed(before, how),
        all_removed(after, how),
        clean(s, how),
    ensures
        stripped(before + s + after, how) == s,
{
    let line = before + s + after;
    let tail = s + after;
    assert forall|k: int| 0 <= k < before.len() implies how.removes(#[trigger] line[k]) by {
        assert(line[k] == before[k]);
    }
    lemma_skip_leading_from(line, how, before.len() as int);
    assert(line.subrange(before.len() as int, line.len() as int) =~= tail);
    if s.len() == 0 {
        assert(tail =~= after);
        lemma_skip_leading_from(after, how, after.len() as int);
        assert(after.subrange(after.len() as int, after.len() as int) =~= Seq::<char>::empty());
        assert(s =~= Seq::<char>::empty());
    } else {
        assert(tail[0] == s[0]);
        assert forall|k: int| s.len() <= k < tail.len() implies how.removes(#[trigger] tail[k]) by {
            assert(tail[k] == after[k - s.len()]);
        }
        lemma_skip_trailing_to(tail, how, s.len() as int);
        assert(tail.subrange(0, s.len() as int) =~= s);
    }
}

/// Strips removed characters from both ends of `s`.
pub fn strip<'a>(s: &'a str, how: Trim) -> (r: &'a str)
    ensures
        r@ == stripped(s@, how),
{
    let n: usize = s.unicode_len();
    let mut i: usize = 0;
    while i < n && how.takes(s.get_char(i))
        invariant
            n == s@.len(),
            i <= n,
            forall|k: int| 0 <= k < i ==> how.removes(#[trigger] s@[k]),
        decreases n - i,
    {
        i += 1;
    }
    let mut j: usize = n;
    while j > i && how.takes(s.get_char(j - 1))
        invariant
            n == s@.len(),
            i <= j <= n,
            forall|k: int| j <= k < n ==> how.removes(#[trigger] s@[k]),
        decreases j,
    {
        j -= 1;
    }
    proof {
        let rest = s@.subrange(i as int, n as int);
        lemma_skip_leading_from(s@, how, i as int);
        assert(skip_leading(rest, how) == rest) by {
            if i < n {
                assert(rest[0] == s@[i as int]);
            }
        }
        assert forall|k: int| j - i <= k < rest.len() implies how.removes(#[trigger] rest[k]) by {
            assert(rest[k] == s@[k + i]);
        }
        lemma_skip_trailing_to(rest, how, j - i);
        let core = rest.subrange(0, j - i);
        assert(core =~= s@.subrange(i as int, j as int));
        assert(skip_trailing(core, how) == core) by {
            if j > i {
                assert(core.last() == s@[j - 1]);
            }
        }
    }
    s.substring_char(i, j)
}

/// Strips surrounding whitespace from `s`.
pub fn trim<'a>(s: &'a str) -> (r: &'a str)
    ensures
        r@ == trimmed(s@),
{
    strip(s, Trim::Whitespace)
}

/// Position of the first occurrence of `c` in `s`, if there is one.
pub open spec fn first_index_of(s: Seq<char>, c: char) -> Option<int>
    decreases s.len(),
{
    if s.len() == 0 {
        None
    } else if s[0] == c {
        Some(0)
    } else {
        match first_index_of(s.drop_first(), c) {
            Some(i) => Some(i + 1),
            None => None,
        }
    }
}

/// `first_index_of` finds the least position that holds `c`.
pub proof fn lemma_first_index_of(s: Seq<char>, c: char)
    ensures
        match first_index_of(s, c) {
            Some(i) => 0 <= i < s.len() && s[i] == c && forall|k: int|
                0 <= k < i ==> #[trigger] s[k] != c,
            None => forall|k: int| 0 <= k < s.len() ==> #[trigger] s[k] != c,
        },
    decreases s.len(),
{
    if s.len() > 0 && s[0] != c {
        let t = s.drop_first();
        lemma_first_index_of(t, c);
        match first_index_of(t, c) {
            Some(i) => {
                assert forall|k: int| 0 <= k < i + 1 implies #[trigger] s[k] != c by {
                    if k > 0 {
                        assert(s[k] == t[k - 1]);
                    }
                }
            },
            None => {
                assert forall|k: int| 0 <= k < s.len() implies #[trigger] s[k] != c by {
                    if k > 0 {
                        assert(s[k] == t[k - 1]);
                    }
                }
            },
        }
    }
}

/// A position that holds `c` and has no `c` before it is the first one.
pub proof fn lemma_first_index_is(s: Seq<char>, c: char, i: int)
    requires
        0 <= i < s.len(),
        s[i] == c,
        forall|k: int| 0 <= k < i ==> #[trigger] s[k] != c,
    ensures
        first_index_of(s, c) == Some(i),
{
    lemma_first_index_of(s, c);
}

/// Finds the first occurrence of `c` in `s`.
pub fn find_char(s: &str, c: char) -> (r: Option<usize>)
    ensures
        match r {
            Some(i) => first_index_of(s@, c) == Some(i as int),
            None => first_index_of(s@, c) is None,
        },
{
    let n: usize = s.unicode_len();
    let mut i: usize = 0;
    while i < n
        invariant
            n == s@.len(),
            i <= n,
            forall|k: int| 0 <= k < i ==> #[trigger] s@[k] != c,
        decreases n - i,
    {
        if s.get_char(i) == c {
            proof {
                lemma_first_index_is(s@, c, i as int);
            }
            return Some(i);
        }
        i += 1;
    }
    proof {
        lemma_first_index_of(s@, c);
    }
    None
}

/// Whether two strings hold the same characters.
pub fn same_text(a: &str, b: &str) -> (r: bool)
    ensures
        r == (a@ == b@),
{
    let n: usize = a.unicode_len();
    if b.unicode_len() != n {
        return false;
    }
    let mut i: usize = 0;
    while i < n
        invariant
            n == a@.len(),
            n == b@.len(),
            i <= n,
            forall|k: int| 0 <= k < i ==> a@[k] == b@[k],
        decreases n - i,
    {
        if a.get_char(i) != b.get_char(i) {
            return false;
        }
        i += 1;
    }
    assert(a@ =~= b@);
    true
}

} // verus!
