use vstd::prelude::*;
use vstd::string::*;

verus! {

/// The Unicode White_Space characters: those that separate words of a line.
pub open spec fn is_space(c: char) -> bool {
    let u = c as u32;
    (9 <= u && u <= 13) || u == 32 || u == 0x85 || u == 0xa0 || u == 0x1680 || (0x2000 <= u && u
        <= 0x200a) || u == 0x2028 || u == 0x2029 || u == 0x202f || u == 0x205f || u == 0x3000
}

pub fn is_space_char(c: char) -> (r: bool)
    ensures
        r == is_space(c),
{
    let u = c as u32;
    (9 <= u && u <= 13) || u == 32 || u == 0x85 || u == 0xa0 || u == 0x1680 || (0x2000 <= u && u
        <= 0x200a) || u == 0x2028 || u == 0x2029 || u == 0x202f || u == 0x205f || u == 0x3000
}

/// The word `cur` as a list: empty when no word was begun.
pub open spec fn close_word(cur: Seq<char>) -> Seq<Seq<char>> {
    if cur.len() == 0 {
        seq![]
    } else {
        seq![cur]
    }
}

/// The words of `s`, given that the word `cur` was begun just before `s`.
pub open spec fn words_from(s: Seq<char>, cur: Seq<char>) -> Seq<Seq<char>>
    decreases s.len(),
{
    if s.len() == 0 {
        close_word(cur)
    } else if is_space(s[0]) {
        close_word(cur) + words_from(s.drop_first(), seq![])
    } else {
        words_from(s.drop_first(), cur.push(s[0]))
    }
}

/// The maximal runs of non-space characters of `s`, in order.
pub open spec fn words(s: Seq<char>) -> Seq<Seq<char>> {
    words_from(s, seq![])
}

pub open spec fn views(v: Seq<&str>) -> Seq<Seq<char>> {
    v.map_values(|t: &str| t@)
}

/// Splits a line into its whitespace-separated words.
pub fn split_words<'a>(s: &'a str) -> (r: Vec<&'a str>)
    ensures
        views(r@) == words(s@),
{
    let n = s.unicode_len();
    let mut out: Vec<&'a str> = Vec::new();
    let mut start: usize = 0;
    let mut i: usize = 0;
    proof {
        assert(s@.skip(0) =~= s@);
        assert(s@.subrange(0, 0) =~= Seq::<char>::empty());
        assert(views(out@) =~= Seq::<Seq<char>>::empty());
    }
    while i < n
        invariant
            n == s@.len(),
            start <= i <= n,
            words(s@) == views(out@) + words_from(s@.skip(i as int), s@.subrange(
                start as int,
                i as int,
            )),
        decreases n - i,
    {
        let c = s.get_char(i);
        let ghost rest = s@.skip(i as int);
        let ghost cur = s@.subrange(start as int, i as int);
        proof {
            assert(rest[0] == c);
            assert(rest.drop_first() =~= s@.skip(i + 1));
        }
        if is_space_char(c) {
            if start < i {
                let w = s.substring_char(start, i);
                proof {
                    assert(views(out@.push(w)) =~= views(out@) + close_word(cur));
                }
                out.push(w);
            } else {
                assert(close_word(cur) =~= Seq::<Seq<char>>::empty());
            }
            start = i + 1;
            proof {
                assert(s@.subrange(start as int, i + 1) =~= Seq::<char>::empty());
                assert(words(s@) =~= views(out@) + words_from(
                    s@.skip(i + 1),
                    s@.subrange(start as int, i + 1),
                ));
            }
        } else {
            proof {
                assert(cur.push(c) =~= s@.subrange(start as int, i + 1));
            }
        }
        i = i + 1;
    }
    let ghost cur = s@.subrange(start as int, n as int);
    proof {
        assert(s@.skip(n as int) =~= Seq::<char>::empty());
    }
    if start < n {
        let w = s.substring_char(start, n);
        proof {
            assert(views(out@.push(w)) =~= views(out@) + close_word(cur));
        }
        out.push(w);
    } else {
        assert(views(out@) + close_word(cur) =~= views(out@));
    }
    out
}

/// `needle` occurs in `haystack` starting at position `i`.
pub open spec fn occurs_at(haystack: Seq<char>, needle: Seq<char>, i: int) -> bool {
    0 <= i && i + needle.len() <= haystack.len() && haystack.subrange(i, i + needle.len())
        == needle
}

pub open spec fn contains(haystack: Seq<char>, needle: Seq<char>) -> bool {
    exists|i: int| occurs_at(haystack, needle, i)
}

/// Whether `needle` occurs in `haystack` as a run of consecutive characters.
pub fn slice_contains(haystack: &str, needle: &str) -> (r: bool)
    ensures
        r == contains(haystack@, needle@),
{
    let h = haystack.unicode_len();
    let n = needle.unicode_len();
    if h < n {
        assert(forall|i: int| !occurs_at(haystack@, needle@, i));
        return false;
    }
    let mut i: usize = 0;
    while i <= h - n
        invariant
            h == haystack@.len(),
            n == needle@.len(),
            n <= h,
            i <= h - n + 1,
            forall|k: int| 0 <= k < i ==> !occurs_at(haystack@, needle@, k),
        decreases h - n + 1 - i,
    {
        let mut j: usize = 0;
        let mut same = true;
        while j < n
            invariant
                h == haystack@.len(),
                n == needle@.len(),
                i + n <= h,
                j <= n,
                same == (forall|m: int| 0 <= m < j ==> haystack@[i + m] == needle@[m]),
            decreases n - j,
        {
            if haystack.get_char(i + j) != needle.get_char(j) {
                same = false;
            }
            j = j + 1;
        }
        if same {
            assert(haystack@.subrange(i as int, i + n) =~= needle@);
            assert(occurs_at(haystack@, needle@, i as int));
            return true;
        }
        proof {
            if occurs_at(haystack@, needle@, i as int) {
                assert(forall|m: int|
                    0 <= m < n ==> haystack@[i + m] == #[trigger] haystack@.subrange(
                        i as int,
                        i + n,
                    )[m]);
            }
        }
        i = i + 1;
    }
    false
}

/// `n` is where the text in a zero-padded buffer ends: at its first zero
/// byte, or at its end when it holds none.
pub open spec fn is_text_end(b: Seq<u8>, n: int) -> bool {
    &&& 0 <= n <= b.len()
    &&& forall|k: int| 0 <= k < n ==> b[k] != 0
    &&& n < b.len() ==> b[n] == 0
}

/// The length of the text in a zero-padded buffer.
pub fn content_len(buf: &[u8]) -> (r: usize)
    ensures
        is_text_end(buf@, r as int),
{
    let mut i: usize = 0;
    while i < buf.len() && buf[i] != 0
        invariant
            i <= buf@.len(),
            forall|k: int| 0 <= k < i ==> buf@[k] != 0,
        decreases buf@.len() - i,
    {
        i = i + 1;
    }
    i
}

/// `n` is where a line of text ends: at its first NUL character, or at its
/// end when it holds none.
pub open spec fn is_line_end(s: Seq<char>, n: int) -> bool {
    &&& 0 <= n <= s.len()
    &&& forall|k: int| 0 <= k < n ==> s[k] != '\0'
    &&& n < s.len() ==> s[n] == '\0'
}

/// The characters of a line before its first NUL character.
pub open spec fn line_text(s: Seq<char>) -> Seq<char> {
    s.take(choose|n: int| is_line_end(s, n))
}

proof fn lemma_line_end_unique(s: Seq<char>, n: int, m: int)
    requires
        is_line_end(s, n),
        is_line_end(s, m),
    ensures
        n == m,
{
}

/// The number of characters of a line before its first NUL character.
pub fn line_len(text: &str) -> (r: usize)
    ensures
        is_line_end(text@, r as int),
        line_text(text@) == text@.take(r as int),
{
    let n = text.unicode_len();
    let mut i: usize = 0;
    while i < n && text.get_char(i) != '\0'
        invariant
            n == text@.len(),
            i <= n,
            forall|k: int| 0 <= k < i ==> text@[k] != '\0',
        decreases n - i,
    {
        i = i + 1;
    }
    proof {
        assert(is_line_end(text@, i as int));
        let m = choose|m: int| is_line_end(text@, m);
        lemma_line_end_unique(text@, m, i as int);
    }
    i
}

} // verus!
