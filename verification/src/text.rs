//! Text as sequences of characters: splitting, trimming and number parsing.

use vstd::prelude::*;
use vstd::slice::slice_subrange;

verus! {

/// `String::push` appends one character.
pub assume_specification[ String::push ](s: &mut String, c: char)
    ensures
        final(s)@ == old(s)@.push(c),
;

/// `std::str::from_utf8` succeeds exactly on valid UTF-8 and yields the text
/// those bytes encode.
#[verifier::external_body]
pub(crate) fn text_from_utf8(bytes: &[u8]) -> (text: Option<&str>)
    ensures
        text is Some <==> vstd::utf8::valid_utf8(bytes@),
        text is Some ==> text->Some_0@ == vstd::utf8::decode_utf8(bytes@),
{
    std::str::from_utf8(bytes).ok()
}

// ── Conversions ─────────────────────────────────────────────────────────────

/// The characters of `s`.
pub fn chars_of(s: &str) -> (chars: Vec<char>)
    ensures
        chars@ == s@,
{
    let mut out: Vec<char> = Vec::new();
    for c in it: s.chars()
        invariant
            it.seq() == s@,
            out@ == s@.take(it.index()),
    {
        assert(s@.take(it.index() + 1) == s@.take(it.index()).push(c));
        out.push(c);
    }
    assert(s@.take(s@.len() as int) == s@);
    out
}

/// Whether `s` holds no character.
pub fn is_empty_text(s: &str) -> (r: bool)
    ensures
        r == (s@.len() == 0),
{
    let chars: Vec<char> = chars_of(s);
    chars.len() == 0
}

/// The string made of `chars`.
pub fn string_of(chars: &[char]) -> (s: String)
    ensures
        s@ == chars@,
{
    let mut out = String::new();
    let mut i: usize = 0;
    while i < chars.len()
        invariant
            i <= chars.len(),
            out@ == chars@.take(i as int),
        decreases chars.len() - i,
    {
        assert(chars@.take(i + 1) == chars@.take(i as int).push(chars@[i as int]));
        out.push(chars[i]);
        i = i + 1;
    }
    assert(chars@.take(chars@.len() as int) == chars@);
    out
}

/// Whether two character slices hold the same text.
pub fn same_text(a: &[char], b: &[char]) -> (same: bool)
    ensures
        same == (a@ == b@),
{
    if a.len() != b.len() {
        return false;
    }
    let mut i: usize = 0;
    while i < a.len()
        invariant
            i <= a.len(),
            a.len() == b.len(),
            forall|j: int| 0 <= j < i ==> a@[j] == b@[j],
        decreases a.len() - i,
    {
        if a[i] != b[i] {
            return false;
        }
        i = i + 1;
    }
    assert(a@ == b@);
    true
}

// ── White space ─────────────────────────────────────────────────────────────

/// The characters with the Unicode `White_Space` property.
pub open spec fn is_space(c: char) -> bool {
    ||| '\u{9}' <= c <= '\u{d}'
    ||| c == '\u{20}'
    ||| c == '\u{85}'
    ||| c == '\u{a0}'
    ||| c == '\u{1680}'
    ||| '\u{2000}' <= c <= '\u{200a}'
    ||| c == '\u{2028}'
    ||| c == '\u{2029}'
    ||| c == '\u{202f}'
    ||| c == '\u{205f}'
    ||| c == '\u{3000}'
}

/// Whether `c` is white space.
pub fn space(c: char) -> (r: bool)
    ensures
        r == is_space(c),
{
    ('\u{9}' <= c && c <= '\u{d}') || c == '\u{20}' || c == '\u{85}' || c == '\u{a0}' || c
        == '\u{1680}' || ('\u{2000}' <= c && c <= '\u{200a}') || c == '\u{2028}' || c == '\u{2029}'
        || c == '\u{202f}' || c == '\u{205f}' || c == '\u{3000}'
}

/// `s` without its leading white space.
pub open spec fn trim_start(s: Seq<char>) -> Seq<char>
    decreases s.len(),
{
    if s.len() > 0 && is_space(s[0]) {
        trim_start(s.drop_first())
    } else {
        s
    }
}

/// `s` without its trailing white space.
pub open spec fn trim_end(s: Seq<char>) -> Seq<char>
    decreases s.len(),
{
    if s.len() > 0 && is_space(s.last()) {
        trim_end(s.drop_last())
    } else {
        s
    }
}

/// `s` without white space at either end.
pub open spec fn trim(s: Seq<char>) -> Seq<char> {
    trim_end(trim_start(s))
}

proof fn lemma_trim_start(s: Seq<char>, n: int)
    requires
        0 <= n <= s.len(),
        forall|i: int| 0 <= i < n ==> is_space(s[i]),
        n < s.len() ==> !is_space(s[n]),
    ensures
        trim_start(s) == s.skip(n),
    decreases n,
{
    if n == 0 {
        assert(s.skip(0) == s);
    } else {
        lemma_trim_start(s.drop_first(), n - 1);
        assert(s.drop_first().skip(n - 1) == s.skip(n));
    }
}

proof fn lemma_trim_end(s: Seq<char>, n: int)
    requires
        0 <= n <= s.len(),
        forall|i: int| n <= i < s.len() ==> is_space(s[i]),
        n > 0 ==> !is_space(s[n - 1]),
    ensures
        trim_end(s) == s.take(n),
    decreases s.len() - n,
{
    if n == s.len() {
        assert(s.take(n) == s);
    } else {
        lemma_trim_end(s.drop_last(), n);
        assert(s.drop_last().take(n) == s.take(n));
    }
}

/// `s` without white space at either end.
pub fn trimmed(s: &[char]) -> (t: &[char])
    ensures
        t@ == trim(s@),
{
    let mut lo: usize = 0;
    while lo < s.len() && space(s[lo])
        invariant
            lo <= s.len(),
            forall|i: int| 0 <= i < lo ==> is_space(s@[i]),
        decreases s.len() - lo,
    {
        lo = lo + 1;
    }
    let mut hi: usize = s.len();
    while hi > lo && space(s[hi - 1])
        invariant
            lo <= hi <= s.len(),
            forall|i: int| hi <= i < s.len() ==> is_space(s@[i]),
        decreases hi,
    {
        hi = hi - 1;
    }
    proof {
        lemma_trim_start(s@, lo as int);
        let rest = s@.skip(lo as int);
        assert forall|i: int| hi - lo <= i < rest.len() implies is_space(rest[i]) by {
            assert(rest[i] == s@[i + lo]);
        }
        lemma_trim_end(rest, hi - lo);
        assert(rest.take(hi - lo) == s@.subrange(lo as int, hi as int));
    }
    slice_subrange(s, lo, hi)
}

/// Whether `s` is nothing but white space.
pub open spec fn is_blank(s: Seq<char>) -> bool {
    forall|i: int| 0 <= i < s.len() ==> is_space(#[trigger] s[i])
}

/// White space around a text that has none at its ends is cut off, and nothing
/// else.
pub proof fn law_trim_cuts_blanks_only(pre: Seq<char>, s: Seq<char>, post: Seq<char>)
    requires
        is_blank(pre),
        is_blank(post),
        s.len() > 0 ==> !is_space(s[0]) && !is_space(s.last()),
    ensures
        trim(pre + s + post) == s,
{
    let whole = pre + s + post;
    let n = pre.len() as int;
    if s.len() == 0 {
        assert forall|i: int| 0 <= i < whole.len() implies is_space(#[trigger] whole[i]) by {
            if i < n {
                assert(whole[i] == pre[i]);
            } else {
                assert(whole[i] == post[i - n]);
            }
        }
        lemma_trim_start(whole, whole.len() as int);
        assert(trim(whole) == s);
    } else {
        assert forall|i: int| 0 <= i < n implies is_space(#[trigger] whole[i]) by {
            assert(whole[i] == pre[i]);
        }
        assert(whole[n] == s[0]);
        lemma_trim_start(whole, n);
        let rest = whole.skip(n);
        assert(rest == s + post);
        let m = s.len() as int;
        assert forall|i: int| m <= i < rest.len() implies is_space(#[trigger] rest[i]) by {
            assert(rest[i] == post[i - m]);
        }
        assert(rest[m - 1] == s.last());
        lemma_trim_end(rest, m);
        assert(rest.take(m) == s);
    }
}

/// A text keeps its characters other than white space when it is trimmed.
pub proof fn law_trim_keeps_what_is_no_blank(s: Seq<char>, c: char)
    requires
        !is_space(c),
    ensures
        trim(s).contains(c) <==> s.contains(c),
{
    lemma_trim_start_keeps(s, c);
    lemma_trim_end_keeps(trim_start(s), c);
}

proof fn lemma_trim_start_keeps(s: Seq<char>, c: char)
    requires
        !is_space(c),
    ensures
        trim_start(s).contains(c) <==> s.contains(c),
    decreases s.len(),
{
    if s.len() > 0 && is_space(s[0]) {
        let t = s.drop_first();
        lemma_trim_start_keeps(t, c);
        if s.contains(c) {
            let i = choose|i: int| 0 <= i < s.len() && s[i] == c;
            assert(t[i - 1] == c);
        }
        if t.contains(c) {
            let i = choose|i: int| 0 <= i < t.len() && t[i] == c;
            assert(s[i + 1] == c);
        }
    }
}

proof fn lemma_trim_end_keeps(s: Seq<char>, c: char)
    requires
        !is_space(c),
    ensures
        trim_end(s).contains(c) <==> s.contains(c),
    decreases s.len(),
{
    if s.len() > 0 && is_space(s.last()) {
        let t = s.drop_last();
        lemma_trim_end_keeps(t, c);
        if s.contains(c) {
            let i = choose|i: int| 0 <= i < s.len() && s[i] == c;
            assert(t[i] == c);
        }
        if t.contains(c) {
            let i = choose|i: int| 0 <= i < t.len() && t[i] == c;
            assert(s[i] == c);
        }
    }
}

/// White space is tab to carriage return, the space, the next line, and the spaces
/// and separators that Unicode counts to it.
pub proof fn law_white_space_is_unicodes(c: char)
    ensures
        is_space(c) <==> {
            let n = c as u32;
            ||| 9 <= n <= 13 || n == 32 || n == 0x85 || n == 0xa0 || n == 0x1680
            ||| 0x2000 <= n <= 0x200a || n == 0x2028 || n == 0x2029 || n == 0x202f
            ||| n == 0x205f || n == 0x3000
        },
{
}

// ── Splitting ───────────────────────────────────────────────────────────────

/// The position of the first character of `s` that is one of `seps`, or the
/// length of `s` where there is none.
pub open spec fn first_of(s: Seq<char>, seps: Seq<char>) -> int
    decreases s.len(),
{
    if s.len() == 0 || seps.contains(s[0]) {
        0
    } else {
        1 + first_of(s.drop_first(), seps)
    }
}

/// The pieces of `s` between the characters of `seps`; one piece more than
/// there are separators.
pub open spec fn split(s: Seq<char>, seps: Seq<char>) -> Seq<Seq<char>>
    decreases s.len(),
{
    let n = first_of(s, seps);
    if 0 <= n < s.len() {
        seq![s.take(n)] + split(s.skip(n + 1), seps)
    } else {
        seq![s]
    }
}

/// The parts of `s` before and after its first `sep`.
pub open spec fn split_once(s: Seq<char>, sep: char) -> Option<(Seq<char>, Seq<char>)> {
    let n = first_of(s, seq![sep]);
    if n < s.len() {
        Some((s.take(n), s.skip(n + 1)))
    } else {
        None
    }
}

/// `first_of` is the least position that holds a separator.
pub proof fn lemma_first_of(s: Seq<char>, seps: Seq<char>, n: int)
    requires
        0 <= n <= s.len(),
        forall|i: int| 0 <= i < n ==> !seps.contains(#[trigger] s[i]),
        n < s.len() ==> seps.contains(s[n]),
    ensures
        first_of(s, seps) == n,
    decreases n,
{
    if n > 0 {
        assert(!seps.contains(s[0]));
        assert forall|i: int| 0 <= i < n - 1 implies !seps.contains(
            #[trigger] s.drop_first()[i],
        ) by {
            assert(s.drop_first()[i] == s[i + 1]);
        }
        lemma_first_of(s.drop_first(), seps, n - 1);
    }
}

/// `first_of` lies within the text, and nothing before it is a separator.
pub proof fn lemma_first_of_bounds(s: Seq<char>, seps: Seq<char>)
    ensures
        0 <= first_of(s, seps) <= s.len(),
        forall|i: int| 0 <= i < first_of(s, seps) ==> !seps.contains(#[trigger] s[i]),
        first_of(s, seps) < s.len() ==> seps.contains(s[first_of(s, seps)]),
    decreases s.len(),
{
    if s.len() > 0 && !seps.contains(s[0]) {
        lemma_first_of_bounds(s.drop_first(), seps);
        assert forall|i: int| 0 <= i < first_of(s, seps) implies !seps.contains(
            #[trigger] s[i],
        ) by {
            if i > 0 {
                assert(s[i] == s.drop_first()[i - 1]);
            }
        }
    }
}

/// A text without separators is its own only piece.
pub proof fn lemma_split_single(s: Seq<char>, seps: Seq<char>)
    requires
        forall|i: int| 0 <= i < s.len() ==> !seps.contains(#[trigger] s[i]),
    ensures
        split(s, seps) == seq![s],
{
    lemma_first_of(s, seps, s.len() as int);
}

/// A piece, a separator and a rest split into the piece and those of the rest.
pub proof fn lemma_split_cons(head: Seq<char>, sep: char, rest: Seq<char>, seps: Seq<char>)
    requires
        forall|i: int| 0 <= i < head.len() ==> !seps.contains(#[trigger] head[i]),
        seps.contains(sep),
    ensures
        split(head.push(sep) + rest, seps) == seq![head] + split(rest, seps),
{
    let s = head.push(sep) + rest;
    let n = head.len() as int;
    assert forall|i: int| 0 <= i < n implies !seps.contains(#[trigger] s[i]) by {
        assert(s[i] == head[i]);
    }
    assert(s[n] == sep);
    lemma_first_of(s, seps, n);
    assert(s.take(n) == head);
    assert(s.skip(n + 1) == rest);
}

/// The pieces of two texts with a separator between them are those of the one and
/// those of the other.
pub proof fn law_split_of_joined_texts(a: Seq<char>, sep: char, b: Seq<char>, seps: Seq<char>)
    requires
        seps.contains(sep),
    ensures
        split(a.push(sep) + b, seps) == split(a, seps) + split(b, seps),
    decreases a.len(),
{
    lemma_first_of_bounds(a, seps);
    let n = first_of(a, seps);
    if n < a.len() {
        let head = a.take(n);
        let rest = a.skip(n + 1);
        law_split_of_joined_texts(rest, sep, b, seps);
        assert forall|i: int| 0 <= i < head.len() implies !seps.contains(#[trigger] head[i]) by {
            assert(head[i] == a[i]);
        }
        assert(a.push(sep) + b == head.push(a[n]) + (rest.push(sep) + b));
        lemma_split_cons(head, a[n], rest.push(sep) + b, seps);
        assert(seq![head] + (split(rest, seps) + split(b, seps)) == split(a, seps) + split(b, seps));
    } else {
        lemma_split_cons(a, sep, b, seps);
    }
}

/// Behind its first piece and a separator, a text goes on with its other pieces.
pub proof fn lemma_split_peel(s: Seq<char>, seps: Seq<char>)
    requires
        split(s, seps).len() > 1,
    ensures
        ({
            let n = first_of(s, seps);
            &&& 0 <= n < s.len()
            &&& seps.contains(s[n])
            &&& split(s, seps)[0] == s.take(n)
            &&& split(s.skip(n + 1), seps) == split(s, seps).drop_first()
            &&& s == s.take(n).push(s[n]) + s.skip(n + 1)
        }),
{
    lemma_first_of_bounds(s, seps);
    let n = first_of(s, seps);
    assert(split(s, seps).drop_first() =~= split(s.skip(n + 1), seps));
    assert(s =~= s.take(n).push(s[n]) + s.skip(n + 1));
}

/// A text of one piece is that piece.
pub proof fn lemma_split_whole(s: Seq<char>, seps: Seq<char>)
    requires
        split(s, seps).len() == 1,
    ensures
        split(s, seps)[0] == s,
{
    lemma_first_of_bounds(s, seps);
    let n = first_of(s, seps);
    if n < s.len() {
        lemma_split_some(s.skip(n + 1), seps);
    }
}

proof fn lemma_split_some(s: Seq<char>, seps: Seq<char>)
    ensures
        split(s, seps).len() > 0,
{
}

fn char_in(c: char, set: &[char]) -> (r: bool)
    ensures
        r == set@.contains(c),
{
    let mut i: usize = 0;
    while i < set.len()
        invariant
            i <= set.len(),
            forall|j: int| 0 <= j < i ==> set@[j] != c,
        decreases set.len() - i,
    {
        if set[i] == c {
            assert(set@[i as int] == c);
            return true;
        }
        i = i + 1;
    }
    false
}

/// The position of the first separator in `s`.
pub fn position_of(s: &[char], seps: &[char]) -> (n: usize)
    ensures
        n == first_of(s@, seps@),
        n <= s.len(),
{
    let mut i: usize = 0;
    while i < s.len() && !char_in(s[i], seps)
        invariant
            i <= s.len(),
            forall|j: int| 0 <= j < i ==> !seps@.contains(#[trigger] s@[j]),
        decreases s.len() - i,
    {
        i = i + 1;
    }
    proof {
        lemma_first_of(s@, seps@, i as int);
    }
    i
}

/// The texts behind a sequence of slices.
pub open spec fn texts(pieces: Seq<&[char]>) -> Seq<Seq<char>> {
    pieces.map_values(|p: &[char]| p@)
}

/// The pieces of `s` between the characters of `seps`.
pub fn split_any<'a>(s: &'a [char], seps: &[char]) -> (pieces: Vec<&'a [char]>)
    ensures
        texts(pieces@) == split(s@, seps@),
{
    let mut pieces: Vec<&'a [char]> = Vec::new();
    let mut rest: &'a [char] = s;
    assert(texts(pieces@) + split(rest@, seps@) == split(s@, seps@));
    loop
        invariant_except_break
            texts(pieces@) + split(rest@, seps@) == split(s@, seps@),
        ensures
            texts(pieces@) == split(s@, seps@),
        decreases rest@.len(),
    {
        let n: usize = position_of(rest, seps);
        let ghost before = pieces@;
        let piece: &'a [char] = slice_subrange(rest, 0, n);
        assert(piece@ == rest@.take(n as int));
        pieces.push(piece);
        assert(texts(pieces@) == texts(before).push(piece@));
        if n == rest.len() {
            assert(split(rest@, seps@) == seq![rest@]);
            assert(rest@.take(n as int) == rest@);
            assert(texts(pieces@) == texts(before) + seq![rest@]);
            break;
        }
        let tail: &'a [char] = slice_subrange(rest, n + 1, rest.len());
        assert(tail@ == rest@.skip(n + 1));
        assert(texts(pieces@) + split(tail@, seps@) == texts(before) + split(rest@, seps@));
        rest = tail;
    }
    pieces
}

/// The parts of `s` before and after its first `sep`.
pub fn split_first<'a>(s: &'a [char], sep: char) -> (parts: Option<(&'a [char], &'a [char])>)
    ensures
        parts is Some <==> split_once(s@, sep) is Some,
        parts is Some ==> (parts->Some_0.0@, parts->Some_0.1@) == split_once(s@, sep)->Some_0,
{
    let seps: [char; 1] = [sep];
    assert(seps@ == seq![sep]);
    let n: usize = position_of(s, &seps);
    if n == s.len() {
        return None;
    }
    let head: &'a [char] = slice_subrange(s, 0, n);
    let tail: &'a [char] = slice_subrange(s, n + 1, s.len());
    assert(head@ == s@.take(n as int));
    assert(tail@ == s@.skip(n + 1));
    Some((head, tail))
}

/// Whether `s` begins with `prefix`.
pub open spec fn starts_with(s: Seq<char>, prefix: Seq<char>) -> bool {
    prefix.len() <= s.len() && s.take(prefix.len() as int) == prefix
}

/// Whether `s` begins with `prefix`.
pub fn has_prefix(s: &[char], prefix: &[char]) -> (r: bool)
    ensures
        r == starts_with(s@, prefix@),
{
    if prefix.len() > s.len() {
        return false;
    }
    let head: &[char] = slice_subrange(s, 0, prefix.len());
    assert(head@ == s@.take(prefix@.len() as int));
    same_text(head, prefix)
}

// ── ASCII letter case ───────────────────────────────────────────────────────

/// `c` with an ASCII capital replaced by its small letter.
pub open spec fn ascii_lower(c: char) -> char {
    if 'A' <= c <= 'Z' {
        ((c as u32) + 32) as char
    } else {
        c
    }
}

/// `s` with every ASCII capital replaced by its small letter.
pub open spec fn lowered(s: Seq<char>) -> Seq<char> {
    s.map_values(|c: char| ascii_lower(c))
}

/// Whether two texts differ in the case of ASCII letters at most.
pub open spec fn eq_ignore_case(a: Seq<char>, b: Seq<char>) -> bool {
    lowered(a) == lowered(b)
}

/// Replacing the capitals once is enough.
pub proof fn lemma_lowered_twice(s: Seq<char>)
    ensures
        eq_ignore_case(s, lowered(s)),
{
    assert(lowered(lowered(s)) == lowered(s));
}

/// Texts that differ in the case of ASCII letters at most agree in their length,
/// in the positions of their other characters, and in whether they are ASCII.
pub proof fn lemma_same_but_for_case(a: Seq<char>, b: Seq<char>)
    requires
        eq_ignore_case(a, b),
    ensures
        a.len() == b.len(),
        forall|i: int| #![trigger a[i]] #![trigger b[i]] 0 <= i < a.len() ==> ascii_lower(a[i])
            == ascii_lower(b[i]),
        vstd::utf8::is_ascii_chars(a) == vstd::utf8::is_ascii_chars(b),
{
    assert(lowered(a).len() == a.len() && lowered(b).len() == b.len());
    assert forall|i: int| #![trigger a[i]] #![trigger b[i]] 0 <= i < a.len() implies ascii_lower(
        a[i],
    ) == ascii_lower(b[i]) by {
        assert(lowered(a)[i] == ascii_lower(a[i]));
        assert(lowered(b)[i] == ascii_lower(b[i]));
    }
    if vstd::utf8::is_ascii_chars(a) {
        assert forall|i: int| 0 <= i < b.len() implies (#[trigger] b[i] as u32) < 128 by {
            assert((a[i] as u32) < 128);
        }
    }
    if vstd::utf8::is_ascii_chars(b) {
        assert forall|i: int| 0 <= i < a.len() implies (#[trigger] a[i] as u32) < 128 by {
            assert((b[i] as u32) < 128);
        }
    }
}

/// `c` with an ASCII capital replaced by its small letter.
pub fn lower(c: char) -> (r: char)
    ensures
        r == ascii_lower(c),
{
    if 'A' <= c && c <= 'Z' {
        ((c as u8) + 32) as char
    } else {
        c
    }
}

/// `s` with every ASCII capital replaced by its small letter.
pub fn lower_text(s: &[char]) -> (r: Vec<char>)
    ensures
        r@ == lowered(s@),
{
    let mut out: Vec<char> = Vec::new();
    let mut i: usize = 0;
    while i < s.len()
        invariant
            i <= s.len(),
            out@ == lowered(s@.take(i as int)),
        decreases s.len() - i,
    {
        assert(lowered(s@.take(i + 1)) == lowered(s@.take(i as int)).push(
            ascii_lower(s@[i as int]),
        ));
        out.push(lower(s[i]));
        i = i + 1;
    }
    assert(s@.take(s@.len() as int) == s@);
    out
}

/// Whether two texts differ in the case of ASCII letters at most.
pub fn same_ignoring_case(a: &[char], b: &[char]) -> (r: bool)
    ensures
        r == eq_ignore_case(a@, b@),
{
    let x: Vec<char> = lower_text(a);
    let y: Vec<char> = lower_text(b);
    same_text(&x, &y)
}

/// Two characters are the same but for letter case where they are the same, or the
/// capital and the small form of one ASCII letter.
pub proof fn law_letter_case_is_ascii(a: char, b: char)
    ensures
        eq_ignore_case(seq![a], seq![b]) <==> {
            ||| a == b
            ||| 'A' <= a <= 'Z' && b as u32 == a as u32 + 32
            ||| 'A' <= b <= 'Z' && a as u32 == b as u32 + 32
        },
{
    assert(lowered(seq![a])[0] == ascii_lower(a));
    assert(lowered(seq![b])[0] == ascii_lower(b));
    if ascii_lower(a) == ascii_lower(b) {
        assert(lowered(seq![a]) =~= lowered(seq![b]));
    }
}

// ── Numbers ─────────────────────────────────────────────────────────────────

/// Whether `c` is one of `0` to `9`.
pub open spec fn is_digit(c: char) -> bool {
    '0' <= c <= '9'
}

/// The value of a decimal digit.
pub open spec fn digit_value(c: char) -> nat {
    (c as u32 - '0' as u32) as nat
}

/// Whether every character of `s` is a decimal digit.
pub open spec fn all_digits(s: Seq<char>) -> bool {
    forall|i: int| 0 <= i < s.len() ==> is_digit(#[trigger] s[i])
}

/// The number that a sequence of decimal digits writes.
pub open spec fn decimal_value(s: Seq<char>) -> nat
    decreases s.len(),
{
    if s.len() == 0 {
        0
    } else {
        decimal_value(s.drop_last()) * 10 + digit_value(s.last())
    }
}

/// The number written by `s`: one digit or more, at most `max`.
pub open spec fn digits_value(s: Seq<char>, max: nat) -> Option<nat> {
    if s.len() > 0 && all_digits(s) && decimal_value(s) <= max {
        Some(decimal_value(s))
    } else {
        None
    }
}

/// The unsigned number written by `s`, with an optional leading `+`.
pub open spec fn unsigned_value(s: Seq<char>, max: nat) -> Option<nat> {
    if s.len() > 0 && s[0] == '+' {
        digits_value(s.drop_first(), max)
    } else {
        digits_value(s, max)
    }
}

/// The number of a leading part is no more than the whole's.
proof fn lemma_decimal_prefix(s: Seq<char>, n: int)
    requires
        0 <= n <= s.len(),
    ensures
        decimal_value(s.take(n)) <= decimal_value(s),
    decreases s.len(),
{
    if n == s.len() {
        assert(s.take(n) == s);
    } else {
        lemma_decimal_prefix(s.drop_last(), n);
        assert(s.drop_last().take(n) == s.take(n));
    }
}

/// The number written by the digits `s`, at most `max`.
pub fn parse_digits(s: &[char], max: u64) -> (r: Option<u64>)
    ensures
        r is Some <==> digits_value(s@, max as nat) is Some,
        r is Some ==> r->Some_0 == digits_value(s@, max as nat)->Some_0,
{
    if s.len() == 0 {
        return None;
    }
    let mut acc: u64 = 0;
    let mut i: usize = 0;
    while i < s.len()
        invariant
            i <= s.len(),
            forall|j: int| 0 <= j < i ==> is_digit(#[trigger] s@[j]),
            acc == decimal_value(s@.take(i as int)),
            acc <= max,
        decreases s.len() - i,
    {
        let c: char = s[i];
        if !('0' <= c && c <= '9') {
            assert(!is_digit(s@[i as int]));
            return None;
        }
        let d: u64 = (c as u32 - '0' as u32) as u64;
        proof {
            assert(s@.take(i + 1).drop_last() == s@.take(i as int));
            lemma_decimal_prefix(s@, i + 1);
        }
        if acc > max / 10 || d > max - acc * 10 {
            return None;
        }
        acc = acc * 10 + d;
        i = i + 1;
    }
    assert(s@.take(s@.len() as int) == s@);
    Some(acc)
}

/// The unsigned number written by `s`, with an optional leading `+`.
pub fn parse_unsigned(s: &[char], max: u64) -> (r: Option<u64>)
    ensures
        r is Some <==> unsigned_value(s@, max as nat) is Some,
        r is Some ==> r->Some_0 == unsigned_value(s@, max as nat)->Some_0,
{
    if s.len() > 0 && s[0] == '+' {
        let rest: &[char] = slice_subrange(s, 1, s.len());
        assert(rest@ == s@.drop_first());
        parse_digits(rest, max)
    } else {
        parse_digits(s, max)
    }
}

/// The character of a digit below ten.
pub open spec fn digit_char(d: nat) -> char {
    (48 + d) as char
}

/// The decimal digits of `n`, without leading zeros.
pub open spec fn decimal(n: nat) -> Seq<char>
    decreases n,
{
    if n < 10 {
        seq![digit_char(n)]
    } else {
        decimal(n / 10).push(digit_char(n % 10))
    }
}

/// Appends the decimal digits of `n` to `out`.
pub fn push_decimal(out: &mut Vec<char>, n: u64)
    ensures
        final(out)@ == old(out)@ + decimal(n as nat),
    decreases n,
{
    if n >= 10 {
        push_decimal(out, n / 10);
    }
    let c: char = ((n % 10) as u8 + 48) as char;
    out.push(c);
    assert(out@ == old(out)@ + decimal(n as nat));
}

/// Appends `s` to `out`.
pub fn push_text(out: &mut Vec<char>, s: &[char])
    ensures
        final(out)@ == old(out)@ + s@,
{
    let mut i: usize = 0;
    while i < s.len()
        invariant
            i <= s.len(),
            out@ == old(out)@ + s@.take(i as int),
        decreases s.len() - i,
    {
        assert(s@.take(i + 1) == s@.take(i as int).push(s@[i as int]));
        out.push(s[i]);
        i = i + 1;
    }
    assert(s@.take(s@.len() as int) == s@);
}

/// Appends the text of `s` to `out`.
pub fn push_str(out: &mut Vec<char>, s: &str)
    ensures
        final(out)@ == old(out)@ + s@,
{
    let chars: Vec<char> = chars_of(s);
    push_text(out, &chars);
}

/// A decimal number reads back as itself.
pub proof fn lemma_decimal_reads_back(n: nat)
    ensures
        decimal(n).len() > 0,
        all_digits(decimal(n)),
        decimal_value(decimal(n)) == n,
        n >= 10 ==> decimal(n)[0] != '0',
        n > 0 ==> decimal(n)[0] != '0',
    decreases n,
{
    if n < 10 {
        assert(decimal(n).drop_last() == Seq::<char>::empty());
        assert(decimal_value(decimal(n).drop_last()) == 0);
    } else {
        lemma_decimal_reads_back(n / 10);
        assert(decimal(n).drop_last() == decimal(n / 10));
        assert(decimal(n)[0] == decimal(n / 10)[0]);
    }
}

/// Digits without a leading zero are the decimal text of their number.
pub proof fn law_digits_are_the_text_of_their_number(s: Seq<char>)
    requires
        s.len() > 0,
        all_digits(s),
        s.len() == 1 || s[0] != '0',
    ensures
        decimal(decimal_value(s)) == s,
        s.len() > 1 ==> decimal_value(s) >= 10,
        s[0] != '0' ==> decimal_value(s) > 0,
    decreases s.len(),
{
    let front = s.drop_last();
    let d = s.last();
    assert(is_digit(s[s.len() - 1]));
    assert(digit_char(digit_value(d)) == d);
    if s.len() == 1 {
        assert(decimal_value(front) == 0);
        assert(decimal(decimal_value(s)) =~= s);
    } else {
        assert forall|i: int| 0 <= i < front.len() implies is_digit(#[trigger] front[i]) by {
            assert(front[i] == s[i]);
        }
        law_digits_are_the_text_of_their_number(front);
        let n = decimal_value(front);
        assert(front[0] == s[0]);
        assert((n * 10 + digit_value(d)) / 10 == n);
        assert((n * 10 + digit_value(d)) % 10 == digit_value(d));
        assert(front.push(d) =~= s);
    }
}

/// The text of a number with zeros in front of it, and with a `+` in front of
/// those, still reads as that number; nothing but digits behind an optional `+`
/// reads as any.
pub proof fn law_number_may_have_zeros_and_a_plus(zeros: nat, n: nat, max: nat)
    requires
        n <= max,
    ensures
        unsigned_value(Seq::new(zeros, |i: int| '0') + decimal(n), max) == Some(n),
        unsigned_value(seq!['+'] + (Seq::new(zeros, |i: int| '0') + decimal(n)), max) == Some(n),
{
    lemma_decimal_reads_back(n);
    let s = Seq::new(zeros, |i: int| '0') + decimal(n);
    lemma_leading_zeros(zeros, decimal(n));
    assert forall|i: int| 0 <= i < s.len() implies is_digit(#[trigger] s[i]) by {
        if i >= zeros {
            assert(s[i] == decimal(n)[i - zeros]);
        }
    }
    assert(is_digit(s[0]));
    let plus = seq!['+'] + s;
    assert(plus[0] == '+');
    assert(plus.drop_first() =~= s);
}

proof fn lemma_leading_zeros(zeros: nat, s: Seq<char>)
    ensures
        decimal_value(Seq::new(zeros, |i: int| '0') + s) == decimal_value(s),
    decreases zeros + s.len(),
{
    let all = Seq::new(zeros, |i: int| '0') + s;
    if s.len() > 0 {
        lemma_leading_zeros(zeros, s.drop_last());
        assert(all.drop_last() =~= Seq::new(zeros, |i: int| '0') + s.drop_last());
    } else if zeros > 0 {
        lemma_leading_zeros((zeros - 1) as nat, s);
        assert(all.drop_last() =~= Seq::new((zeros - 1) as nat, |i: int| '0') + s);
    } else {
        assert(all =~= s);
    }
}

/// A text with any character but a digit, a leading `+` aside, is no number, and
/// neither is one that exceeds the limit.
pub proof fn law_other_texts_are_no_numbers(s: Seq<char>, max: nat, i: int)
    ensures
        0 < i < s.len() && !is_digit(s[i]) ==> unsigned_value(s, max) is None,
        s.len() > 0 && !is_digit(s[0]) && s[0] != '+' ==> unsigned_value(s, max) is None,
        s.len() == 0 ==> unsigned_value(s, max) is None,
        s == seq!['+'] ==> unsigned_value(s, max) is None,
        unsigned_value(s, max) is Some ==> unsigned_value(s, max)->Some_0 <= max,
{
    if 0 < i < s.len() && !is_digit(s[i]) {
        if s[0] == '+' {
            assert(s.drop_first()[i - 1] == s[i]);
        }
    }
}

// ── Words ───────────────────────────────────────────────────────────────────

/// The length of the run of characters at the start of `s` that are not white
/// space.
pub open spec fn word_len(s: Seq<char>) -> int
    decreases s.len(),
{
    if s.len() == 0 || is_space(s[0]) {
        0
    } else {
        1 + word_len(s.drop_first())
    }
}

/// The first word of `s` and what follows it.
pub open spec fn next_word(s: Seq<char>) -> Option<(Seq<char>, Seq<char>)> {
    let t = trim_start(s);
    if t.len() == 0 {
        None
    } else {
        Some((t.take(word_len(t)), t.skip(word_len(t))))
    }
}

proof fn lemma_word_len(s: Seq<char>, n: int)
    requires
        0 <= n <= s.len(),
        forall|i: int| 0 <= i < n ==> !is_space(s[i]),
        n < s.len() ==> is_space(s[n]),
    ensures
        word_len(s) == n,
    decreases n,
{
    if n > 0 {
        lemma_word_len(s.drop_first(), n - 1);
    }
}

/// A word with white space before it, and white space or nothing behind it, is
/// the first word.
pub proof fn law_word_stands_between_blanks(pre: Seq<char>, word: Seq<char>, rest: Seq<char>)
    requires
        is_blank(pre),
        word.len() > 0,
        forall|i: int| 0 <= i < word.len() ==> !is_space(#[trigger] word[i]),
        rest.len() > 0 ==> is_space(rest[0]),
    ensures
        next_word(pre + word + rest) == Some((word, rest)),
{
    let whole = pre + word + rest;
    let n = pre.len() as int;
    assert forall|i: int| 0 <= i < n implies is_space(#[trigger] whole[i]) by {
        assert(whole[i] == pre[i]);
    }
    assert(whole[n] == word[0]);
    lemma_trim_start(whole, n);
    let t = whole.skip(n);
    assert(t == word + rest);
    assert forall|i: int| 0 <= i < word.len() implies !is_space(#[trigger] t[i]) by {
        assert(t[i] == word[i]);
    }
    lemma_word_len(t, word.len() as int);
    assert(t.take(word.len() as int) == word);
    assert(t.skip(word.len() as int) == rest);
}

/// The first word of `s` and what follows it.
pub fn take_word<'a>(s: &'a [char]) -> (r: Option<(&'a [char], &'a [char])>)
    ensures
        r is Some <==> next_word(s@) is Some,
        r is Some ==> (r->Some_0.0@, r->Some_0.1@) == next_word(s@)->Some_0,
{
    let mut lo: usize = 0;
    while lo < s.len() && space(s[lo])
        invariant
            lo <= s.len(),
            forall|i: int| 0 <= i < lo ==> is_space(s@[i]),
        decreases s.len() - lo,
    {
        lo = lo + 1;
    }
    proof {
        lemma_trim_start(s@, lo as int);
    }
    if lo == s.len() {
        return None;
    }
    let mut hi: usize = lo;
    while hi < s.len() && !space(s[hi])
        invariant
            lo <= hi <= s.len(),
            forall|i: int| lo <= i < hi ==> !is_space(s@[i]),
        decreases s.len() - hi,
    {
        hi = hi + 1;
    }
    let ghost t = s@.skip(lo as int);
    proof {
        assert forall|i: int| 0 <= i < hi - lo implies !is_space(t[i]) by {
            assert(t[i] == s@[i + lo]);
        }
        lemma_word_len(t, hi - lo);
    }
    let word: &'a [char] = slice_subrange(s, lo, hi);
    let rest: &'a [char] = slice_subrange(s, hi, s.len());
    assert(word@ == t.take(hi - lo));
    assert(rest@ == t.skip(hi - lo));
    Some((word, rest))
}

// ── Searching ───────────────────────────────────────────────────────────────

/// Whether `needle` stands in `s` at position `at`.
pub open spec fn stands_at(s: Seq<char>, needle: Seq<char>, at: int) -> bool {
    0 <= at && at + needle.len() <= s.len() && s.subrange(at, at + needle.len()) == needle
}

/// Whether `needle` occurs in `s`.
pub open spec fn contains_text(s: Seq<char>, needle: Seq<char>) -> bool {
    exists|at: int| stands_at(s, needle, at)
}

/// Whether `needle` occurs in `s`.
pub fn has_text(s: &[char], needle: &[char]) -> (r: bool)
    ensures
        r == contains_text(s@, needle@),
{
    if needle.len() > s.len() {
        return false;
    }
    let last: usize = s.len() - needle.len();
    let mut at: usize = 0;
    loop
        invariant
            at <= last,
            last == s.len() - needle.len(),
            forall|i: int| 0 <= i < at ==> !stands_at(s@, needle@, i),
        decreases last - at,
    {
        let part: &[char] = slice_subrange(s, at, at + needle.len());
        if same_text(part, needle) {
            assert(stands_at(s@, needle@, at as int));
            return true;
        }
        if at == last {
            return false;
        }
        at = at + 1;
    }
}

} // verus!
