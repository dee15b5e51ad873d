//! Case-insensitive glob patterns, matched with the `regex` crate.

use regex::Regex;
use vstd::prelude::*;

use crate::text;
use crate::text::{chars_of, push_str, push_text, string_of};

verus! {

// ── The regex crate ─────────────────────────────────────────────────────────

/// The compiled form of a regular expression.
#[verifier::external_type_specification]
#[verifier::external_body]
pub struct ExRegex(regex::Regex);

/// The pattern that a regular expression was compiled from.
pub uninterp spec fn regex_source(re: Regex) -> Seq<char>;

/// Whether `Regex::new` compiles a pattern, on a machine whose words have this many
/// bits: the size of the compiled form, which is limited, depends on it.
pub uninterp spec fn regex_accepts(word_bits: nat, pattern: Seq<char>) -> bool;

/// Whether a regular expression finds a match in a text.
pub uninterp spec fn regex_matches(pattern: Seq<char>, text: Seq<char>) -> bool;

/// Whether `c` has a meaning of its own in a regular expression.
pub open spec fn is_meta(c: char) -> bool {
    ||| c == '\\' || c == '.' || c == '+' || c == '*' || c == '?' || c == '(' || c == ')'
    ||| c == '|' || c == '[' || c == ']' || c == '{' || c == '}' || c == '^' || c == '$'
    ||| c == '#' || c == '&' || c == '-' || c == '~'
}

/// A text with a backslash before each character that has a meaning of its own.
pub open spec fn escaped(s: Seq<char>) -> Seq<char>
    decreases s.len(),
{
    if s.len() == 0 {
        Seq::empty()
    } else if is_meta(s.last()) {
        escaped(s.drop_last()).push('\\').push(s.last())
    } else {
        escaped(s.drop_last()).push(s.last())
    }
}

/// `regex::escape` puts a backslash before each character that has a meaning
/// of its own in a regular expression and leaves the others as they are.
pub assume_specification[ regex::escape ](pattern: &str) -> (r: String)
    ensures
        r@ == escaped(pattern@),
;

/// `Regex::new` compiles a pattern or rejects it: one that is not a regular
/// expression, or whose compiled form exceeds the size limit. Which patterns it
/// accepts is a name; what it compiles keeps the pattern as its source.
#[verifier::external_body]
fn compile_regex(pattern: &str) -> (r: Option<Regex>)
    ensures
        r is Some <==> regex_accepts(usize::BITS as nat, pattern@),
        r is Some ==> regex_source(r->Some_0) == pattern@,
{
    Regex::new(pattern).ok()
}

/// One element of an anchored pattern.
pub enum Piece {
    /// This character, whatever its case.
    Literal(char),
    /// Any one character but a line feed.
    AnyChar,
    /// Any number of characters but a line feed.
    AnyRun,
}

/// How a piece is written in a regular expression.
pub open spec fn piece_regex(p: Piece) -> Seq<char> {
    match p {
        Piece::Literal(c) => escaped(seq![c]),
        Piece::AnyChar => seq!['.'],
        Piece::AnyRun => seq!['.', '*'],
    }
}

/// How a sequence of pieces is written in a regular expression.
pub open spec fn pieces_regex(pieces: Seq<Piece>) -> Seq<char>
    decreases pieces.len(),
{
    if pieces.len() == 0 {
        Seq::empty()
    } else {
        pieces_regex(pieces.drop_last()) + piece_regex(pieces.last())
    }
}

/// The case-insensitive regular expression, anchored at both ends, that a
/// sequence of pieces stands for.
pub open spec fn anchored_regex(pieces: Seq<Piece>) -> Seq<char> {
    seq!['(', '?', 'i', ')', '^'] + pieces_regex(pieces) + seq!['$']
}

/// Whether every literal of `pieces` is an ASCII character.
pub open spec fn ascii_pieces(pieces: Seq<Piece>) -> bool {
    forall|i: int| 0 <= i < pieces.len() ==> match #[trigger] pieces[i] {
        Piece::Literal(c) => (c as u32) < 128,
        _ => true,
    }
}

/// Whether `pieces` describe the whole of `text`, letter case aside.
pub open spec fn pieces_match(pieces: Seq<Piece>, text: Seq<char>) -> bool
    decreases pieces.len(), text.len(),
{
    if pieces.len() == 0 {
        text.len() == 0
    } else {
        match pieces[0] {
            Piece::Literal(c) => text.len() > 0 && text::ascii_lower(text[0])
                == text::ascii_lower(c) && pieces_match(pieces.drop_first(), text.drop_first()),
            Piece::AnyChar => text.len() > 0 && text[0] != '\n' && pieces_match(
                pieces.drop_first(),
                text.drop_first(),
            ),
            Piece::AnyRun => pieces_match(pieces.drop_first(), text) || (text.len() > 0 && text[0]
                != '\n' && pieces_match(pieces, text.drop_first())),
        }
    }
}

/// `Regex::is_match` depends on the pattern and the text alone. Of the full
/// syntax one corner is stated, expressions made of escaped literals, `.` and
/// `.*` between `(?i)^` and `$`. Such an expression matches exactly the texts
/// that its pieces describe, as long as literals and text are ASCII. Whatever its
/// literals are, it matches every text that its pieces describe, and the case of
/// the ASCII letters of the text makes no difference: a literal stands for all
/// characters of its class in Unicode's simple case folding, itself included, and
/// no class holds an ASCII letter in one case only.
#[verifier::external_body]
fn regex_is_match(re: &Regex, text: &str) -> (r: bool)
    ensures
        r == regex_matches(regex_source(*re), text@),
        forall|pieces: Seq<Piece>|
            #[trigger] anchored_regex(pieces) == regex_source(*re) && ascii_pieces(pieces)
                && vstd::utf8::is_ascii_chars(text@) ==> r == pieces_match(pieces, text@),
        forall|pieces: Seq<Piece>|
            #[trigger] anchored_regex(pieces) == regex_source(*re) && pieces_match(pieces, text@)
                ==> r,
        forall|pieces: Seq<Piece>, other: Seq<char>|
            #[trigger] anchored_regex(pieces) == regex_source(*re) && text::eq_ignore_case(
                text@,
                other,
            ) ==> r == #[trigger] regex_matches(regex_source(*re), other),
{
    re.is_match(text)
}

// ── Globs ───────────────────────────────────────────────────────────────────

/// What one character of a glob stands for.
pub open spec fn glob_piece(c: char) -> Piece {
    if c == '*' {
        Piece::AnyRun
    } else if c == '?' {
        Piece::AnyChar
    } else {
        Piece::Literal(c)
    }
}

/// What a glob stands for: `*` any run of characters, `?` any one, every other
/// character itself.
pub open spec fn glob_pieces(glob: Seq<char>) -> Seq<Piece> {
    glob.map_values(|c: char| glob_piece(c))
}

/// The regular expression of a glob.
pub open spec fn glob_regex(glob: Seq<char>) -> Seq<char> {
    anchored_regex(glob_pieces(glob))
}

/// Whether a glob compiles.
pub open spec fn compiles(glob: Seq<char>) -> bool {
    regex_accepts(usize::BITS as nat, glob_regex(glob))
}

/// Whether a glob matches the whole of `text`, letter case aside.
///
/// For ASCII this is what its pieces describe. Beyond ASCII, where letter case
/// follows Unicode's folding tables, there may be more: what the regular
/// expression matches in the text with small ASCII letters.
pub open spec fn glob_matches(glob: Seq<char>, text: Seq<char>) -> bool {
    pieces_match(glob_pieces(glob), text) || (!(vstd::utf8::is_ascii_chars(glob)
        && vstd::utf8::is_ascii_chars(text)) && regex_matches(
        glob_regex(glob),
        text::lowered(text),
    ))
}

/// A compiled glob.
pub struct Glob {
    regex: Regex,
    glob: Ghost<Seq<char>>,
}

impl View for Glob {
    type V = Seq<char>;

    closed spec fn view(&self) -> Seq<char> {
        self.glob@
    }
}

impl Glob {
    #[verifier::type_invariant]
    spec fn compiled_from_its_text(self) -> bool {
        regex_source(self.regex) == glob_regex(self.glob@)
    }

    /// Whether the glob matches the whole of `text`, letter case aside.
    pub fn is_match(&self, text: &str) -> (r: bool)
        ensures
            r == glob_matches(self@, text@),
    {
        proof {
            use_type_invariant(self);
            let pieces = glob_pieces(self@);
            assert(anchored_regex(pieces) == regex_source(self.regex));
            text::lemma_lowered_twice(text@);
            if vstd::utf8::is_ascii_chars(self@) {
                assert forall|i: int| 0 <= i < pieces.len() implies match #[trigger] pieces[i] {
                    Piece::Literal(c) => (c as u32) < 128,
                    _ => true,
                } by {
                    assert(pieces[i] == glob_piece(self@[i]));
                }
            }
        }
        regex_is_match(&self.regex, text)
    }
}

/// Compiles a case-insensitive glob (`*`, `?`) that has to match a whole text.
pub fn compile_glob(glob: &str) -> (r: Option<Glob>)
    ensures
        r is Some <==> compiles(glob@),
        r is Some ==> r->Some_0@ == glob@,
{
    let chars: Vec<char> = chars_of(glob);
    compile_glob_chars(&chars)
}

/// As [`compile_glob`], on the characters of the glob.
pub(crate) fn compile_glob_chars(glob: &[char]) -> (r: Option<Glob>)
    ensures
        r is Some <==> compiles(glob@),
        r is Some ==> r->Some_0@ == glob@,
{
    let start: [char; 5] = ['(', '?', 'i', ')', '^'];
    assert(start@ == seq!['(', '?', 'i', ')', '^']);
    let mut pattern: Vec<char> = Vec::new();
    push_text(&mut pattern, &start);
    let mut i: usize = 0;
    assert(pattern@ == start@ + pieces_regex(glob_pieces(glob@.take(0))));
    while i < glob.len()
        invariant
            i <= glob.len(),
            pattern@ == start@ + pieces_regex(glob_pieces(glob@.take(i as int))),
        decreases glob.len() - i,
    {
        let c: char = glob[i];
        let ghost before = pattern@;
        proof {
            let now = glob_pieces(glob@.take(i as int));
            let next = glob_pieces(glob@.take(i + 1));
            assert(next.drop_last() == now);
            assert(next.last() == glob_piece(c));
            assert(pieces_regex(next) == pieces_regex(now) + piece_regex(glob_piece(c)));
        }
        if c == '*' {
            pattern.push('.');
            pattern.push('*');
            assert(pattern@ == before + piece_regex(Piece::AnyRun));
        } else if c == '?' {
            pattern.push('.');
            assert(pattern@ == before + piece_regex(Piece::AnyChar));
        } else {
            let one: [char; 1] = [c];
            assert(one@ == seq![c]);
            let literal: String = regex::escape(string_of(&one).as_str());
            push_str(&mut pattern, literal.as_str());
            assert(pattern@ == before + piece_regex(Piece::Literal(c)));
        }
        i = i + 1;
    }
    pattern.push('$');
    assert(glob@.take(glob@.len() as int) == glob@);
    assert(pattern@ == glob_regex(glob@));
    match compile_regex(string_of(&pattern).as_str()) {
        Some(regex) => Some(Glob { regex, glob: Ghost(glob@) }),
        None => None,
    }
}

/// Compiles a glob and appends it to `out`, unless the `regex` crate rejects it.
pub(crate) fn push_compiled(out: &mut Vec<Glob>, glob: &[char])
    ensures
        globs_of(final(out)@) == if compiles(glob@) {
            globs_of(old(out)@).push(glob@)
        } else {
            globs_of(old(out)@)
        },
{
    match compile_glob_chars(glob) {
        Some(g) => {
            out.push(g);
            assert(globs_of(out@) == globs_of(old(out)@).push(glob@));
        },
        None => {},
    }
}

/// The texts of a sequence of compiled globs.
pub open spec fn globs_of(list: Seq<Glob>) -> Seq<Seq<char>> {
    list.map_values(|g: Glob| g@)
}

/// Those of `globs` that compile, in order.
pub open spec fn accepted(globs: Seq<Seq<char>>) -> Seq<Seq<char>>
    decreases globs.len(),
{
    if globs.len() == 0 {
        Seq::empty()
    } else {
        let front = accepted(globs.drop_last());
        if compiles(globs.last()) {
            front.push(globs.last())
        } else {
            front
        }
    }
}

// ── Laws ────────────────────────────────────────────────────────────────────

/// Whether a glob holds no wildcard.
pub open spec fn is_literal(glob: Seq<char>) -> bool {
    !glob.contains('*') && !glob.contains('?')
}

/// A glob without wildcards matches exactly the texts that differ from it in
/// letter case at most.
pub proof fn law_literal_glob_ignores_case(glob: Seq<char>, text: Seq<char>)
    requires
        vstd::utf8::is_ascii_chars(glob),
        vstd::utf8::is_ascii_chars(text),
        is_literal(glob),
    ensures
        glob_matches(glob, text) == text::eq_ignore_case(glob, text),
{
    lemma_literal_pieces(glob, text);
}

/// A glob without wildcards matches every text that differs from it in the case of
/// ASCII letters at most, whatever its other characters are.
pub proof fn law_literal_glob_matches_its_text(glob: Seq<char>, text: Seq<char>)
    requires
        is_literal(glob),
        text::eq_ignore_case(glob, text),
    ensures
        glob_matches(glob, text),
{
    lemma_literal_pieces(glob, text);
}

proof fn lemma_literal_pieces(glob: Seq<char>, text: Seq<char>)
    requires
        is_literal(glob),
    ensures
        pieces_match(glob_pieces(glob), text) == text::eq_ignore_case(glob, text),
    decreases glob.len(),
{
    let pieces = glob_pieces(glob);
    if glob.len() == 0 {
        assert(text::lowered(glob).len() == 0 && text::lowered(text).len() == text.len());
        if text.len() == 0 {
            assert(text::lowered(glob) == text::lowered(text));
        }
    } else {
        assert(glob.contains(glob[0]));
        assert(pieces[0] == Piece::Literal(glob[0]));
        assert(text::lowered(glob).len() == glob.len() && text::lowered(text).len() == text.len());
        assert(text::lowered(glob)[0] == text::ascii_lower(glob[0]));
        if text.len() > 0 {
            let g = glob.drop_first();
            let t = text.drop_first();
            assert(pieces.drop_first() == glob_pieces(g));
            assert forall|c: char| g.contains(c) implies glob.contains(c) by {
                let i = choose|i: int| 0 <= i < g.len() && g[i] == c;
                assert(glob[i + 1] == c);
            }
            lemma_literal_pieces(g, t);
            assert(text::lowered(text)[0] == text::ascii_lower(text[0]));
            assert(text::lowered(glob).drop_first() == text::lowered(g));
            assert(text::lowered(text).drop_first() == text::lowered(t));
            if text::ascii_lower(text[0]) == text::ascii_lower(glob[0]) && text::lowered(g)
                == text::lowered(t) {
                assert(text::lowered(glob) == seq![text::ascii_lower(glob[0])] + text::lowered(g));
                assert(text::lowered(text) == seq![text::ascii_lower(text[0])] + text::lowered(t));
            }
        }
    }
}

/// The case of the ASCII letters of a text makes no difference to a glob.
pub proof fn law_globs_ignore_letter_case(glob: Seq<char>, a: Seq<char>, b: Seq<char>)
    requires
        text::eq_ignore_case(a, b),
    ensures
        glob_matches(glob, a) == glob_matches(glob, b),
{
    text::lemma_same_but_for_case(a, b);
    lemma_pieces_ignore_case(glob_pieces(glob), a, b);
}

proof fn lemma_pieces_ignore_case(pieces: Seq<Piece>, a: Seq<char>, b: Seq<char>)
    requires
        text::eq_ignore_case(a, b),
    ensures
        pieces_match(pieces, a) == pieces_match(pieces, b),
    decreases pieces.len(), a.len(),
{
    text::lemma_same_but_for_case(a, b);
    if pieces.len() > 0 {
        let rest = pieces.drop_first();
        if a.len() > 0 {
            let (x, y) = (a.drop_first(), b.drop_first());
            assert(text::lowered(x) == text::lowered(a).drop_first());
            assert(text::lowered(y) == text::lowered(b).drop_first());
            assert(text::ascii_lower(a[0]) == text::ascii_lower(b[0]));
            lemma_pieces_ignore_case(rest, x, y);
            if pieces[0] is AnyRun {
                lemma_pieces_ignore_case(pieces, x, y);
            }
        }
        lemma_pieces_ignore_case(rest, a, b);
    }
}

/// A glob `prefix*` matches every line of ASCII text that begins with the
/// prefix, letter case aside, and no other.
pub proof fn law_prefix_glob(prefix: Seq<char>, text: Seq<char>)
    requires
        vstd::utf8::is_ascii_chars(prefix),
        vstd::utf8::is_ascii_chars(text),
        is_literal(prefix),
        !text.contains('\n'),
    ensures
        glob_matches(prefix.push('*'), text) == (prefix.len() <= text.len() && text::eq_ignore_case(
            prefix,
            text.take(prefix.len() as int),
        )),
{
    assert(vstd::utf8::is_ascii_chars(prefix.push('*')));
    lemma_prefix_pieces(prefix, text);
}

proof fn lemma_run_matches_line(text: Seq<char>)
    requires
        !text.contains('\n'),
    ensures
        pieces_match(seq![Piece::AnyRun], text),
    decreases text.len(),
{
    let pieces = seq![Piece::AnyRun];
    assert(pieces.drop_first() == Seq::<Piece>::empty());
    assert(pieces_match(pieces.drop_first(), text) == (text.len() == 0));
    if text.len() > 0 {
        let t = text.drop_first();
        assert(text.contains(text[0]));
        assert forall|c: char| t.contains(c) implies text.contains(c) by {
            let i = choose|i: int| 0 <= i < t.len() && t[i] == c;
            assert(text[i + 1] == c);
        }
        lemma_run_matches_line(t);
    }
}

proof fn lemma_prefix_pieces(prefix: Seq<char>, text: Seq<char>)
    requires
        is_literal(prefix),
        !text.contains('\n'),
    ensures
        pieces_match(glob_pieces(prefix.push('*')), text) == (prefix.len() <= text.len()
            && text::eq_ignore_case(prefix, text.take(prefix.len() as int))),
    decreases prefix.len(),
{
    let glob = prefix.push('*');
    let pieces = glob_pieces(glob);
    if prefix.len() == 0 {
        assert(pieces == seq![Piece::AnyRun]);
        lemma_run_matches_line(text);
        assert(text::lowered(prefix) == text::lowered(text.take(0)));
    } else {
        assert(prefix.contains(prefix[0]));
        assert(glob[0] == prefix[0]);
        assert(pieces[0] == Piece::Literal(prefix[0]));
        if text.len() > 0 {
            let p = prefix.drop_first();
            let t = text.drop_first();
            assert(glob.drop_first() == p.push('*'));
            assert(pieces.drop_first() == glob_pieces(p.push('*')));
            assert forall|c: char| p.contains(c) implies prefix.contains(c) by {
                let i = choose|i: int| 0 <= i < p.len() && p[i] == c;
                assert(prefix[i + 1] == c);
            }
            assert forall|c: char| t.contains(c) implies text.contains(c) by {
                let i = choose|i: int| 0 <= i < t.len() && t[i] == c;
                assert(text[i + 1] == c);
            }
            lemma_prefix_pieces(p, t);
            if prefix.len() <= text.len() {
                let head = text.take(prefix.len() as int);
                assert(head.drop_first() == t.take(p.len() as int));
                assert(text::lowered(prefix) == seq![text::ascii_lower(prefix[0])] + text::lowered(
                    p,
                ));
                assert(text::lowered(head) == seq![text::ascii_lower(head[0])] + text::lowered(
                    head.drop_first(),
                ));
                assert(text::lowered(prefix)[0] == text::ascii_lower(prefix[0]));
                assert(text::lowered(head)[0] == text::ascii_lower(text[0]));
                assert(text::lowered(prefix).drop_first() == text::lowered(p));
                assert(text::lowered(head).drop_first() == text::lowered(head.drop_first()));
            }
        }
    }
}

/// Globs that compile are found one list after the other.
pub proof fn lemma_accepted_of_joined(a: Seq<Seq<char>>, b: Seq<Seq<char>>)
    ensures
        accepted(a + b) == accepted(a) + accepted(b),
    decreases b.len(),
{
    if b.len() == 0 {
        assert(a + b == a);
        assert(accepted(a) + accepted(b) == accepted(a));
    } else {
        lemma_accepted_of_joined(a, b.drop_last());
        assert((a + b).drop_last() == a + b.drop_last());
        assert((a + b).last() == b.last());
        assert(accepted(a + b) == accepted(a) + accepted(b));
    }
}

/// A glob of two parts matches exactly the texts that can be cut in two so that
/// each part matches its half.
pub proof fn law_glob_parts_match_parts(g: Seq<char>, h: Seq<char>, text: Seq<char>)
    requires
        vstd::utf8::is_ascii_chars(g),
        vstd::utf8::is_ascii_chars(h),
        vstd::utf8::is_ascii_chars(text),
    ensures
        glob_matches(g + h, text) <==> exists|k: int|
            0 <= k <= text.len() && glob_matches(g, #[trigger] text.take(k)) && glob_matches(
                h,
                text.skip(k),
            ),
{
    assert(vstd::utf8::is_ascii_chars(g + h));
    assert(glob_pieces(g + h) == glob_pieces(g) + glob_pieces(h));
    lemma_pieces_of_joined(glob_pieces(g), glob_pieces(h), text);
    assert forall|k: int| 0 <= k <= text.len() implies vstd::utf8::is_ascii_chars(
        #[trigger] text.take(k),
    ) && vstd::utf8::is_ascii_chars(text.skip(k)) by {}
    if glob_matches(g + h, text) {
        let k = choose|k: int|
            0 <= k <= text.len() && pieces_match(glob_pieces(g), #[trigger] text.take(k))
                && pieces_match(glob_pieces(h), text.skip(k));
        assert(glob_matches(g, text.take(k)) && glob_matches(h, text.skip(k)));
    }
}

proof fn lemma_pieces_of_joined(p: Seq<Piece>, q: Seq<Piece>, text: Seq<char>)
    ensures
        pieces_match(p + q, text) <==> exists|k: int|
            0 <= k <= text.len() && pieces_match(p, #[trigger] text.take(k)) && pieces_match(
                q,
                text.skip(k),
            ),
    decreases p.len(), text.len(),
{
    if p.len() == 0 {
        assert(p + q == q);
        assert(text.skip(0) == text);
        assert(text.take(0).len() == 0);
    } else {
        let rest = p.drop_first();
        assert((p + q).drop_first() == rest + q);
        assert((p + q)[0] == p[0]);
        if p[0] is AnyRun {
            lemma_pieces_of_joined(rest, q, text);
        }
        if text.len() > 0 {
            let t = text.drop_first();
            lemma_pieces_of_joined(rest, q, t);
            if p[0] is AnyRun {
                lemma_pieces_of_joined(p, q, t);
            }
            assert forall|k: int| 0 <= k <= t.len() implies #[trigger] t.take(k) == text.take(
                k + 1,
            ).drop_first() && t.skip(k) == text.skip(k + 1) by {}
        }
        if pieces_match(p + q, text) {
            if p[0] is AnyRun && pieces_match(rest + q, text) {
                let k = choose|k: int|
                    0 <= k <= text.len() && pieces_match(rest, #[trigger] text.take(k))
                        && pieces_match(q, text.skip(k));
                assert(pieces_match(p, text.take(k)));
            } else {
                let t = text.drop_first();
                let first = if p[0] is AnyRun {
                    p
                } else {
                    rest
                };
                let k = choose|k: int|
                    0 <= k <= t.len() && pieces_match(first, #[trigger] t.take(k)) && pieces_match(
                        q,
                        t.skip(k),
                    );
                assert(text.take(k + 1)[0] == text[0]);
                assert(pieces_match(p, text.take(k + 1)));
            }
        }
        if exists|k: int|
            0 <= k <= text.len() && pieces_match(p, #[trigger] text.take(k)) && pieces_match(
                q,
                text.skip(k),
            ) {
            let k = choose|k: int|
                0 <= k <= text.len() && pieces_match(p, #[trigger] text.take(k)) && pieces_match(
                    q,
                    text.skip(k),
                );
            if p[0] is AnyRun && pieces_match(rest, text.take(k)) {
            } else {
                let t = text.drop_first();
                assert(k > 0);
                assert(text.take(k)[0] == text[0]);
                assert(t.take(k - 1) == text.take(k).drop_first());
                assert(t.skip(k - 1) == text.skip(k));
            }
        }
    }
}

/// The glob `*` matches every line, and only lines.
pub proof fn law_star_matches_any_line(text: Seq<char>)
    requires
        vstd::utf8::is_ascii_chars(text),
    ensures
        glob_matches(seq!['*'], text) <==> !text.contains('\n'),
    decreases text.len(),
{
    let g = seq!['*'];
    assert(glob_pieces(g) == seq![Piece::AnyRun]);
    assert(vstd::utf8::is_ascii_chars(g));
    if !text.contains('\n') {
        lemma_run_matches_line(text);
    } else {
        lemma_run_needs_line(text);
    }
}

proof fn lemma_run_needs_line(text: Seq<char>)
    requires
        text.contains('\n'),
    ensures
        !pieces_match(seq![Piece::AnyRun], text),
    decreases text.len(),
{
    let pieces = seq![Piece::AnyRun];
    assert(pieces.drop_first() == Seq::<Piece>::empty());
    assert(pieces_match(pieces.drop_first(), text) == (text.len() == 0));
    if text[0] != '\n' {
        let i = choose|i: int| 0 <= i < text.len() && text[i] == '\n';
        assert(text.drop_first()[i - 1] == '\n');
        lemma_run_needs_line(text.drop_first());
    }
}

/// The glob `?` matches every single character but a line feed.
pub proof fn law_question_mark_matches_one_character(text: Seq<char>)
    requires
        vstd::utf8::is_ascii_chars(text),
    ensures
        glob_matches(seq!['?'], text) <==> text.len() == 1 && text[0] != '\n',
{
    let g = seq!['?'];
    reveal_with_fuel(pieces_match, 2);
    assert(glob_pieces(g) == seq![Piece::AnyChar]);
    assert(glob_pieces(g).drop_first() == Seq::<Piece>::empty());
    assert(vstd::utf8::is_ascii_chars(g));
    if text.len() > 0 {
        assert(pieces_match(glob_pieces(g).drop_first(), text.drop_first()) == (
        text.drop_first().len() == 0));
    }
}

/// A glob `*suffix` matches every line of ASCII text that ends with the suffix,
/// letter case aside, and no other.
pub proof fn law_suffix_glob(suffix: Seq<char>, text: Seq<char>)
    requires
        vstd::utf8::is_ascii_chars(suffix),
        vstd::utf8::is_ascii_chars(text),
        is_literal(suffix),
        !text.contains('\n'),
    ensures
        glob_matches(seq!['*'] + suffix, text) <==> suffix.len() <= text.len()
            && text::eq_ignore_case(suffix, text.skip(text.len() - suffix.len())),
{
    let g = seq!['*'];
    assert(vstd::utf8::is_ascii_chars(g));
    law_glob_parts_match_parts(g, suffix, text);
    let n = text.len() - suffix.len();
    if glob_matches(g + suffix, text) {
        let k = choose|k: int|
            0 <= k <= text.len() && glob_matches(g, #[trigger] text.take(k)) && glob_matches(
                suffix,
                text.skip(k),
            );
        assert(vstd::utf8::is_ascii_chars(text.skip(k)));
        law_literal_glob_ignores_case(suffix, text.skip(k));
        text::lemma_same_but_for_case(suffix, text.skip(k));
        assert(k == n);
    }
    if suffix.len() <= text.len() && text::eq_ignore_case(suffix, text.skip(n)) {
        assert(vstd::utf8::is_ascii_chars(text.skip(n)));
        assert(vstd::utf8::is_ascii_chars(text.take(n)));
        law_literal_glob_ignores_case(suffix, text.skip(n));
        law_star_matches_any_line(text.take(n));
        assert(!text.take(n).contains('\n')) by {
            if text.take(n).contains('\n') {
                let i = choose|i: int| 0 <= i < n && text.take(n)[i] == '\n';
                assert(text[i] == '\n');
            }
        }
        assert(glob_matches(g, text.take(n)) && glob_matches(suffix, text.skip(n)));
    }
}

/// A glob stands for its characters one by one: `*` for any run, `?` for any one
/// character, every other character for itself. It compiles where the regular
/// expression of those pieces does, whatever its length.
pub proof fn law_glob_stands_for_its_characters(glob: Seq<char>, i: int)
    requires
        0 <= i < glob.len(),
    ensures
        glob_pieces(glob).len() == glob.len(),
        glob[i] == '*' ==> glob_pieces(glob)[i] == Piece::AnyRun,
        glob[i] == '?' ==> glob_pieces(glob)[i] == Piece::AnyChar,
        glob[i] != '*' && glob[i] != '?' ==> glob_pieces(glob)[i] == Piece::Literal(glob[i]),
        compiles(glob) <==> regex_accepts(usize::BITS as nat, anchored_regex(glob_pieces(glob))),
{
}

/// Of a list of globs those are kept that compile, in their order.
pub proof fn law_globs_that_compile_are_kept(globs: Seq<Seq<char>>)
    ensures
        accepted(globs) == globs.filter(|g: Seq<char>| compiles(g)),
    decreases globs.len(),
{
    reveal(Seq::filter);
    if globs.len() > 0 {
        law_globs_that_compile_are_kept(globs.drop_last());
    } else {
        assert(accepted(globs) =~= globs.filter(|g: Seq<char>| compiles(g)));
    }
}

} // verus!
