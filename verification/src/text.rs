//! Text as sequences of characters: lines, tokens, substring search,
//! placeholder substitution and decimal literals.
//!
//! Every executable function here works on `[char]` and is specified over
//! `Seq<char>`.

use crate::source::{COMMENT_MARK, PLACEHOLDER};
use vstd::prelude::*;
use vstd::slice::{slice_subrange, slice_to_vec};

verus! {

/// Whether `c` separates tokens: the characters with the Unicode property
/// `White_Space`.
pub open spec fn is_space(c: char) -> bool {
    let u = c as u32;
    ||| 0x09 <= u <= 0x0d
    ||| u == 0x20
    ||| u == 0x85
    ||| u == 0xa0
    ||| u == 0x1680
    ||| 0x2000 <= u <= 0x200a
    ||| u == 0x2028
    ||| u == 0x2029
    ||| u == 0x202f
    ||| u == 0x205f
    ||| u == 0x3000
}

/// The three kinds of character runs that the scanner walks over.
#[derive(Clone, Copy, Debug, PartialEq, Eq)]
pub enum CharClass {
    /// Token separators.
    Space,
    /// Everything that is not a separator.
    Word,
    /// Everything but the line feed.
    Line,
}

impl CharClass {
    /// Whether `c` belongs to the class.
    pub open spec fn has(self, c: char) -> bool {
        match self {
            CharClass::Space => is_space(c),
            CharClass::Word => !is_space(c),
            CharClass::Line => c != '\n',
        }
    }

    /// Whether `c` belongs to the class.
    pub fn holds(self, c: char) -> (b: bool)
        ensures
            b == self.has(c),
    {
        match self {
            CharClass::Space => space(c),
            CharClass::Word => !space(c),
            CharClass::Line => c != '\n',
        }
    }
}

/// Whether `c` separates tokens.
pub fn space(c: char) -> (b: bool)
    ensures
        b == is_space(c),
{
    let u: u32 = c as u32;
    (0x09 <= u && u <= 0x0d) || u == 0x20 || u == 0x85 || u == 0xa0 || u == 0x1680 || (0x2000 <= u
        && u <= 0x200a) || u == 0x2028 || u == 0x2029 || u == 0x202f || u == 0x205f || u == 0x3000
}

/// The views of a vector of texts.
pub open spec fn views(v: Seq<Vec<char>>) -> Seq<Seq<char>> {
    v.map_values(|t: Vec<char>| t@)
}

/// Length of the longest prefix of `s` that lies in `class`.
pub open spec fn run_len(s: Seq<char>, class: CharClass) -> nat
    decreases s.len(),
{
    if s.len() > 0 && class.has(s[0]) {
        1 + run_len(s.drop_first(), class)
    } else {
        0
    }
}

/// `run_len` is a prefix length: all before it is in the class, and what
/// stands at it, if anything, is not.
pub proof fn lemma_run_len(s: Seq<char>, class: CharClass)
    ensures
        run_len(s, class) <= s.len(),
        forall|k: int| 0 <= k < run_len(s, class) ==> class.has(#[trigger] s[k]),
        run_len(s, class) < s.len() ==> !class.has(s[run_len(s, class) as int]),
    decreases s.len(),
{
    if s.len() > 0 && class.has(s[0]) {
        let t = s.drop_first();
        lemma_run_len(t, class);
        assert forall|k: int| 0 <= k < run_len(s, class) implies class.has(#[trigger] s[k]) by {
            if k > 0 {
                assert(s[k] == t[k - 1]);
            }
        }
        if run_len(s, class) < s.len() {
            assert(s[run_len(s, class) as int] == t[run_len(t, class) as int]);
        }
    }
}

/// The only prefix length with the two properties of `lemma_run_len` is
/// `run_len`.
pub proof fn lemma_run_len_unique(s: Seq<char>, class: CharClass, n: nat)
    requires
        n <= s.len(),
        forall|k: int| 0 <= k < n ==> class.has(#[trigger] s[k]),
        n < s.len() ==> !class.has(s[n as int]),
    ensures
        run_len(s, class) == n,
    decreases s.len(),
{
    if n > 0 {
        assert(class.has(s[0]));
        let t = s.drop_first();
        assert forall|k: int| 0 <= k < n - 1 implies class.has(#[trigger] t[k]) by {
            assert(t[k] == s[k + 1]);
        }
        if n - 1 < t.len() {
            assert(t[n - 1] == s[n as int]);
        }
        lemma_run_len_unique(t, class, (n - 1) as nat);
    }
}

/// Walks from `from` over the characters of `class` and returns where the
/// run ends.
pub fn scan(text: &[char], from: usize, class: CharClass) -> (to: usize)
    requires
        from <= text@.len(),
    ensures
        to == from + run_len(text@.skip(from as int), class),
        from <= to <= text@.len(),
{
    let mut i: usize = from;
    while i < text.len() && class.holds(text[i])
        invariant
            from <= i <= text@.len(),
            forall|k: int| from <= k < i ==> class.has(#[trigger] text@[k]),
        decreases text@.len() - i,
    {
        i += 1;
    }
    proof {
        let rest = text@.skip(from as int);
        assert forall|k: int| 0 <= k < i - from implies class.has(#[trigger] rest[k]) by {
            assert(rest[k] == text@[from + k]);
        }
        lemma_run_len_unique(rest, class, (i - from) as nat);
    }
    i
}

/// A copy of the characters `from..to` of `text`.
pub fn copy_range(text: &[char], from: usize, to: usize) -> (out: Vec<char>)
    requires
        from <= to <= text@.len(),
    ensures
        out@ == text@.subrange(from as int, to as int),
{
    slice_to_vec(slice_subrange(text, from, to))
}

/// The lines of a text: what stands between line feeds. A line feed at the
/// very end closes the last line and opens no new one.
pub open spec fn lines_of(s: Seq<char>) -> Seq<Seq<char>>
    decreases s.len(),
{
    let n = run_len(s, CharClass::Line) as int;
    if s.len() == 0 {
        Seq::empty()
    } else if n >= s.len() {
        seq![s]
    } else {
        seq![s.take(n)] + lines_of(s.skip(n + 1))
    }
}

/// Splits a text into its lines.
pub fn split_lines(text: &[char]) -> (lines: Vec<Vec<char>>)
    ensures
        views(lines@) == lines_of(text@),
{
    let mut lines: Vec<Vec<char>> = Vec::new();
    let mut start: usize = 0;
    assert(text@.skip(0) == text@);
    assert(views(lines@) + lines_of(text@) == lines_of(text@));
    while start < text.len()
        invariant
            start <= text@.len(),
            lines_of(text@) == views(lines@) + lines_of(text@.skip(start as int)),
        decreases text@.len() - start,
    {
        let end: usize = scan(text, start, CharClass::Line);
        let line = copy_range(text, start, end);
        let ghost rest = text@.skip(start as int);
        let ghost before = views(lines@);
        lines.push(line);
        let next: usize = if end < text.len() {
            end + 1
        } else {
            end
        };
        proof {
            assert(views(lines@) == before.push(line@));
            assert(line@ == rest.take(end - start));
            if end < text.len() {
                assert(rest.skip(end - start + 1) == text@.skip(next as int));
                assert(before + (seq![line@] + lines_of(text@.skip(next as int))) == before.push(
                    line@,
                ) + lines_of(text@.skip(next as int)));
            } else {
                assert(rest.take(end - start) == rest);
                assert(lines_of(text@.skip(next as int)) == Seq::<Seq<char>>::empty());
                assert(before + seq![line@] == before.push(line@));
                assert(before.push(line@) + Seq::<Seq<char>>::empty() == before.push(line@));
            }
        }
        start = next;
    }
    assert(views(lines@) + Seq::<Seq<char>>::empty() == views(lines@));
    lines
}

/// The tokens of a line: its maximal runs of characters that are not
/// separators, in order.
pub open spec fn tokens_of(s: Seq<char>) -> Seq<Seq<char>>
    decreases s.len(),
{
    let rest = s.skip(run_len(s, CharClass::Space) as int);
    let n = run_len(rest, CharClass::Word) as int;
    if n == 0 {
        Seq::empty()
    } else {
        proof {
            lemma_run_len(s, CharClass::Space);
            lemma_run_len(rest, CharClass::Word);
        }
        seq![rest.take(n)] + tokens_of(rest.skip(n))
    }
}

/// Splits a line into its tokens.
pub fn split_tokens(text: &[char]) -> (toks: Vec<Vec<char>>)
    ensures
        views(toks@) == tokens_of(text@),
{
    let mut toks: Vec<Vec<char>> = Vec::new();
    let mut at: usize = 0;
    assert(text@.skip(0) == text@);
    assert(views(toks@) + tokens_of(text@) == tokens_of(text@));
    loop
        invariant
            at <= text@.len(),
            tokens_of(text@) == views(toks@) + tokens_of(text@.skip(at as int)),
        ensures
            views(toks@) == tokens_of(text@),
        decreases text@.len() - at,
    {
        let start: usize = scan(text, at, CharClass::Space);
        let end: usize = scan(text, start, CharClass::Word);
        let ghost tail = text@.skip(at as int);
        let ghost rest = tail.skip(start - at);
        assert(rest == text@.skip(start as int));
        if end == start {
            assert(tokens_of(tail) == Seq::<Seq<char>>::empty());
            assert(views(toks@) + Seq::<Seq<char>>::empty() == views(toks@));
            break ;
        }
        let tok = copy_range(text, start, end);
        let ghost before = views(toks@);
        toks.push(tok);
        proof {
            assert(views(toks@) == before.push(tok@));
            assert(tok@ == rest.take(end - start));
            assert(rest.skip(end - start) == text@.skip(end as int));
            assert(before + (seq![tok@] + tokens_of(text@.skip(end as int))) == before.push(tok@)
                + tokens_of(text@.skip(end as int)));
        }
        at = end;
    }
    toks
}

/// Every token holds a character, and no separator.
pub proof fn lemma_tokens_are_words(s: Seq<char>)
    ensures
        forall|i: int|
            0 <= i < tokens_of(s).len() ==> (#[trigger] tokens_of(s)[i]).len() > 0 && forall|
                j: int,
            | 0 <= j < tokens_of(s)[i].len() ==> !is_space(#[trigger] tokens_of(s)[i][j]),
    decreases s.len(),
{
    let rest = s.skip(run_len(s, CharClass::Space) as int);
    let n = run_len(rest, CharClass::Word) as int;
    lemma_run_len(s, CharClass::Space);
    lemma_run_len(rest, CharClass::Word);
    if n > 0 {
        let first = rest.take(n);
        let tail = tokens_of(rest.skip(n));
        lemma_tokens_are_words(rest.skip(n));
        assert forall|i: int| 0 <= i < tokens_of(s).len() implies (#[trigger] tokens_of(s)[i]).len()
            > 0 && forall|j: int|
            0 <= j < tokens_of(s)[i].len() ==> !is_space(#[trigger] tokens_of(s)[i][j]) by {
            if i == 0 {
                assert(tokens_of(s)[0] == first);
                assert forall|j: int| 0 <= j < first.len() implies !is_space(
                    #[trigger] first[j],
                ) by {
                    assert(first[j] == rest[j]);
                    assert(CharClass::Word.has(rest[j]));
                }
            } else {
                assert(tokens_of(s)[i] == tail[i - 1]);
            }
        }
    }
}

/// No line holds a line feed.
pub proof fn lemma_lines_hold_no_line_feed(s: Seq<char>)
    ensures
        forall|i: int| 0 <= i < lines_of(s).len() ==> !(#[trigger] lines_of(s)[i]).contains('\n'),
    decreases s.len(),
{
    let n = run_len(s, CharClass::Line) as int;
    lemma_run_len(s, CharClass::Line);
    if s.len() > 0 {
        let first = s.take(n);
        assert forall|j: int| 0 <= j < first.len() implies first[j] != '\n' by {
            assert(first[j] == s[j]);
            assert(CharClass::Line.has(s[j]));
        }
        if n >= s.len() {
            assert(first == s);
        } else {
            let tail = lines_of(s.skip(n + 1));
            lemma_lines_hold_no_line_feed(s.skip(n + 1));
            assert forall|i: int| 0 <= i < lines_of(s).len() implies !(#[trigger] lines_of(
                s,
            )[i]).contains('\n') by {
                if i == 0 {
                    assert(lines_of(s)[0] == first);
                } else {
                    assert(lines_of(s)[i] == tail[i - 1]);
                }
            }
        }
    }
}

/// Whether a token opens a comment.
pub open spec fn is_comment(tok: Seq<char>) -> bool {
    tok.len() > 0 && tok[0] == COMMENT_MARK
}

/// The tokens that stand before the first comment token.
pub open spec fn before_comment(toks: Seq<Seq<char>>) -> Seq<Seq<char>>
    decreases toks.len(),
{
    if toks.len() > 0 && !is_comment(toks[0]) {
        seq![toks[0]] + before_comment(toks.drop_first())
    } else {
        Seq::empty()
    }
}

/// The tokens of a code line: its tokens up to a trailing comment.
pub open spec fn code_tokens_of(s: Seq<char>) -> Seq<Seq<char>> {
    before_comment(tokens_of(s))
}

/// `before_comment` is the prefix that ends at the first comment token.
pub proof fn lemma_before_comment(toks: Seq<Seq<char>>, n: int)
    requires
        0 <= n <= toks.len(),
        forall|k: int| 0 <= k < n ==> !is_comment(#[trigger] toks[k]),
        n < toks.len() ==> is_comment(toks[n]),
    ensures
        before_comment(toks) == toks.take(n),
    decreases toks.len(),
{
    if n > 0 {
        assert(!is_comment(toks[0]));
        let t = toks.drop_first();
        assert forall|k: int| 0 <= k < n - 1 implies !is_comment(#[trigger] t[k]) by {
            assert(t[k] == toks[k + 1]);
        }
        if n - 1 < t.len() {
            assert(t[n - 1] == toks[n]);
        }
        lemma_before_comment(t, n - 1);
        assert(seq![toks[0]] + t.take(n - 1) == toks.take(n));
    } else {
        assert(toks.take(0) == Seq::<Seq<char>>::empty());
    }
}

/// Splits a code line into its tokens, up to a trailing comment.
pub fn code_tokens(text: &[char]) -> (toks: Vec<Vec<char>>)
    ensures
        views(toks@) == code_tokens_of(text@),
{
    let mut toks: Vec<Vec<char>> = split_tokens(text);
    let ghost all = views(toks@);
    let mut n: usize = 0;
    while n < toks.len() && !(toks[n].len() > 0 && toks[n][0] == COMMENT_MARK)
        invariant
            n <= toks@.len(),
            all == views(toks@),
            forall|k: int| 0 <= k < n ==> !is_comment(#[trigger] all[k]),
        decreases toks@.len() - n,
    {
        n += 1;
    }
    proof {
        lemma_before_comment(all, n as int);
    }
    toks.truncate(n);
    assert(views(toks@) == all.take(n as int));
    toks
}

/// Whether `needle` stands in `hay` at position `i`.
pub open spec fn occurs_at(hay: Seq<char>, needle: Seq<char>, i: int) -> bool {
    0 <= i && i + needle.len() <= hay.len() && hay.subrange(i, i + needle.len()) == needle
}

/// Whether `needle` is a substring of `hay`.
pub open spec fn contains_text(hay: Seq<char>, needle: Seq<char>) -> bool {
    exists|i: int| occurs_at(hay, needle, i)
}

/// Whether `needle` stands in `hay` at position `at`.
pub fn matches_at(hay: &[char], needle: &[char], at: usize) -> (b: bool)
    requires
        at + needle@.len() <= hay@.len(),
    ensures
        b == occurs_at(hay@, needle@, at as int),
{
    let end: usize = hay.len();
    let mut k: usize = 0;
    while k < needle.len()
        invariant
            k <= needle@.len(),
            at + needle@.len() <= hay@.len() == end,
            forall|j: int| 0 <= j < k ==> hay@[at + j] == needle@[j],
        decreases needle@.len() - k,
    {
        if hay[at + k] != needle[k] {
            assert(hay@.subrange(at as int, at + needle@.len())[k as int] != needle@[k as int]);
            return false;
        }
        k += 1;
    }
    assert(hay@.subrange(at as int, at + needle@.len()) =~= needle@);
    true
}

/// Whether `needle` is a substring of `hay`.
pub fn contains(hay: &[char], needle: &[char]) -> (b: bool)
    ensures
        b == contains_text(hay@, needle@),
{
    if needle.len() > hay.len() {
        return false;
    }
    let last: usize = hay.len() - needle.len();
    let mut i: usize = 0;
    loop
        invariant
            i <= last,
            last == hay@.len() - needle@.len(),
            forall|k: int| 0 <= k < i ==> !occurs_at(hay@, needle@, k),
        ensures
            forall|k: int| 0 <= k <= last ==> !occurs_at(hay@, needle@, k),
        decreases last - i,
    {
        if matches_at(hay, needle, i) {
            return true;
        }
        if i == last {
            break ;
        }
        i += 1;
    }
    false
}

/// Whether `c` stands somewhere in `hay`.
pub fn has_char(hay: &[char], c: char) -> (b: bool)
    ensures
        b == hay@.contains(c),
{
    let mut i: usize = 0;
    while i < hay.len()
        invariant
            i <= hay@.len(),
            forall|k: int| 0 <= k < i ==> hay@[k] != c,
        decreases hay@.len() - i,
    {
        if hay[i] == c {
            return true;
        }
        i += 1;
    }
    false
}

/// Whether two texts hold the same characters.
pub fn same_text(a: &[char], b: &[char]) -> (r: bool)
    ensures
        r == (a@ == b@),
{
    if a.len() != b.len() {
        return false;
    }
    let mut i: usize = 0;
    while i < a.len()
        invariant
            i <= a@.len(),
            a@.len() == b@.len(),
            forall|k: int| 0 <= k < i ==> a@[k] == b@[k],
        decreases a@.len() - i,
    {
        if a[i] != b[i] {
            return false;
        }
        i += 1;
    }
    assert(a@ =~= b@);
    true
}

/// `body` with every placeholder replaced by `arg`.
pub open spec fn substitute(body: Seq<char>, arg: Seq<char>) -> Seq<char>
    decreases body.len(),
{
    if body.len() == 0 {
        Seq::empty()
    } else if body.last() == PLACEHOLDER {
        substitute(body.drop_last(), arg) + arg
    } else {
        substitute(body.drop_last(), arg).push(body.last())
    }
}

/// Puts `arg` for every placeholder of `body`.
pub fn fill(body: &[char], arg: &[char]) -> (out: Vec<char>)
    ensures
        out@ == substitute(body@, arg@),
{
    let mut out: Vec<char> = Vec::new();
    let mut i: usize = 0;
    while i < body.len()
        invariant
            i <= body@.len(),
            out@ == substitute(body@.take(i as int), arg@),
        decreases body@.len() - i,
    {
        assert(body@.take(i + 1).drop_last() == body@.take(i as int));
        if body[i] == PLACEHOLDER {
            out.extend_from_slice(arg);
        } else {
            out.push(body[i]);
        }
        i += 1;
    }
    assert(body@.take(i as int) == body@);
    out
}

/// Whether `c` is one of the digits `0` to `9`.
pub open spec fn is_digit(c: char) -> bool {
    '0' as u32 <= c as u32 <= '9' as u32
}

/// The value of a digit.
pub open spec fn digit_value(c: char) -> nat {
    (c as u32 - '0' as u32) as nat
}

/// Whether `s` is a decimal number: one digit or more, and nothing else.
pub open spec fn is_number(s: Seq<char>) -> bool {
    s.len() > 0 && forall|i: int| 0 <= i < s.len() ==> is_digit(#[trigger] s[i])
}

/// The value of a string of digits, read in base ten.
pub open spec fn decimal_value(s: Seq<char>) -> nat
    decreases s.len(),
{
    if s.len() == 0 {
        0
    } else {
        decimal_value(s.drop_last()) * 10 + digit_value(s.last())
    }
}

/// The value of an unsigned literal: a decimal number that a `+` may
/// precede.
pub open spec fn unsigned_literal(tok: Seq<char>) -> Option<nat> {
    let body = if tok.len() > 0 && tok[0] == '+' {
        tok.skip(1)
    } else {
        tok
    };
    if is_number(body) {
        Some(decimal_value(body))
    } else {
        None
    }
}

/// The value of a signed literal: a decimal number that a `+` or a `-` may
/// precede.
pub open spec fn signed_literal(tok: Seq<char>) -> Option<int> {
    if tok.len() > 0 && tok[0] == '-' {
        if is_number(tok.skip(1)) {
            Some(-(decimal_value(tok.skip(1)) as int))
        } else {
            None
        }
    } else {
        match unsigned_literal(tok) {
            Some(v) => Some(v as int),
            None => None,
        }
    }
}

/// `v`, or `cap + 1` where `v` is larger than `cap`.
pub open spec fn capped(v: nat, cap: nat) -> nat {
    if v > cap {
        cap + 1
    } else {
        v
    }
}

/// Reads the decimal number that `tok` holds from `from` on. The value comes
/// back capped just above `cap`, so that it fits whatever the number of
/// digits.
pub fn read_decimal(tok: &[char], from: usize, cap: u8) -> (r: Option<u16>)
    requires
        from <= tok@.len(),
    ensures
        r == if is_number(tok@.skip(from as int)) {
            Some(capped(decimal_value(tok@.skip(from as int)), cap as nat) as u16)
        } else {
            None
        },
{
    let ghost body = tok@.skip(from as int);
    if from == tok.len() {
        return None;
    }
    let mut acc: u16 = 0;
    let mut i: usize = from;
    assert(body.take(0) == Seq::<char>::empty());
    while i < tok.len()
        invariant
            from <= i <= tok@.len(),
            body == tok@.skip(from as int),
            forall|k: int| 0 <= k < i - from ==> is_digit(#[trigger] body[k]),
            acc == capped(decimal_value(body.take(i - from)), cap as nat),
        decreases tok@.len() - i,
    {
        let u: u32 = tok[i] as u32;
        assert(tok@[i as int] == body[i - from]);
        if u < 48 || u > 57 {
            return None;
        }
        let d: u16 = (u - 48) as u16;
        assert(body.take(i - from + 1).drop_last() == body.take(i - from));
        assert(body.take(i - from + 1).last() == body[i - from]);
        let wide: u16 = acc * 10 + d;
        acc = if wide > cap as u16 {
            cap as u16 + 1
        } else {
            wide
        };
        i += 1;
    }
    assert(body.take(i - from) == body);
    Some(acc)
}

/// `v`, or the nearest of `-(cap + 1)` and `cap + 1` where `v` lies
/// outside `-cap..=cap`.
pub open spec fn clamped(v: int, cap: nat) -> int {
    if v > cap {
        (cap + 1) as int
    } else if v < -cap {
        -(cap + 1)
    } else {
        v
    }
}

/// Reads an unsigned literal. The value comes back capped just above `cap`.
pub fn read_unsigned(tok: &[char], cap: u8) -> (r: Option<u16>)
    ensures
        r == match unsigned_literal(tok@) {
            Some(v) => Some(capped(v, cap as nat) as u16),
            None => None,
        },
{
    let from: usize = if tok.len() > 0 && tok[0] == '+' {
        1
    } else {
        0
    };
    assert(tok@.skip(0) == tok@);
    read_decimal(tok, from, cap)
}

/// Reads a signed literal. The value comes back clamped just outside
/// `-cap..=cap`.
pub fn read_signed(tok: &[char], cap: u8) -> (r: Option<i16>)
    ensures
        r == match signed_literal(tok@) {
            Some(v) => Some(clamped(v, cap as nat) as i16),
            None => None,
        },
{
    if tok.len() > 0 && tok[0] == '-' {
        match read_decimal(tok, 1, cap) {
            Some(v) => Some(-(v as i16)),
            None => None,
        }
    } else {
        match read_unsigned(tok, cap) {
            Some(v) => Some(v as i16),
            None => None,
        }
    }
}

/// The characters of a string slice.
pub fn to_chars(s: &str) -> (out: Vec<char>)
    ensures
        out@ == s@,
{
    let mut out: Vec<char> = Vec::new();
    for c in it: s.chars()
        invariant
            out@ == it.seq().take(it.index() as int),
    {
        out.push(c);
    }
    out
}

} // verus!
