//! Character-sequence primitives shared by the whole library.
//!
//! Text is modelled as `Seq<char>` in specifications and carried as
//! `Vec<char>` in executable code; `String` appears only at the public
//! boundary.

use vstd::prelude::*;

verus! {

/// ASCII lowercase of one character; everything else is unchanged.
pub open spec fn lower_char(c: char) -> char {
    if 'A' <= c && c <= 'Z' {
        (((c as u8) + 32) as char)
    } else {
        c
    }
}

/// ASCII lowercase of a sequence.
pub open spec fn lower(s: Seq<char>) -> Seq<char> {
    s.map_values(|c: char| lower_char(c))
}

/// ASCII whitespace as the dialect understands it.
pub open spec fn is_ws(c: char) -> bool {
    c == ' ' || c == '\t' || c == '\r' || c == '\n'
}

/// The pattern `pat` occurs in `s` starting at index `i`.
pub open spec fn at(s: Seq<char>, i: int, pat: Seq<char>) -> bool {
    0 <= i && i + pat.len() <= s.len() && s.subrange(i, i + pat.len()) == pat
}

/// ASCII uppercase of one character; everything else is unchanged.
pub open spec fn upper_char(c: char) -> char {
    if 'a' <= c && c <= 'z' {
        (((c as u8) - 32) as char)
    } else {
        c
    }
}

/// ASCII uppercase of one character, executable form.
pub fn upper_char_x(c: char) -> (r: char)
    ensures
        r == upper_char(c),
{
    if 'a' <= c && c <= 'z' {
        ((c as u8) - 32) as char
    } else {
        c
    }
}

/// ASCII lowercase of one character, executable form.
pub fn lower_char_x(c: char) -> (r: char)
    ensures
        r == lower_char(c),
{
    if 'A' <= c && c <= 'Z' {
        ((c as u8) + 32) as char
    } else {
        c
    }
}

/// ASCII lowercase of a character vector.
pub fn lower_vec(v: &Vec<char>) -> (r: Vec<char>)
    ensures
        r@ == lower(v@),
{
    let mut r: Vec<char> = Vec::new();
    let mut i: usize = 0;
    while i < v.len()
        invariant
            i <= v.len(),
            r@ =~= lower(v@).subrange(0, i as int),
        decreases v.len() - i,
    {
        r.push(lower_char_x(v[i]));
        i += 1;
        assert(r@ =~= lower(v@).subrange(0, i as int));
    }
    assert(r@ =~= lower(v@));
    r
}

/// Executable whitespace test matching `is_ws`.
pub fn is_ws_x(c: char) -> (r: bool)
    ensures
        r == is_ws(c),
{
    c == ' ' || c == '\t' || c == '\r' || c == '\n'
}

/// The characters of a string slice, in order.
pub fn str_to_chars(s: &str) -> (r: Vec<char>)
    ensures
        r@ == s@,
{
    let n = s.unicode_len();
    let mut r: Vec<char> = Vec::new();
    let mut i: usize = 0;
    while i < n
        invariant
            n == s@.len(),
            i <= n,
            r@ =~= s@.subrange(0, i as int),
        decreases n - i,
    {
        r.push(s.get_char(i));
        i += 1;
        assert(r@ =~= s@.subrange(0, i as int));
    }
    assert(r@ =~= s@);
    r
}

/// Relies on `String::push`: appends exactly one character.
#[verifier::external_body]
fn push_char(s: &mut String, c: char)
    ensures
        final(s)@ == old(s)@.push(c),
{
    s.push(c);
}

/// A `String` holding exactly the given characters.
pub fn chars_to_string(v: &Vec<char>) -> (r: String)
    ensures
        r@ == v@,
{
    let mut r = String::new();
    let mut i: usize = 0;
    while i < v.len()
        invariant
            i <= v.len(),
            r@ =~= v@.subrange(0, i as int),
        decreases v.len() - i,
    {
        push_char(&mut r, v[i]);
        i += 1;
        assert(r@ =~= v@.subrange(0, i as int));
    }
    assert(r@ =~= v@);
    r
}

/// Index of the first occurrence of `c` at or after `i`, or `s.len()` if none.
pub open spec fn find_from(s: Seq<char>, c: char, i: int) -> int
    decreases s.len() - i,
{
    if i < 0 || i >= s.len() {
        s.len() as int
    } else if s[i] == c {
        i
    } else {
        find_from(s, c, i + 1)
    }
}

/// The found index is within bounds and everything before it differs from `c`.
pub proof fn lemma_find_from(s: Seq<char>, c: char, i: int)
    requires
        0 <= i <= s.len(),
    ensures
        i <= find_from(s, c, i) <= s.len(),
        find_from(s, c, i) < s.len() ==> s[find_from(s, c, i)] == c,
        forall|k: int| i <= k < find_from(s, c, i) ==> s[k] != c,
    decreases s.len() - i,
{
    if i < s.len() && s[i] != c {
        lemma_find_from(s, c, i + 1);
    }
}

/// Executable search matching `find_from`.
pub fn find_from_x(v: &Vec<char>, c: char, i: usize) -> (r: usize)
    requires
        i <= v.len(),
    ensures
        r == find_from(v@, c, i as int),
        i <= r <= v.len(),
    decreases v.len() - i,
{
    if i >= v.len() {
        v.len()
    } else if v[i] == c {
        i
    } else {
        find_from_x(v, c, i + 1)
    }
}

/// Index of the first non-whitespace character at or after `i`, or `s.len()`.
pub open spec fn skip_ws_from(s: Seq<char>, i: int) -> int
    decreases s.len() - i,
{
    if i < 0 || i >= s.len() {
        s.len() as int
    } else if is_ws(s[i]) {
        skip_ws_from(s, i + 1)
    } else {
        i
    }
}

/// The skipped region is whitespace and the landing point is not.
pub proof fn lemma_skip_ws_from(s: Seq<char>, i: int)
    requires
        0 <= i <= s.len(),
    ensures
        i <= skip_ws_from(s, i) <= s.len(),
        skip_ws_from(s, i) < s.len() ==> !is_ws(s[skip_ws_from(s, i)]),
        forall|k: int| i <= k < skip_ws_from(s, i) ==> is_ws(s[k]),
    decreases s.len() - i,
{
    if i < s.len() && is_ws(s[i]) {
        lemma_skip_ws_from(s, i + 1);
    }
}

/// Executable whitespace skip matching `skip_ws_from`.
pub fn skip_ws_from_x(v: &Vec<char>, i: usize) -> (r: usize)
    requires
        i <= v.len(),
    ensures
        r == skip_ws_from(v@, i as int),
        i <= r <= v.len(),
    decreases v.len() - i,
{
    if i >= v.len() {
        v.len()
    } else if is_ws_x(v[i]) {
        skip_ws_from_x(v, i + 1)
    } else {
        i
    }
}

/// The characters of `v` between `a` (inclusive) and `b` (exclusive).
pub fn seg_vec(v: &Vec<char>, a: usize, b: usize) -> (r: Vec<char>)
    requires
        a <= b <= v.len(),
    ensures
        r@ == v@.subrange(a as int, b as int),
{
    let mut r: Vec<char> = Vec::new();
    let mut i: usize = a;
    while i < b
        invariant
            a <= i <= b <= v.len(),
            r@ =~= v@.subrange(a as int, i as int),
        decreases b - i,
    {
        r.push(v[i]);
        i += 1;
        assert(r@ =~= v@.subrange(a as int, i as int));
    }
    r
}

/// Appends every character of `add` to `out`.
pub fn push_all(out: &mut Vec<char>, add: &Vec<char>)
    ensures
        final(out)@ == old(out)@ + add@,
{
    let mut i: usize = 0;
    while i < add.len()
        invariant
            i <= add.len(),
            out@ =~= old(out)@ + add@.subrange(0, i as int),
        decreases add.len() - i,
    {
        out.push(add[i]);
        i += 1;
        assert(out@ =~= old(out)@ + add@.subrange(0, i as int));
    }
    assert(out@ =~= old(out)@ + add@);
}

/// Appends the characters of the string slice `s` to `out`.
pub fn push_str_chars(out: &mut Vec<char>, s: &str)
    ensures
        final(out)@ == old(out)@ + s@,
{
    let cs = str_to_chars(s);
    push_all(out, &cs);
}

/// Appends `v[a..b]` to `out`.
pub fn push_seg(out: &mut Vec<char>, v: &Vec<char>, a: usize, b: usize)
    requires
        a <= b <= v.len(),
    ensures
        final(out)@ == old(out)@ + v@.subrange(a as int, b as int),
{
    let s = seg_vec(v, a, b);
    push_all(out, &s);
}

/// `pat` occurs somewhere in `s`.
pub open spec fn contains_seq(s: Seq<char>, pat: Seq<char>) -> bool {
    exists|i: int| at(s, i, pat)
}

/// Executable substring search matching `contains_seq`.
pub fn contains_seq_x(v: &Vec<char>, pat: &Vec<char>) -> (r: bool)
    ensures
        r == contains_seq(v@, pat@),
{
    if pat.len() == 0 {
        assert(at(v@, 0, pat@)) by {
            assert(v@.subrange(0, 0) =~= pat@);
        }
        return true;
    }
    let mut i: usize = 0;
    while i < v.len()
        invariant
            i <= v.len(),
            pat@.len() >= 1,
            forall|k: int| 0 <= k < i ==> !at(v@, k, pat@),
        decreases v.len() - i,
    {
        if at_x(v, i, pat) {
            return true;
        }
        i += 1;
    }
    assert forall|k: int| !at(v@, k, pat@) by {
        if 0 <= k < v@.len() {
        }
    }
    false
}

/// A decimal digit.
pub open spec fn is_digit(c: char) -> bool {
    '0' <= c && c <= '9'
}

/// An ASCII uppercase letter.
pub open spec fn is_upper(c: char) -> bool {
    'A' <= c && c <= 'Z'
}

/// An ASCII lowercase letter.
pub open spec fn is_lower_letter(c: char) -> bool {
    'a' <= c && c <= 'z'
}

/// A word character: ASCII letter, digit or underscore.
pub open spec fn is_word(c: char) -> bool {
    is_digit(c) || is_upper(c) || is_lower_letter(c) || c == '_'
}

/// Character classes used by the dialect's scanners.
#[derive(Clone, Copy)]
pub enum Cls {
    /// A decimal digit.
    Digit,
    /// An uppercase letter or digit, the tail of a ticker token.
    UpperDigit,
    /// A digit, comma or full stop, the tail of a money amount.
    Amount,
    /// A lowercase hex digit or dash, the alphabet of a block id.
    HexDash,
    /// Anything but a closing bracket or pipe, the text of a link.
    LinkText,
    /// A word character or dash, the shape of a property key.
    WordDash,
    /// A letter, underscore or dash, the shape of a document property key.
    PropKey,
    /// A letter, digit, underscore or dash, the tail of an inline tag.
    TagTail,
    /// An ASCII letter of either case.
    Letter,
    /// Anything but whitespace.
    NonWs,
    /// A word character: letter, digit or underscore.
    WordChar,
    /// A tag name character: anything but whitespace or a closing bracket.
    TagName,
}

/// Membership in a character class.
pub open spec fn in_cls(cl: Cls, c: char) -> bool {
    match cl {
        Cls::Digit => is_digit(c),
        Cls::UpperDigit => is_upper(c) || is_digit(c),
        Cls::Amount => is_digit(c) || c == ',' || c == '.',
        Cls::HexDash => is_digit(c) || ('a' <= c && c <= 'f') || c == '-',
        Cls::LinkText => c != ']' && c != '|',
        Cls::WordDash => is_word(c) || c == '-',
        Cls::PropKey => is_upper(c) || is_lower_letter(c) || c == '_' || c == '-',
        Cls::TagTail => is_word(c) || c == '-',
        Cls::Letter => is_upper(c) || is_lower_letter(c),
        Cls::NonWs => !is_ws(c),
        Cls::WordChar => is_word(c),
        Cls::TagName => !is_ws(c) && c != ']',
    }
}

/// Executable class membership matching `in_cls`.
pub fn in_cls_x(cl: Cls, c: char) -> (r: bool)
    ensures
        r == in_cls(cl, c),
{
    match cl {
        Cls::Digit => '0' <= c && c <= '9',
        Cls::UpperDigit => ('A' <= c && c <= 'Z') || ('0' <= c && c <= '9'),
        Cls::Amount => ('0' <= c && c <= '9') || c == ',' || c == '.',
        Cls::HexDash => ('0' <= c && c <= '9') || ('a' <= c && c <= 'f') || c == '-',
        Cls::LinkText => c != ']' && c != '|',
        Cls::WordDash => ('0' <= c && c <= '9') || ('A' <= c && c <= 'Z') || ('a' <= c && c
            <= 'z') || c == '_' || c == '-',
        Cls::PropKey => ('A' <= c && c <= 'Z') || ('a' <= c && c <= 'z') || c == '_' || c == '-',
        Cls::TagTail => ('0' <= c && c <= '9') || ('A' <= c && c <= 'Z') || ('a' <= c && c <= 'z')
            || c == '_' || c == '-',
        Cls::Letter => ('A' <= c && c <= 'Z') || ('a' <= c && c <= 'z'),
        Cls::NonWs => !(c == ' ' || c == '\t' || c == '\r' || c == '\n'),
        Cls::WordChar => ('0' <= c && c <= '9') || ('A' <= c && c <= 'Z') || ('a' <= c && c <= 'z')
            || c == '_',
        Cls::TagName => !(c == ' ' || c == '\t' || c == '\r' || c == '\n') && c != ']',
    }
}

/// Index of the first character at or after `i` outside the class, or `s.len()`.
pub open spec fn scan_while(s: Seq<char>, cl: Cls, i: int) -> int
    decreases s.len() - i,
{
    if i < 0 || i >= s.len() {
        s.len() as int
    } else if in_cls(cl, s[i]) {
        scan_while(s, cl, i + 1)
    } else {
        i
    }
}

/// The scanned region is inside the class and the landing point is not.
pub proof fn lemma_scan_while(s: Seq<char>, cl: Cls, i: int)
    requires
        0 <= i <= s.len(),
    ensures
        i <= scan_while(s, cl, i) <= s.len(),
        scan_while(s, cl, i) < s.len() ==> !in_cls(cl, s[scan_while(s, cl, i)]),
        forall|k: int| i <= k < scan_while(s, cl, i) ==> in_cls(cl, s[k]),
    decreases s.len() - i,
{
    if i < s.len() && in_cls(cl, s[i]) {
        lemma_scan_while(s, cl, i + 1);
    }
}

/// Executable class scan matching `scan_while`.
pub fn scan_while_x(v: &Vec<char>, cl: Cls, i: usize) -> (r: usize)
    requires
        i <= v.len(),
    ensures
        r == scan_while(v@, cl, i as int),
        i <= r <= v.len(),
    decreases v.len() - i,
{
    if i >= v.len() {
        v.len()
    } else if in_cls_x(cl, v[i]) {
        scan_while_x(v, cl, i + 1)
    } else {
        i
    }
}

/// Number of occurrences of `c` in `s` at or after `i`.
pub open spec fn count_char_from(s: Seq<char>, c: char, i: int) -> nat
    decreases s.len() - i,
{
    if i < 0 || i >= s.len() {
        0
    } else if s[i] == c {
        1 + count_char_from(s, c, i + 1)
    } else {
        count_char_from(s, c, i + 1)
    }
}

/// Number of occurrences of `c` in all of `s`.
pub open spec fn count_char(s: Seq<char>, c: char) -> nat {
    count_char_from(s, c, 0)
}

/// Executable character count matching `count_char_from`.
pub fn count_char_from_x(v: &Vec<char>, c: char, i: usize) -> (r: usize)
    requires
        i <= v.len(),
    ensures
        r == count_char_from(v@, c, i as int),
    decreases v.len() - i,
{
    if i >= v.len() {
        0
    } else if v[i] == c {
        let rest = count_char_from_x(v, c, i + 1);
        assert(count_char_from(v@, c, i as int) <= v@.len() - i) by {
            lemma_count_char_le(v@, c, i as int);
        }
        1 + rest
    } else {
        count_char_from_x(v, c, i + 1)
    }
}

/// A character count never exceeds the length of the counted region.
pub proof fn lemma_count_char_le(s: Seq<char>, c: char, i: int)
    requires
        0 <= i <= s.len(),
    ensures
        count_char_from(s, c, i) <= s.len() - i,
    decreases s.len() - i,
{
    if i < s.len() {
        lemma_count_char_le(s, c, i + 1);
    }
}

/// End of `s` once trailing whitespace before `e` is dropped.
pub open spec fn rtrim_from(s: Seq<char>, e: int) -> int
    decreases e,
{
    if e <= 0 || e > s.len() {
        0
    } else if is_ws(s[e - 1]) {
        rtrim_from(s, e - 1)
    } else {
        e
    }
}

/// Executable right trim matching `rtrim_from`.
pub fn rtrim_from_x(v: &Vec<char>, e: usize) -> (r: usize)
    requires
        e <= v.len(),
    ensures
        r == rtrim_from(v@, e as int),
        r <= e,
    decreases e,
{
    if e == 0 {
        0
    } else if is_ws_x(v[e - 1]) {
        rtrim_from_x(v, e - 1)
    } else {
        e
    }
}

/// `s` with leading and trailing whitespace removed.
pub open spec fn trim_seq(s: Seq<char>) -> Seq<char> {
    let t0 = skip_ws_from(s, 0);
    let t1 = rtrim_from(s, s.len() as int);
    if t0 >= t1 {
        Seq::empty()
    } else {
        s.subrange(t0, t1)
    }
}

/// Executable trim matching `trim_seq`.
pub fn trim_vec(v: &Vec<char>) -> (r: Vec<char>)
    ensures
        r@ == trim_seq(v@),
{
    let t0 = skip_ws_from_x(v, 0);
    let t1 = rtrim_from_x(v, v.len());
    if t0 >= t1 {
        Vec::new()
    } else {
        seg_vec(v, t0, t1)
    }
}

/// `s` with every copy of the prefix `p` removed from the front.
pub open spec fn strip_all_prefix(s: Seq<char>, p: Seq<char>) -> Seq<char>
    decreases s.len(),
{
    if p.len() > 0 && at(s, 0, p) && s.len() >= p.len() {
        if s.len() == p.len() {
            Seq::empty()
        } else {
            strip_all_prefix(s.skip(p.len() as int), p)
        }
    } else {
        s
    }
}

/// Executable prefix stripping matching `strip_all_prefix`.
pub fn strip_all_prefix_x(v: &Vec<char>, p: &Vec<char>) -> (r: Vec<char>)
    ensures
        r@ == strip_all_prefix(v@, p@),
    decreases v@.len(),
{
    if p.len() > 0 && at_x(v, 0, p) {
        if v.len() == p.len() {
            Vec::new()
        } else {
            let rest = seg_vec(v, p.len(), v.len());
            assert(rest@ =~= v@.skip(p@.len() as int));
            strip_all_prefix_x(&rest, p)
        }
    } else {
        seg_vec(v, 0, v.len())
    }
}

/// `s` with every copy of the suffix `p` removed from the back.
pub open spec fn strip_all_suffix(s: Seq<char>, p: Seq<char>) -> Seq<char>
    decreases s.len(),
{
    if p.len() > 0 && s.len() >= p.len() && at(s, s.len() - p.len(), p) {
        if s.len() == p.len() {
            Seq::empty()
        } else {
            strip_all_suffix(s.take(s.len() - p.len()), p)
        }
    } else {
        s
    }
}

/// Executable suffix stripping matching `strip_all_suffix`.
pub fn strip_all_suffix_x(v: &Vec<char>, p: &Vec<char>) -> (r: Vec<char>)
    ensures
        r@ == strip_all_suffix(v@, p@),
    decreases v@.len(),
{
    if p.len() > 0 && v.len() >= p.len() && at_x(v, v.len() - p.len(), p) {
        if v.len() == p.len() {
            Vec::new()
        } else {
            let rest = seg_vec(v, 0, v.len() - p.len());
            assert(rest@ =~= v@.take(v@.len() - p@.len()));
            strip_all_suffix_x(&rest, p)
        }
    } else {
        seg_vec(v, 0, v.len())
    }
}

/// Index of the first occurrence of `pat` at or after `i`, or `s.len()`.
pub open spec fn find_seq_from(s: Seq<char>, pat: Seq<char>, i: int) -> int
    decreases s.len() - i,
{
    if i < 0 || i > s.len() {
        s.len() as int
    } else if at(s, i, pat) {
        i
    } else if i == s.len() {
        s.len() as int
    } else {
        find_seq_from(s, pat, i + 1)
    }
}

/// A found index is a real occurrence.
pub proof fn lemma_find_seq_from(s: Seq<char>, pat: Seq<char>, i: int)
    requires
        0 <= i <= s.len(),
    ensures
        i <= find_seq_from(s, pat, i) <= s.len(),
        find_seq_from(s, pat, i) < s.len() ==> at(s, find_seq_from(s, pat, i), pat),
    decreases s.len() - i,
{
    if !at(s, i, pat) && i < s.len() {
        lemma_find_seq_from(s, pat, i + 1);
    }
}

/// Executable search matching `find_seq_from`.
pub fn find_seq_from_x(v: &Vec<char>, pat: &Vec<char>, i: usize) -> (r: usize)
    requires
        i <= v.len(),
    ensures
        r == find_seq_from(v@, pat@, i as int),
        i <= r <= v.len(),
    decreases v.len() - i,
{
    if at_x(v, i, pat) {
        i
    } else if i == v.len() {
        v.len()
    } else {
        find_seq_from_x(v, pat, i + 1)
    }
}

/// The pieces of `s` split at every occurrence of `c`.
pub open spec fn split_char(s: Seq<char>, c: char) -> Seq<Seq<char>>
    decreases s.len(),
{
    let e = find_from(s, c, 0);
    if e < 0 || e >= s.len() {
        seq![s]
    } else {
        seq![s.subrange(0, e)] + split_char(s.subrange(e + 1, s.len() as int), c)
    }
}

/// Splits `v` at every occurrence of `c`.
pub fn split_char_x(v: &Vec<char>, c: char) -> (r: Vec<Vec<char>>)
    ensures
        vviews(r@) == split_char(v@, c),
{
    let mut r: Vec<Vec<char>> = Vec::new();
    let mut start: usize = 0;
    let ghost mut suffix: Seq<char> = v@;
    loop
        invariant
            start <= v.len(),
            suffix =~= v@.subrange(start as int, v@.len() as int),
            split_char(v@, c) =~= vviews(r@) + split_char(suffix, c),
        decreases v.len() - start,
    {
        let e = find_from_x(v, c, start);
        proof {
            lemma_find_from(v@, c, start as int);
            lemma_find_from(suffix, c, 0);
            assert forall|k: int| 0 <= k < e - start implies suffix[k] != c by {
                assert(suffix[k] == v@[start + k]);
            }
            if e < v.len() {
                assert(suffix[e - start] == v@[e as int]);
            }
            assert(find_from(suffix, c, 0) == e - start) by {
                let f = find_from(suffix, c, 0);
                if f < e - start {
                    assert(suffix[f] == c);
                } else if f > e - start && e < v.len() {
                    assert(suffix[e - start] == c);
                }
            }
        }
        let piece = seg_vec(v, start, e);
        r.push(piece);
        if e >= v.len() {
            proof {
                assert(split_char(suffix, c) =~= seq![suffix]);
                assert(piece@ =~= suffix);
                assert(vviews(r@) =~= split_char(v@, c));
            }
            return r;
        }
        proof {
            assert(split_char(suffix, c) =~= seq![suffix.subrange(0, e - start)] + split_char(
                suffix.subrange(e - start + 1, suffix.len() as int),
                c,
            ));
            assert(piece@ =~= suffix.subrange(0, e - start));
            assert(suffix.subrange(e - start + 1, suffix.len() as int) =~= v@.subrange(
                e + 1,
                v@.len() as int,
            ));
            suffix = v@.subrange(e + 1, v@.len() as int);
            assert(vviews(r@) =~= vviews(r@.drop_last()) + seq![piece@]);
        }
        start = e + 1;
    }
}

/// The views of a sequence of character vectors.
pub open spec fn vviews(vs: Seq<Vec<char>>) -> Seq<Seq<char>> {
    vs.map_values(|x: Vec<char>| x@)
}

/// The views of a sequence of strings.
pub open spec fn sviews(xs: Seq<String>) -> Seq<Seq<char>> {
    xs.map_values(|x: String| x@)
}

/// The views of a sequence of string pairs.
pub open spec fn pviews(ps: Seq<(String, String)>) -> Seq<(Seq<char>, Seq<char>)> {
    ps.map_values(|p: (String, String)| (p.0@, p.1@))
}

/// The value stored under key `k`, if any; keys are unique, so the first
/// match is the only one.
pub open spec fn plookup(ps: Seq<(Seq<char>, Seq<char>)>, k: Seq<char>) -> Option<Seq<char>>
    decreases ps.len(),
{
    if ps.len() == 0 {
        None
    } else if ps[0].0 == k {
        Some(ps[0].1)
    } else {
        plookup(ps.drop_first(), k)
    }
}

/// The same characters in a string and a character vector.
pub fn str_eq_chars(s: &String, v: &Vec<char>) -> (r: bool)
    ensures
        r == (s@ == v@),
{
    let n = s.as_str().unicode_len();
    if n != v.len() {
        return false;
    }
    let mut i: usize = 0;
    while i < n
        invariant
            n == s@.len() == v@.len(),
            i <= n,
            forall|k: int| 0 <= k < i ==> s@[k] == v@[k],
        decreases n - i,
    {
        if s.as_str().get_char(i) != v[i] {
            return false;
        }
        i += 1;
    }
    assert(s@ =~= v@);
    true
}

/// Executable lookup matching `plookup` on the views, from index `i` on.
pub fn plookup_from_x(ps: &Vec<(String, String)>, i: usize, k: &Vec<char>) -> (r: Option<String>)
    requires
        i <= ps.len(),
    ensures
        match r {
            Some(v) => plookup(pviews(ps@).skip(i as int), k@) == Some(v@),
            None => plookup(pviews(ps@).skip(i as int), k@) is None,
        },
    decreases ps.len() - i,
{
    let ghost tail = pviews(ps@).skip(i as int);
    if i == ps.len() {
        None
    } else if str_eq_chars(&ps[i].0, k) {
        let n = ps[i].1.as_str();
        let cs = str_to_chars(n);
        Some(chars_to_string(&cs))
    } else {
        proof {
            assert(tail.drop_first() =~= pviews(ps@).skip(i + 1));
        }
        plookup_from_x(ps, i + 1, k)
    }
}

/// Executable lookup matching `plookup` on the views.
pub fn plookup_x(ps: &Vec<(String, String)>, k: &Vec<char>) -> (r: Option<String>)
    ensures
        match r {
            Some(v) => plookup(pviews(ps@), k@) == Some(v@),
            None => plookup(pviews(ps@), k@) is None,
        },
{
    proof {
        assert(pviews(ps@).skip(0) =~= pviews(ps@));
    }
    plookup_from_x(ps, 0, k)
}

/// Two character vectors holding the same characters.
pub fn eq_vecs(a: &Vec<char>, b: &Vec<char>) -> (r: bool)
    ensures
        r == (a@ == b@),
{
    if a.len() != b.len() {
        return false;
    }
    let mut i: usize = 0;
    while i < a.len()
        invariant
            a@.len() == b@.len(),
            i <= a.len(),
            forall|k: int| 0 <= k < i ==> a@[k] == b@[k],
        decreases a.len() - i,
    {
        if a[i] != b[i] {
            return false;
        }
        i += 1;
    }
    assert(a@ =~= b@);
    true
}

/// Some element of `xs` holds exactly the characters `x`.
pub open spec fn seq_contains_str(xs: Seq<Seq<char>>, x: Seq<char>) -> bool {
    exists|i: int| 0 <= i < xs.len() && xs[i] == x
}

/// Executable membership test matching `seq_contains_str`.
pub fn vec_contains_str(xs: &Vec<String>, x: &Vec<char>) -> (r: bool)
    ensures
        r == seq_contains_str(sviews(xs@), x@),
{
    let mut i: usize = 0;
    while i < xs.len()
        invariant
            i <= xs.len(),
            forall|k: int| 0 <= k < i ==> sviews(xs@)[k] != x@,
        decreases xs.len() - i,
    {
        if str_eq_chars(&xs[i], x) {
            assert(sviews(xs@)[i as int] == x@);
            return true;
        }
        assert(sviews(xs@)[i as int] != x@);
        i += 1;
    }
    false
}

/// The lines of `s`: maximal runs split at `'\n'`.  Splitting never loses
/// text: `join_lines` is its exact inverse.
pub open spec fn split_lines(s: Seq<char>) -> Seq<Seq<char>>
    decreases s.len(),
{
    let e = find_from(s, '\n', 0);
    if e < 0 || e >= s.len() {
        seq![s]
    } else {
        seq![s.subrange(0, e)] + split_lines(s.subrange(e + 1, s.len() as int))
    }
}

/// The lines joined back with `'\n'`.
pub open spec fn join_lines(ls: Seq<Seq<char>>) -> Seq<char>
    decreases ls.len(),
{
    if ls.len() == 0 {
        Seq::empty()
    } else if ls.len() == 1 {
        ls[0]
    } else {
        ls[0] + seq!['\n'] + join_lines(ls.drop_first())
    }
}

/// Joining the split lines gives back the original text.
pub proof fn lemma_split_join(s: Seq<char>)
    ensures
        join_lines(split_lines(s)) =~= s,
        split_lines(s).len() >= 1,
    decreases s.len(),
{
    let e = find_from(s, '\n', 0);
    lemma_find_from(s, '\n', 0);
    if e < s.len() {
        lemma_split_join(s.subrange(e + 1, s.len() as int));
        assert(split_lines(s).drop_first() =~= split_lines(s.subrange(e + 1, s.len() as int)));
    }
}

/// Splits `v` into its lines.
pub fn split_lines_x(v: &Vec<char>) -> (r: Vec<Vec<char>>)
    ensures
        vviews(r@) == split_lines(v@),
{
    let mut r: Vec<Vec<char>> = Vec::new();
    let mut start: usize = 0;
    let ghost mut suffix: Seq<char> = v@;
    loop
        invariant
            start <= v.len(),
            suffix =~= v@.subrange(start as int, v@.len() as int),
            split_lines(v@) =~= vviews(r@) + split_lines(suffix),
        decreases v.len() - start,
    {
        let e = find_from_x(v, '\n', start);
        proof {
            lemma_find_from(v@, '\n', start as int);
            lemma_find_from(suffix, '\n', 0);
            assert forall|k: int| 0 <= k < e - start implies suffix[k] != '\n' by {
                assert(suffix[k] == v@[start + k]);
            }
            if e < v.len() {
                assert(suffix[e - start] == v@[e as int]);
            }
            assert(find_from(suffix, '\n', 0) == e - start) by {
                let f = find_from(suffix, '\n', 0);
                if f < e - start {
                    assert(suffix[f] == '\n');
                } else if f > e - start && e < v.len() {
                    assert(suffix[e - start] == '\n');
                }
            }
        }
        let line = seg_vec(v, start, e);
        r.push(line);
        if e >= v.len() {
            proof {
                assert(split_lines(suffix) =~= seq![suffix]);
                assert(line@ =~= suffix);
                assert(vviews(r@) =~= split_lines(v@));
            }
            return r;
        }
        proof {
            assert(split_lines(suffix) =~= seq![suffix.subrange(0, e - start)] + split_lines(
                suffix.subrange(e - start + 1, suffix.len() as int),
            ));
            assert(line@ =~= suffix.subrange(0, e - start));
            assert(suffix.subrange(e - start + 1, suffix.len() as int) =~= v@.subrange(
                e + 1,
                v@.len() as int,
            ));
            suffix = v@.subrange(e + 1, v@.len() as int);
            assert(vviews(r@) =~= vviews(r@.drop_last()) + seq![line@]);
        }
        start = e + 1;
    }
}

/// Appending one more line joins as the previous join, a newline, and it.
pub proof fn lemma_join_push(ls: Seq<Seq<char>>, x: Seq<char>)
    ensures
        ls.len() == 0 ==> join_lines(ls.push(x)) =~= x,
        ls.len() > 0 ==> join_lines(ls.push(x)) =~= join_lines(ls) + seq!['\n'] + x,
    decreases ls.len(),
{
    if ls.len() == 0 {
        assert(ls.push(x).len() == 1);
        assert(ls.push(x)[0] == x);
    } else if ls.len() == 1 {
        let l2 = ls.push(x);
        assert(l2.drop_first() =~= seq![x]);
        assert(join_lines(l2.drop_first()) == x) by {
            assert(l2.drop_first().len() == 1);
            assert(l2.drop_first()[0] == x);
        }
        assert(join_lines(l2) =~= l2[0] + seq!['\n'] + join_lines(l2.drop_first()));
        assert(join_lines(ls) == ls[0]);
    } else {
        lemma_join_push(ls.drop_first(), x);
        let l2 = ls.push(x);
        assert(l2.drop_first() =~= ls.drop_first().push(x));
        assert(join_lines(l2) =~= l2[0] + seq!['\n'] + join_lines(l2.drop_first()));
        assert(join_lines(ls) =~= ls[0] + seq!['\n'] + join_lines(ls.drop_first()));
    }
}

/// Joins lines with `'\n'`.
pub fn join_lines_x(ls: &Vec<Vec<char>>) -> (r: Vec<char>)
    ensures
        r@ == join_lines(vviews(ls@)),
{
    let mut r: Vec<char> = Vec::new();
    if ls.len() == 0 {
        assert(vviews(ls@) =~= Seq::<Seq<char>>::empty());
        return r;
    }
    push_all(&mut r, &ls[0]);
    assert(r@ =~= join_lines(vviews(ls@).take(1))) by {
        assert(vviews(ls@).take(1) =~= seq![ls@[0]@]);
    }
    let mut i: usize = 1;
    while i < ls.len()
        invariant
            1 <= i <= ls.len(),
            r@ =~= join_lines(vviews(ls@).take(i as int)),
        decreases ls.len() - i,
    {
        let ghost prefix = vviews(ls@).take(i as int);
        r.push('\n');
        push_all(&mut r, &ls[i]);
        proof {
            lemma_join_push(prefix, ls@[i as int]@);
            assert(prefix.push(ls@[i as int]@) =~= vviews(ls@).take(i + 1));
            assert(r@ =~= join_lines(prefix) + seq!['\n'] + ls@[i as int]@);
        }
        i += 1;
    }
    assert(vviews(ls@).take(ls@.len() as int) =~= vviews(ls@));
    r
}

/// `pat` occurs in `v` at index `i`.
pub fn at_x(v: &Vec<char>, i: usize, pat: &Vec<char>) -> (r: bool)
    ensures
        r == at(v@, i as int, pat@),
{
    if pat.len() > v.len() || i > v.len() - pat.len() {
        assert(!at(v@, i as int, pat@));
        return false;
    }
    let mut j: usize = 0;
    while j < pat.len()
        invariant
            j <= pat.len(),
            i + pat.len() <= v.len(),
            forall|k: int| 0 <= k < j ==> v@[i + k] == pat@[k],
        decreases pat.len() - j,
    {
        if v[i + j] != pat[j] {
            assert(v@.subrange(i as int, i + pat@.len())[j as int] != pat@[j as int]);
            return false;
        }
        j += 1;
    }
    assert(v@.subrange(i as int, i + pat@.len()) =~= pat@);
    true
}

} // verus!
