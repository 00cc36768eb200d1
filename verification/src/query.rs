//! The query engine: parses boolean query expressions of the embedded
//! mini-language and evaluates them against the index.
//!
//! Results are index positions, in the order the grammar prescribes:
//! intersection keeps the first operand's order, union keeps first-seen
//! order deduplicated by name, complement keeps index order.

use vstd::prelude::*;
use crate::page::Page;
use crate::text::{Cls, at, at_x, chars_to_string, contains_seq, contains_seq_x, eq_vecs, find_from, find_from_x, find_seq_from, find_seq_from_x, is_digit, is_ws, is_ws_x, lower, lower_vec, plookup, plookup_x, push_all, push_str_chars, pviews, scan_while, scan_while_x, seg_vec, seq_contains_str, skip_ws_from, skip_ws_from_x, str_eq_chars, str_to_chars, strip_all_prefix, strip_all_prefix_x, strip_all_suffix, strip_all_suffix_x, sviews, trim_seq, trim_vec, vec_contains_str};

verus! {

/// A calendar date as year, month and day.
pub open spec fn valid_date(y: int, m: int, d: int) -> bool {
    1 <= m <= 12 && 1 <= d <= days_in_month(y, m)
}

/// Days of each month, with the leap rule for the second.
pub open spec fn days_in_month(y: int, m: int) -> int {
    if m == 1 || m == 3 || m == 5 || m == 7 || m == 8 || m == 10 || m == 12 {
        31
    } else if m == 4 || m == 6 || m == 9 || m == 11 {
        30
    } else if m == 2 {
        if (y % 4 == 0 && y % 100 != 0) || y % 400 == 0 {
            29
        } else {
            28
        }
    } else {
        0
    }
}

/// One date not after another, comparing year, then month, then day.
pub open spec fn date_le(a: (int, int, int), b: (int, int, int)) -> bool {
    a.0 < b.0 || (a.0 == b.0 && (a.1 < b.1 || (a.1 == b.1 && a.2 <= b.2)))
}

/// The numeric value of a digit run.
pub open spec fn digits_val(s: Seq<char>, i: int, e: int) -> int
    decreases e - i,
{
    if i < 0 || i >= e || e > s.len() {
        0
    } else {
        digits_val(s, i, e - 1) * 10 + (s[e - 1] as int - '0' as int)
    }
}

/// Underscores turned into dashes, the normalization date parsing starts
/// with.
pub open spec fn underscore_to_dash(s: Seq<char>) -> Seq<char> {
    s.map_values(
        |c: char|
            if c == '_' {
                '-'
            } else {
                c
            },
    )
}

/// A digit run from `a` to `b`, non-empty.
pub open spec fn all_digits(s: Seq<char>, a: int, b: int) -> bool {
    a < b && b <= s.len() && 0 <= a && forall|k: int| a <= k < b ==> is_digit(#[trigger] s[k])
}

/// A date written `YYYY-MM-DD`: four digit year, one or two digit month
/// and day, checked against the calendar.
pub open spec fn parse_ymd(s: Seq<char>) -> Option<(int, int, int)> {
    let d1 = find_from(s, '-', 0);
    let d2 = find_from(s, '-', d1 + 1);
    if d1 == 4 && all_digits(s, 0, d1) && d2 > d1 + 1 && d2 - (d1 + 1) <= 2 && all_digits(
        s,
        d1 + 1,
        d2,
    ) && d2 < s.len() && s.len() - (d2 + 1) <= 2 && all_digits(s, d2 + 1, s.len() as int) {
        let y = digits_val(s, 0, d1);
        let m = digits_val(s, d1 + 1, d2);
        let d = digits_val(s, d2 + 1, s.len() as int);
        if valid_date(y, m, d) {
            Some((y, m, d))
        } else {
            None
        }
    } else {
        None
    }
}

/// The month number a three-letter lowercase prefix names, or zero.
pub open spec fn month_of(p: Seq<char>) -> int {
    if p == "jan"@ {
        1
    } else if p == "feb"@ {
        2
    } else if p == "mar"@ {
        3
    } else if p == "apr"@ {
        4
    } else if p == "may"@ {
        5
    } else if p == "jun"@ {
        6
    } else if p == "jul"@ {
        7
    } else if p == "aug"@ {
        8
    } else if p == "sep"@ {
        9
    } else if p == "oct"@ {
        10
    } else if p == "nov"@ {
        11
    } else if p == "dec"@ {
        12
    } else {
        0
    }
}

/// A date written with a month name: `Month D, YYYY`, with an optional
/// ordinal suffix on the day, checked against the calendar.
pub open spec fn parse_month_name(s: Seq<char>) -> Option<(int, int, int)> {
    if s.len() >= 3 && month_of(lower(s.subrange(0, 3))) != 0 {
        let m = month_of(lower(s.subrange(0, 3)));
        let e = scan_while(s, Cls::Letter, 3);
        if e < s.len() && is_ws(s[e]) {
            let j = skip_ws_from(s, e);
            let de = scan_while(s, Cls::Digit, j);
            if de > j && de - j <= 2 && all_digits(s, j, de) {
                let d = digits_val(s, j, de);
                let p1 = if de + 2 <= s.len() && (lower(s.subrange(de, de + 2)) == "st"@ || lower(
                    s.subrange(de, de + 2),
                ) == "nd"@ || lower(s.subrange(de, de + 2)) == "rd"@ || lower(
                    s.subrange(de, de + 2),
                ) == "th"@) {
                    de + 2
                } else {
                    de
                };
                let p2 = if p1 < s.len() && s[p1] == ',' {
                    p1 + 1
                } else {
                    p1
                };
                if p2 < s.len() && is_ws(s[p2]) {
                    let y0 = skip_ws_from(s, p2);
                    if s.len() - y0 == 4 && all_digits(s, y0, s.len() as int) {
                        let y = digits_val(s, y0, s.len() as int);
                        if valid_date(y, m, d) {
                            Some((y, m, d))
                        } else {
                            None
                        }
                    } else {
                        None
                    }
                } else {
                    None
                }
            } else {
                None
            }
        } else {
            None
        }
    } else {
        None
    }
}

/// A date in either accepted form.
pub open spec fn parse_date_spec(s: Seq<char>) -> Option<(int, int, int)> {
    match parse_ymd(underscore_to_dash(s)) {
        Some(d) => Some(d),
        None => parse_month_name(s),
    }
}

/// A primitive predicate of the query grammar, fully parsed.
pub enum Prim {
    /// Tag-set containment.
    Tags(Seq<char>),
    /// Exact lowercase name match.
    PageName(Seq<char>),
    /// Namespace equality.
    Ns(Seq<char>),
    /// Property test: hyphen-stripped key, lowercased value (empty for the
    /// non-empty-value test).
    Prop(Seq<char>, Seq<char>),
    /// Task-state containment, uppercased states.
    Task(Seq<Seq<char>>),
    /// Bracket-priority marker containment.
    Priority(char),
    /// Name parses as a date within the inclusive range.
    Between((int, int, int), (int, int, int)),
    /// Name matches some observed tag.
    AllTags,
    /// Bare page reference: name match or body reference.
    PageRef(Seq<char>),
    /// Case-insensitive body substring search.
    Text(Seq<char>),
}

/// Whether a page satisfies one task state: the state token after a list
/// marker or at a line start, followed by a space.
pub open spec fn task_state_sat(p: Page, st: Seq<char>) -> bool {
    contains_seq(p.content@, "- "@ + st + " "@) || contains_seq(p.content@, "\n"@ + st + " "@)
}

/// Whether some listed state is satisfied.
pub open spec fn any_task_sat(p: Page, states: Seq<Seq<char>>, j: int) -> bool
    decreases states.len() - j,
{
    if j < 0 || j >= states.len() {
        false
    } else {
        task_state_sat(p, states[j]) || any_task_sat(p, states, j + 1)
    }
}

/// The union of the tag sets of every page holds `name`.
pub open spec fn tag_observed(index: Seq<Page>, name: Seq<char>) -> bool {
    exists|i: int|
        0 <= i < index.len() && seq_contains_str(sviews((#[trigger] index[i]).tags@), name)
}

/// Whether page `p` of index `index` satisfies the primitive `pr`.
pub open spec fn prim_sat(pr: Prim, p: Page, index: Seq<Page>) -> bool {
    match pr {
        Prim::Tags(t) => seq_contains_str(sviews(p.tags@), t),
        Prim::PageName(n) => p.name_lower@ == n,
        Prim::Ns(n) => match p.namespace {
            Some(ns) => lower(ns@) == n,
            None => false,
        },
        Prim::Prop(k, v) => {
            let pv = match plookup(pviews(p.properties@), k) {
                Some(x) => lower(x),
                None => Seq::empty(),
            };
            if v.len() == 0 {
                pv.len() > 0
            } else {
                pv == v || contains_seq(pv, v)
            }
        },
        Prim::Task(states) => any_task_sat(p, states, 0),
        Prim::Priority(c) => contains_seq(p.content@, "[#"@ + seq![c] + "]"@),
        Prim::Between(a, b) => {
            let nm = if at(p.name@, 0, "journals/"@) {
                p.name@.skip("journals/"@.len() as int)
            } else {
                p.name@
            };
            match parse_date_spec(nm) {
                Some(d) => date_le(a, d) && date_le(d, b),
                None => false,
            }
        },
        Prim::AllTags => tag_observed(index, p.name_lower@),
        Prim::PageRef(n) => p.name_lower@ == n || contains_seq(
            lower(p.content@),
            "[["@ + n + "]]"@,
        ),
        Prim::Text(t) => contains_seq(lower(p.content@), t),
    }
}

/// The index positions, in order, whose pages satisfy `pr`.
pub open spec fn filter_sat(index: Seq<Page>, pr: Prim, i: int) -> Seq<int>
    decreases index.len() - i,
{
    if i < 0 || i >= index.len() {
        Seq::empty()
    } else {
        (if prim_sat(pr, index[i], index) {
            seq![i]
        } else {
            Seq::empty()
        }) + filter_sat(index, pr, i + 1)
    }
}

/// A bracket-link argument at `i`: `[[` + text + `]]` + optional
/// whitespace + `)` ending the expression.  Yields the lowercased text
/// with the root prefix stripped.
pub open spec fn bracket_arg(t: Seq<char>, i: int) -> Option<Seq<char>> {
    if at(t, i, "[["@) {
        let c0 = i + "[["@.len();
        let e = find_from(t, ']', c0);
        if e > c0 && e + 1 < t.len() && t[e + 1] == ']' && skip_ws_from(t, e + 2) == t.len() - 1
            && t[t.len() - 1] == ')' {
            Some(strip_pages(lower(t.subrange(c0, e))))
        } else {
            None
        }
    } else {
        None
    }
}

/// The root prefix stripped once from the front.
pub open spec fn strip_pages(s: Seq<char>) -> Seq<char> {
    if at(s, 0, "pages/"@) {
        s.skip("pages/"@.len() as int)
    } else {
        s
    }
}

/// The seven task-state keywords.
pub open spec fn valid_state(t: Seq<char>) -> bool {
    t == "TODO"@ || t == "DONE"@ || t == "NOW"@ || t == "DOING"@ || t == "LATER"@ || t
        == "WAITING"@ || t == "CANCELLED"@
}

/// The uppercased state tokens between position `i` and the closing
/// parenthesis, each a valid state, at least one.
pub open spec fn task_states(t: Seq<char>, i: int, acc: Seq<Seq<char>>) -> Option<Seq<Seq<char>>>
    decreases t.len() - i,
{
    if i < 0 || i > t.len() {
        None
    } else {
        let j0 = skip_ws_from(t, i);
        let j = if j0 < i {
            i
        } else if j0 > t.len() {
            t.len() as int
        } else {
            j0
        };
        if j == t.len() - 1 && t[j] == ')' {
            if acc.len() > 0 {
                Some(acc)
            } else {
                None
            }
        } else {
            let e0 = scan_while(t, Cls::Letter, j);
            let e = if e0 < j {
                j
            } else if e0 > t.len() {
                t.len() as int
            } else {
                e0
            };
            if e > j && valid_state(to_upper(t.subrange(j, e))) {
                task_states(t, e, acc.push(to_upper(t.subrange(j, e))))
            } else {
                None
            }
        }
    }
}

/// The uppercase form of a token.
pub open spec fn to_upper(s: Seq<char>) -> Seq<char> {
    s.map_values(|c: char| crate::text::upper_char(c))
}

/// The parsed primitive a trimmed expression denotes, if any.  The ladder
/// follows the grammar: task, priority, between, all observed tags, page,
/// tags, namespace, property, bare reference, quoted search, plain search.
pub open spec fn prim_of(t: Seq<char>) -> Option<Prim> {
    let l = lower(t);
    if at(l, 0, "(task"@) && "(task"@.len() < t.len() && is_ws(t["(task"@.len() as int]) {
        match task_states(t, "(task"@.len() as int, Seq::empty()) {
            Some(states) => Some(Prim::Task(states)),
            None => None,
        }
    } else if at(l, 0, "(priority"@) && "(priority"@.len() < t.len() && is_ws(
        t["(priority"@.len() as int],
    ) {
        let j = skip_ws_from(t, "(priority"@.len() as int);
        if j < t.len() && (lower_c(t[j]) == 'a' || lower_c(t[j]) == 'b' || lower_c(t[j]) == 'c')
            && skip_ws_from(t, j + 1) == t.len() - 1 && t[t.len() - 1] == ')' {
            Some(Prim::Priority(crate::text::upper_char(t[j])))
        } else {
            None
        }
    } else if at(l, 0, "(between"@) && "(between"@.len() < t.len() && is_ws(
        t["(between"@.len() as int],
    ) {
        between_of(t)
    } else if at(l, 0, "(all-page-tags"@) {
        if all_tags_form(t) {
            Some(Prim::AllTags)
        } else {
            None
        }
    } else if at(l, 0, "(page"@) && "(page"@.len() < t.len() && is_ws(t["(page"@.len() as int]) {
        match bracket_arg(t, skip_ws_from(t, "(page"@.len() as int)) {
            Some(n) => Some(Prim::PageName(n)),
            None => None,
        }
    } else if at(l, 0, "(page-tags"@) && "(page-tags"@.len() < t.len() && is_ws(
        t["(page-tags"@.len() as int],
    ) {
        match bracket_arg(t, skip_ws_from(t, "(page-tags"@.len() as int)) {
            Some(n) => Some(Prim::Tags(n)),
            None => None,
        }
    } else if at(l, 0, "(namespace"@) && "(namespace"@.len() < t.len() && is_ws(
        t["(namespace"@.len() as int],
    ) {
        match bracket_arg(t, skip_ws_from(t, "(namespace"@.len() as int)) {
            Some(n) => Some(Prim::Ns(n)),
            None => None,
        }
    } else if at(l, 0, "(property"@) && "(property"@.len() < t.len() && is_ws(
        t["(property"@.len() as int],
    ) {
        prop_of(t, "(property"@.len() as int)
    } else if at(l, 0, "(page-property"@) && "(page-property"@.len() < t.len() && is_ws(
        t["(page-property"@.len() as int],
    ) {
        prop_of(t, "(page-property"@.len() as int)
    } else if page_ref_form(t) {
        Some(Prim::PageRef(strip_pages(lower(t.subrange(2, t.len() - 2)))))
    } else if quoted_form(t) {
        Some(Prim::Text(lower(t.subrange(1, t.len() - 1))))
    } else if t.len() > 0 && t[0] != '(' && t[0] != '[' {
        let search = remove_quotes(lower(t));
        if search.len() > 2 {
            Some(Prim::Text(search))
        } else {
            None
        }
    } else {
        None
    }
}

/// Lowercase of one character, shorthand.
pub open spec fn lower_c(c: char) -> char {
    crate::text::lower_char(c)
}

/// The whole expression is `(all-page-tags)` with optional inner space.
pub open spec fn all_tags_form(t: Seq<char>) -> bool {
    skip_ws_from(t, "(all-page-tags"@.len() as int) == t.len() - 1 && t.len()
        > "(all-page-tags"@.len() && t[t.len() - 1] == ')'
}

/// The whole expression is a bare `[[name]]` reference.
pub open spec fn page_ref_form(t: Seq<char>) -> bool {
    at(t, 0, "[["@) && t.len() >= 5 && find_from(t, ']', 2) == t.len() - 2 && t[t.len() - 2] == ']'
        && t[t.len() - 1] == ']'
}

/// The whole expression is a quoted search term.
pub open spec fn quoted_form(t: Seq<char>) -> bool {
    t.len() >= 3 && t[0] == '"' && t[t.len() - 1] == '"' && find_from(t, '"', 1) == t.len() - 1
}

/// Double and single quotes removed.
pub open spec fn remove_quotes(s: Seq<char>) -> Seq<char> {
    s.filter(|c: char| c != '"' && c != '\'')
}

/// A `between` expression parsed: two bracketed dates.
pub open spec fn between_of(t: Seq<char>) -> Option<Prim> {
    let i = skip_ws_from(t, "(between"@.len() as int);
    if at(t, i, "[["@) {
        let e = find_from(t, ']', i + 2);
        if e > i + 2 && e + 1 < t.len() && t[e + 1] == ']' && e + 2 < t.len() && is_ws(t[e + 2]) {
            let j = skip_ws_from(t, e + 2);
            if at(t, j, "[["@) {
                let e2 = find_from(t, ']', j + 2);
                if e2 > j + 2 && e2 + 1 < t.len() && t[e2 + 1] == ']' && skip_ws_from(t, e2 + 2)
                    == t.len() - 1 && t[t.len() - 1] == ')' {
                    match (
                        parse_date_spec(t.subrange(i + 2, e)),
                        parse_date_spec(t.subrange(j + 2, e2)),
                    ) {
                        (Some(a), Some(b)) => Some(Prim::Between(a, b)),
                        _ => None,
                    }
                } else {
                    None
                }
            } else {
                None
            }
        } else {
            None
        }
    } else {
        None
    }
}

/// A quoted value at `v0`: `"text"` then optional whitespace and the
/// closing parenthesis ending the expression.
pub open spec fn quoted_val(t: Seq<char>, v0: int) -> Option<Seq<char>> {
    if 0 <= v0 < t.len() && t[v0] == '"' {
        let qe = find_from(t, '"', v0 + 1);
        if qe > v0 + 1 && qe < t.len() && skip_ws_from(t, qe + 1) == t.len() - 1 && t[t.len() - 1]
            == ')' {
            Some(t.subrange(v0 + 1, qe))
        } else {
            None
        }
    } else {
        None
    }
}

/// A `property` expression parsed after its keyword: optional colon, a
/// key, an optional quoted or bare value, a closing parenthesis.
pub open spec fn prop_of(t: Seq<char>, kw_end: int) -> Option<Prim> {
    let j = skip_ws_from(t, kw_end);
    let k0 = if j < t.len() && t[j] == ':' {
        j + 1
    } else {
        j
    };
    if k0 < t.len() && crate::text::is_word(t[k0]) {
        let ke = scan_while(t, Cls::WordDash, k0);
        let key = remove_dashes(lower(t.subrange(k0, ke)));
        if 0 <= ke <= t.len() && skip_ws_from(t, ke) == t.len() - 1 && t.len() >= 1 && t[t.len()
            - 1] == ')' {
            Some(Prim::Prop(key, Seq::empty()))
        } else if ke < t.len() && is_ws(t[ke]) {
            let v0 = skip_ws_from(t, ke);
            match quoted_val(t, v0) {
                Some(qv) => Some(Prim::Prop(key, strip_quote_ends(lower(qv)))),
                None => {
                    if v0 < t.len() && t[v0] != ')' && t[v0] != '"' {
                        let ve = scan_while(t, Cls::NonWs, v0);
                        if ve >= t.len() {
                            if t.len() >= 1 && t[t.len() - 1] == ')' && t.len() - 1 > v0 {
                                Some(
                                    Prim::Prop(
                                        key,
                                        strip_quote_ends(lower(t.subrange(v0, t.len() - 1))),
                                    ),
                                )
                            } else {
                                None
                            }
                        } else if skip_ws_from(t, ve) == t.len() - 1 && t.len() >= 1 && t[t.len()
                            - 1] == ')' && ve > v0 {
                            Some(Prim::Prop(key, strip_quote_ends(lower(t.subrange(v0, ve)))))
                        } else {
                            None
                        }
                    } else {
                        None
                    }
                },
            }
        } else {
            None
        }
    } else {
        None
    }
}

/// Dashes removed from a key.
pub open spec fn remove_dashes(s: Seq<char>) -> Seq<char> {
    s.filter(|c: char| c != '-')
}

/// Quote characters removed from both ends, repeatedly.
pub open spec fn strip_quote_ends(s: Seq<char>) -> Seq<char> {
    strip_all_suffix(strip_all_prefix(s, "\""@), "\""@)
}


/// The integer views of a vector of index positions.
pub open spec fn uviews(r: Seq<usize>) -> Seq<int> {
    r.map_values(|x: usize| x as int)
}

/// Some position of `res` names a page called `name`.
pub open spec fn name_member(res: Seq<int>, index: Seq<Page>, name: Seq<char>) -> bool {
    exists|k: int|
        0 <= k < res.len() && 0 <= res[k] < index.len() && index[#[trigger] res[k]].name@ == name
}

/// Operand splitting: the top-level parts of an operand list, respecting
/// nested parentheses and brackets; a part is kept when it is non-empty
/// and, except for a parenthesized group closed at depth zero, starts with
/// an opening parenthesis or bracket.
pub open spec fn parts_rec(
    s: Seq<char>,
    i: int,
    depth: int,
    inb: int,
    cur: Seq<char>,
    acc: Seq<Seq<char>>,
) -> Seq<Seq<char>>
    decreases s.len() - i,
{
    if i < 0 || i >= s.len() {
        let t = trim_seq(cur);
        if t.len() > 0 && (t[0] == '(' || t[0] == '[') {
            acc.push(t)
        } else {
            acc
        }
    } else {
        let c = s[i];
        if c == '(' {
            parts_rec(s, i + 1, depth + 1, inb, cur.push(c), acc)
        } else if c == ')' {
            let cur2 = cur.push(c);
            if depth - 1 == 0 {
                let t = trim_seq(cur2);
                parts_rec(
                    s,
                    i + 1,
                    0,
                    inb,
                    Seq::empty(),
                    if t.len() > 0 {
                        acc.push(t)
                    } else {
                        acc
                    },
                )
            } else {
                parts_rec(s, i + 1, depth - 1, inb, cur2, acc)
            }
        } else if c == '[' {
            parts_rec(s, i + 1, depth, inb + 1, cur.push(c), acc)
        } else if c == ']' {
            let cur2 = cur.push(c);
            if depth == 0 && inb - 1 == 0 {
                let t = trim_seq(cur2);
                parts_rec(
                    s,
                    i + 1,
                    depth,
                    0,
                    Seq::empty(),
                    if t.len() > 0 && (t[0] == '(' || t[0] == '[') {
                        acc.push(t)
                    } else {
                        acc
                    },
                )
            } else {
                parts_rec(s, i + 1, depth, inb - 1, cur2, acc)
            }
        } else if (c == ' ' || c == '\n' || c == '\t') && depth == 0 && inb == 0 {
            let t = trim_seq(cur);
            parts_rec(
                s,
                i + 1,
                depth,
                inb,
                Seq::empty(),
                if t.len() > 0 && (t[0] == '(' || t[0] == '[') {
                    acc.push(t)
                } else {
                    acc
                },
            )
        } else {
            parts_rec(s, i + 1, depth, inb, cur.push(c), acc)
        }
    }
}

/// The top-level parts of an operand list.
pub open spec fn parts_spec(s: Seq<char>) -> Seq<Seq<char>> {
    parts_rec(s, 0, 0, 0, Seq::empty(), Seq::empty())
}

/// The inner operand list of `(kw ...)`, where the keyword may stand in
/// its lowercase or uppercase form; mixed case is not recognized.
pub open spec fn inner_of(t: Seq<char>, kw: Seq<char>, kwu: Seq<char>) -> Option<Seq<char>> {
    if t.len() >= 1 && at(lower(t), 0, "("@ + kw) && t[t.len() - 1] == ')' {
        let after = t.skip(1);
        if at(after, 0, kw) || at(after, 0, kwu) {
            let x = after.skip(kw.len() as int);
            let j0 = skip_ws_from(x, 0);
            let j = if 0 <= j0 <= x.len() {
                j0
            } else {
                0
            };
            let inner0 = x.skip(j);
            if inner0.len() > 0 && inner0[inner0.len() - 1] == ')' {
                Some(inner0.take(inner0.len() - 1))
            } else {
                None
            }
        } else {
            None
        }
    } else {
        None
    }
}

/// Whether every remaining operand's result holds the name.
pub open spec fn and_sat(
    parts: Seq<Seq<char>>,
    index: Seq<Page>,
    fuel: nat,
    name: Seq<char>,
    j: int,
) -> bool
    decreases fuel, 1nat, parts.len() - j,
{
    if j < 0 || j >= parts.len() {
        true
    } else {
        name_member(eval(parts[j], index, fuel), index, name) && and_sat(
            parts,
            index,
            fuel,
            name,
            j + 1,
        )
    }
}

/// The first operand's result filtered by membership in every other
/// operand's result, keeping the first operand's order.
pub open spec fn and_filter(
    first: Seq<int>,
    parts: Seq<Seq<char>>,
    index: Seq<Page>,
    fuel: nat,
    i: int,
) -> Seq<int>
    decreases fuel, 2nat, first.len() - i,
{
    if i < 0 || i >= first.len() {
        Seq::empty()
    } else {
        (if 0 <= first[i] < index.len() && and_sat(parts, index, fuel, index[first[i]].name@, 1) {
            seq![first[i]]
        } else {
            Seq::empty()
        }) + and_filter(first, parts, index, fuel, i + 1)
    }
}

/// The intersection of the operands of a conjunction.
pub open spec fn eval_and(inner: Seq<char>, index: Seq<Page>, fuel: nat) -> Seq<int>
    decreases fuel, 3nat, 0nat,
{
    let parts = parts_spec(inner);
    if parts.len() == 0 {
        Seq::empty()
    } else {
        and_filter(eval(parts[0], index, fuel), parts, index, fuel, 0)
    }
}

/// The positions of `res`, in order, whose page names are not yet in
/// `acc`, appended to `acc`.
pub open spec fn add_new(acc: Seq<int>, res: Seq<int>, index: Seq<Page>, m: int) -> Seq<int>
    decreases res.len() - m,
{
    if m < 0 || m >= res.len() {
        acc
    } else if 0 <= res[m] < index.len() && !name_member(acc, index, index[res[m]].name@) {
        add_new(acc.push(res[m]), res, index, m + 1)
    } else {
        add_new(acc, res, index, m + 1)
    }
}

/// The union of the operands of a disjunction, in first-seen order,
/// deduplicated by name.
pub open spec fn or_rec(
    parts: Seq<Seq<char>>,
    index: Seq<Page>,
    fuel: nat,
    j: int,
    acc: Seq<int>,
) -> Seq<int>
    decreases fuel, 2nat, parts.len() - j,
{
    if j < 0 || j >= parts.len() {
        acc
    } else {
        or_rec(parts, index, fuel, j + 1, add_new(acc, eval(parts[j], index, fuel), index, 0))
    }
}

/// The complement of a result relative to the whole index, by name, in
/// index order.
pub open spec fn not_filter(excluded: Seq<int>, index: Seq<Page>, k: int) -> Seq<int>
    decreases index.len() - k,
{
    if k < 0 || k >= index.len() {
        Seq::empty()
    } else {
        (if !name_member(excluded, index, index[k].name@) {
            seq![k]
        } else {
            Seq::empty()
        }) + not_filter(excluded, index, k + 1)
    }
}

/// The result of a query expression: positions into the index, evaluated
/// with a recursion budget that the public entry point sets high enough
/// never to run out on any input it can be given.
pub open spec fn eval(expr: Seq<char>, index: Seq<Page>, fuel: nat) -> Seq<int>
    decreases fuel, 0nat, 0nat,
{
    if fuel == 0 {
        Seq::empty()
    } else {
        let t = trim_seq(expr);
        match inner_of(t, "and"@, "AND"@) {
            Some(inner) => eval_and(inner, index, (fuel - 1) as nat),
            None => match inner_of(t, "or"@, "OR"@) {
                Some(inner) => or_rec(
                    parts_spec(inner),
                    index,
                    (fuel - 1) as nat,
                    0,
                    Seq::empty(),
                ),
                None => match inner_of(t, "not"@, "NOT"@) {
                    Some(inner) => not_filter(eval(inner, index, (fuel - 1) as nat), index, 0),
                    None => match prim_of(t) {
                        Some(pr) => filter_sat(index, pr, 0),
                        None => Seq::empty(),
                    },
                },
            },
        }
    }
}

/// The query text prepared for evaluation: trimmed, with the query
/// directive's braces stripped.
pub open spec fn prepared(q: Seq<char>) -> Seq<char> {
    trim_seq(strip_all_suffix(strip_all_prefix(trim_seq(q), "{{query"@), "}}"@))
}

/// The result of one query against the index.
pub open spec fn execute_spec(q: Seq<char>, index: Seq<Page>) -> Seq<int> {
    eval(prepared(q), index, (prepared(q).len() + 1) as nat)
}


/// A primitive predicate in executable form.
pub enum PrimX {
    /// Tag-set containment.
    Tags(Vec<char>),
    /// Exact lowercase name match.
    PageName(Vec<char>),
    /// Namespace equality.
    Ns(Vec<char>),
    /// Property test.
    Prop(Vec<char>, Vec<char>),
    /// Task-state containment.
    Task(Vec<Vec<char>>),
    /// Bracket-priority marker containment.
    Priority(char),
    /// Date range over names.
    Between((u32, u32, u32), (u32, u32, u32)),
    /// Name matches some observed tag.
    AllTags,
    /// Bare page reference.
    PageRef(Vec<char>),
    /// Body substring search.
    Text(Vec<char>),
}

/// The parsed form an executable primitive stands for.
pub open spec fn primx_view(p: PrimX) -> Prim {
    match p {
        PrimX::Tags(t) => Prim::Tags(t@),
        PrimX::PageName(n) => Prim::PageName(n@),
        PrimX::Ns(n) => Prim::Ns(n@),
        PrimX::Prop(k, v) => Prim::Prop(k@, v@),
        PrimX::Task(sts) => Prim::Task(crate::text::vviews(sts@)),
        PrimX::Priority(c) => Prim::Priority(c),
        PrimX::Between(a, b) => Prim::Between(
            (a.0 as int, a.1 as int, a.2 as int),
            (b.0 as int, b.1 as int, b.2 as int),
        ),
        PrimX::AllTags => Prim::AllTags,
        PrimX::PageRef(n) => Prim::PageRef(n@),
        PrimX::Text(t) => Prim::Text(t@),
    }
}

/// Digit runs of up to four digits stay below ten thousand.
pub proof fn lemma_digits_val_bound(s: Seq<char>, a: int, e: int)
    requires
        0 <= a <= e <= s.len(),
        forall|k: int| a <= k < e ==> is_digit(#[trigger] s[k]),
    ensures
        0 <= digits_val(s, a, e),
        e - a <= 1 ==> digits_val(s, a, e) <= 9,
        e - a <= 2 ==> digits_val(s, a, e) <= 99,
        e - a <= 3 ==> digits_val(s, a, e) <= 999,
        e - a <= 4 ==> digits_val(s, a, e) <= 9999,
    decreases e - a,
{
    if a < e {
        lemma_digits_val_bound(s, a, e - 1);
        assert(is_digit(s[e - 1]));
        assert(0 <= s[e - 1] as int - '0' as int <= 9);
    }
}

/// Executable digit-run test matching `all_digits`.
pub fn all_digits_x(v: &Vec<char>, a: usize, b: usize) -> (r: bool)
    requires
        a <= v.len(),
    ensures
        r == all_digits(v@, a as int, b as int),
{
    if a >= b || b > v.len() {
        return false;
    }
    let sc = scan_while_x(v, Cls::Digit, a);
    proof {
        crate::text::lemma_scan_while(v@, Cls::Digit, a as int);
    }
    if sc >= b {
        assert(all_digits(v@, a as int, b as int));
        true
    } else {
        assert(!is_digit(v@[sc as int]));
        assert(!all_digits(v@, a as int, b as int));
        false
    }
}

/// Executable digit-run value matching `digits_val`.
pub fn digits_val_x(v: &Vec<char>, a: usize, e: usize) -> (r: u32)
    requires
        a <= e <= v.len(),
        e - a <= 4,
        forall|k: int| a <= k < e ==> is_digit(#[trigger] v@[k]),
    ensures
        r as int == digits_val(v@, a as int, e as int),
        r <= 9999,
{
    let mut val: u32 = 0;
    let mut i: usize = a;
    while i < e
        invariant
            a <= i <= e <= v.len(),
            e - a <= 4,
            forall|k: int| a <= k < e ==> is_digit(#[trigger] v@[k]),
            val as int == digits_val(v@, a as int, i as int),
            val <= 9999,
        decreases e - i,
    {
        proof {
            lemma_digits_val_bound(v@, a as int, i as int);
            assert(digits_val(v@, a as int, i + 1) == digits_val(v@, a as int, i as int) * 10 + (
            v@[i as int] as int - '0' as int));
        }
        let d = (v[i] as u32) - ('0' as u32);
        val = val * 10 + d;
        i += 1;
    }
    proof {
        lemma_digits_val_bound(v@, a as int, e as int);
    }
    val
}

/// Executable dash normalization matching `underscore_to_dash`.
fn underscore_to_dash_x(v: &Vec<char>) -> (r: Vec<char>)
    ensures
        r@ == underscore_to_dash(v@),
{
    let mut out: Vec<char> = Vec::new();
    let mut i: usize = 0;
    while i < v.len()
        invariant
            i <= v.len(),
            out@ =~= underscore_to_dash(v@).subrange(0, i as int),
        decreases v.len() - i,
    {
        let c = v[i];
        if c == '_' {
            out.push('-');
        } else {
            out.push(c);
        }
        i += 1;
        assert(out@ =~= underscore_to_dash(v@).subrange(0, i as int));
    }
    assert(out@ =~= underscore_to_dash(v@));
    out
}

/// Executable dashed-date parse matching `parse_ymd`.
fn parse_ymd_x(v: &Vec<char>) -> (r: Option<(u32, u32, u32)>)
    ensures
        match r {
            Some(d) => parse_ymd(v@) == Some((d.0 as int, d.1 as int, d.2 as int)),
            None => parse_ymd(v@) is None,
        },
{
    let d1 = find_from_x(v, '-', 0);
    let start2 = if v.len() - d1 >= 1 {
        d1 + 1
    } else {
        v.len()
    };
    assert(find_from(v@, '-', start2 as int) == find_from(v@, '-', d1 + 1));
    let d2 = find_from_x(v, '-', start2);
    if d1 == 4 && all_digits_x(v, 0, d1) && d2 > d1 + 1 && d2 - (d1 + 1) <= 2 && all_digits_x(
        v,
        d1 + 1,
        d2,
    ) && d2 < v.len() && v.len() - (d2 + 1) <= 2 && all_digits_x(v, d2 + 1, v.len()) {
        let y = digits_val_x(v, 0, d1);
        let m = digits_val_x(v, d1 + 1, d2);
        let d = digits_val_x(v, d2 + 1, v.len());
        if valid_date_x(y, m, d) {
            Some((y, m, d))
        } else {
            None
        }
    } else {
        None
    }
}

/// Executable calendar check matching `valid_date`.
fn valid_date_x(y: u32, m: u32, d: u32) -> (r: bool)
    ensures
        r == valid_date(y as int, m as int, d as int),
{
    if !(1 <= m && m <= 12) {
        return false;
    }
    let dim: u32 = if m == 1 || m == 3 || m == 5 || m == 7 || m == 8 || m == 10 || m == 12 {
        31
    } else if m == 4 || m == 6 || m == 9 || m == 11 {
        30
    } else {
        if (y % 4 == 0 && y % 100 != 0) || y % 400 == 0 {
            29
        } else {
            28
        }
    };
    1 <= d && d <= dim
}

/// Executable month-name lookup matching `month_of`.
fn month_of_x(p: &Vec<char>) -> (r: u32)
    ensures
        r as int == month_of(p@),
{
    if eq_vecs(p, &str_to_chars("jan")) {
        1
    } else if eq_vecs(p, &str_to_chars("feb")) {
        2
    } else if eq_vecs(p, &str_to_chars("mar")) {
        3
    } else if eq_vecs(p, &str_to_chars("apr")) {
        4
    } else if eq_vecs(p, &str_to_chars("may")) {
        5
    } else if eq_vecs(p, &str_to_chars("jun")) {
        6
    } else if eq_vecs(p, &str_to_chars("jul")) {
        7
    } else if eq_vecs(p, &str_to_chars("aug")) {
        8
    } else if eq_vecs(p, &str_to_chars("sep")) {
        9
    } else if eq_vecs(p, &str_to_chars("oct")) {
        10
    } else if eq_vecs(p, &str_to_chars("nov")) {
        11
    } else if eq_vecs(p, &str_to_chars("dec")) {
        12
    } else {
        0
    }
}

/// Executable month-name date parse matching `parse_month_name`.
fn parse_month_name_x(v: &Vec<char>) -> (r: Option<(u32, u32, u32)>)
    ensures
        match r {
            Some(d) => parse_month_name(v@) == Some((d.0 as int, d.1 as int, d.2 as int)),
            None => parse_month_name(v@) is None,
        },
{
    if v.len() < 3 {
        return None;
    }
    let p3 = lower_vec(&seg_vec(v, 0, 3));
    assert(p3@ == lower(v@.subrange(0, 3)));
    let m = month_of_x(&p3);
    if m == 0 {
        return None;
    }
    let e = scan_while_x(v, Cls::Letter, 3);
    if !(e < v.len() && is_ws_x(v[e])) {
        return None;
    }
    let j = skip_ws_from_x(v, e);
    let de = scan_while_x(v, Cls::Digit, j);
    if !(de > j && de - j <= 2 && all_digits_x(v, j, de)) {
        return None;
    }
    let d = digits_val_x(v, j, de);
    let p1 = if v.len() - de >= 2 && {
        let sfx = lower_vec(&seg_vec(v, de, de + 2));
        assert(sfx@ == lower(v@.subrange(de as int, de + 2)));
        eq_vecs(&sfx, &str_to_chars("st")) || eq_vecs(&sfx, &str_to_chars("nd")) || eq_vecs(
            &sfx,
            &str_to_chars("rd"),
        ) || eq_vecs(&sfx, &str_to_chars("th"))
    } {
        de + 2
    } else {
        de
    };
    let p2 = if p1 < v.len() && v[p1] == ',' {
        p1 + 1
    } else {
        p1
    };
    if !(p2 < v.len() && is_ws_x(v[p2])) {
        return None;
    }
    let y0 = skip_ws_from_x(v, p2);
    if !(v.len() - y0 == 4 && all_digits_x(v, y0, v.len())) {
        return None;
    }
    let y = digits_val_x(v, y0, v.len());
    if valid_date_x(y, m, d) {
        Some((y, m, d))
    } else {
        None
    }
}

/// Executable date parse matching `parse_date_spec`.
fn parse_date_x(v: &Vec<char>) -> (r: Option<(u32, u32, u32)>)
    ensures
        match r {
            Some(d) => parse_date_spec(v@) == Some((d.0 as int, d.1 as int, d.2 as int)),
            None => parse_date_spec(v@) is None,
        },
{
    let norm = underscore_to_dash_x(v);
    match parse_ymd_x(&norm) {
        Some(d) => Some(d),
        None => parse_month_name_x(v),
    }
}

/// Executable date comparison matching `date_le`.
fn date_le_x(a: (u32, u32, u32), b: (u32, u32, u32)) -> (r: bool)
    ensures
        r == date_le((a.0 as int, a.1 as int, a.2 as int), (b.0 as int, b.1 as int, b.2 as int)),
{
    a.0 < b.0 || (a.0 == b.0 && (a.1 < b.1 || (a.1 == b.1 && a.2 <= b.2)))
}


/// Executable bracketed-argument parse matching `bracket_arg`.
fn bracket_arg_x(t: &Vec<char>, i: usize) -> (r: Option<Vec<char>>)
    requires
        i <= t.len(),
    ensures
        match r {
            Some(n) => bracket_arg(t@, i as int) == Some(n@),
            None => bracket_arg(t@, i as int) is None,
        },
{
    let br = str_to_chars("[[");
    if !at_x(t, i, &br) {
        return None;
    }
    proof {
        reveal_strlit("[[");
    }
    let c0 = i + 2;
    let e = find_from_x(t, ']', c0);
    if e > c0 && t.len() - e > 1 && t[e + 1] == ']' && skip_ws_from_x(t, e + 2) == t.len() - 1
        && t[t.len() - 1] == ')' {
        let raw = lower_vec(&seg_vec(t, c0, e));
        assert(raw@ == lower(t@.subrange(c0 as int, e as int)));
        Some(strip_pages_x(&raw))
    } else {
        None
    }
}

/// Executable root-prefix strip matching `strip_pages`.
fn strip_pages_x(v: &Vec<char>) -> (r: Vec<char>)
    ensures
        r@ == strip_pages(v@),
{
    let pp = str_to_chars("pages/");
    if at_x(v, 0, &pp) {
        let c = seg_vec(v, pp.len(), v.len());
        assert(c@ =~= v@.skip("pages/"@.len() as int));
        c
    } else {
        let c = seg_vec(v, 0, v.len());
        assert(c@ =~= v@);
        c
    }
}

/// Executable uppercase conversion matching `to_upper`.
fn to_upper_x(v: &Vec<char>) -> (r: Vec<char>)
    ensures
        r@ == to_upper(v@),
{
    let mut out: Vec<char> = Vec::new();
    let mut i: usize = 0;
    while i < v.len()
        invariant
            i <= v.len(),
            out@ =~= to_upper(v@).subrange(0, i as int),
        decreases v.len() - i,
    {
        out.push(crate::text::upper_char_x(v[i]));
        i += 1;
        assert(out@ =~= to_upper(v@).subrange(0, i as int));
    }
    assert(out@ =~= to_upper(v@));
    out
}

/// Executable state-keyword test matching `valid_state`.
fn valid_state_x(t: &Vec<char>) -> (r: bool)
    ensures
        r == valid_state(t@),
{
    eq_vecs(t, &str_to_chars("TODO")) || eq_vecs(t, &str_to_chars("DONE")) || eq_vecs(
        t,
        &str_to_chars("NOW"),
    ) || eq_vecs(t, &str_to_chars("DOING")) || eq_vecs(t, &str_to_chars("LATER")) || eq_vecs(
        t,
        &str_to_chars("WAITING"),
    ) || eq_vecs(t, &str_to_chars("CANCELLED"))
}

/// Executable task-state list parse matching `task_states`.
fn task_states_x(t: &Vec<char>, i: usize, acc: Vec<Vec<char>>) -> (r: Option<Vec<Vec<char>>>)
    requires
        i <= t.len(),
    ensures
        match r {
            Some(sts) => task_states(t@, i as int, crate::text::vviews(acc@)) == Some(
                crate::text::vviews(sts@),
            ),
            None => task_states(t@, i as int, crate::text::vviews(acc@)) is None,
        },
    decreases t.len() - i,
{
    let j = skip_ws_from_x(t, i);
    if t.len() >= 1 && j == t.len() - 1 && t[j] == ')' {
        if acc.len() > 0 {
            Some(acc)
        } else {
            None
        }
    } else {
        let e = scan_while_x(t, Cls::Letter, j);
        if e > j {
            let tok = to_upper_x(&seg_vec(t, j, e));
            assert(tok@ == to_upper(t@.subrange(j as int, e as int)));
            if valid_state_x(&tok) {
                let ghost oldv = crate::text::vviews(acc@);
                let mut acc2 = acc;
                acc2.push(tok);
                proof {
                    assert(crate::text::vviews(acc2@) =~= oldv.push(to_upper(
                        t@.subrange(j as int, e as int),
                    )));
                }
                task_states_x(t, e, acc2)
            } else {
                None
            }
        } else {
            None
        }
    }
}

/// Executable property-expression parse matching `prop_of`.
fn prop_of_x(t: &Vec<char>, kw_end: usize) -> (r: Option<PrimX>)
    requires
        kw_end <= t.len(),
    ensures
        match r {
            Some(p) => prop_of(t@, kw_end as int) == Some(primx_view(p)),
            None => prop_of(t@, kw_end as int) is None,
        },
{
    let j = skip_ws_from_x(t, kw_end);
    let k0 = if j < t.len() && t[j] == ':' {
        j + 1
    } else {
        j
    };
    if !(k0 < t.len() && {
        let c = t[k0];
        ('0' <= c && c <= '9') || ('A' <= c && c <= 'Z') || ('a' <= c && c <= 'z') || c == '_'
    }) {
        return None;
    }
    let ke = scan_while_x(t, Cls::WordDash, k0);
    let key = remove_dashes_x(&lower_vec(&seg_vec(t, k0, ke)));
    assert(key@ == remove_dashes(lower(t@.subrange(k0 as int, ke as int))));
    if t.len() >= 1 && skip_ws_from_x(t, ke) == t.len() - 1 && t[t.len() - 1] == ')' {
        let empty_v: Vec<char> = Vec::new();
        assert(empty_v@ =~= Seq::<char>::empty());
        return Some(PrimX::Prop(key, empty_v));
    }
    if !(ke < t.len() && is_ws_x(t[ke])) {
        return None;
    }
    let v0 = skip_ws_from_x(t, ke);
    match quoted_val_x(t, v0) {
        Some(qv) => {
            let val = strip_quote_ends_x(&lower_vec(&qv));
            assert(val@ == strip_quote_ends(lower(qv@)));
            Some(PrimX::Prop(key, val))
        },
        None => {
            if v0 < t.len() && t[v0] != ')' && t[v0] != '"' {
                let ve = scan_while_x(t, Cls::NonWs, v0);
                if ve >= t.len() {
                    if t[t.len() - 1] == ')' && t.len() - 1 > v0 {
                        let val = strip_quote_ends_x(&lower_vec(&seg_vec(t, v0, t.len() - 1)));
                        assert(val@ == strip_quote_ends(lower(t@.subrange(v0 as int, t@.len() - 1))));
                        Some(PrimX::Prop(key, val))
                    } else {
                        None
                    }
                } else if skip_ws_from_x(t, ve) == t.len() - 1 && t[t.len() - 1] == ')' && ve > v0 {
                    let val = strip_quote_ends_x(&lower_vec(&seg_vec(t, v0, ve)));
                    assert(val@ == strip_quote_ends(lower(t@.subrange(v0 as int, ve as int))));
                    Some(PrimX::Prop(key, val))
                } else {
                    None
                }
            } else {
                None
            }
        },
    }
}

/// Executable quoted-value parse matching `quoted_val`.
fn quoted_val_x(t: &Vec<char>, v0: usize) -> (r: Option<Vec<char>>)
    requires
        v0 <= t.len(),
    ensures
        match r {
            Some(qv) => quoted_val(t@, v0 as int) == Some(qv@),
            None => quoted_val(t@, v0 as int) is None,
        },
{
    if v0 < t.len() && t[v0] == '"' {
        let qe = find_from_x(t, '"', v0 + 1);
        if qe > v0 + 1 && qe < t.len() && skip_ws_from_x(t, qe + 1) == t.len() - 1 && t[t.len()
            - 1] == ')' {
            Some(seg_vec(t, v0 + 1, qe))
        } else {
            None
        }
    } else {
        None
    }
}

/// Executable dash removal matching `remove_dashes`.
fn remove_dashes_x(v: &Vec<char>) -> (r: Vec<char>)
    ensures
        r@ == remove_dashes(v@),
{
    let mut out: Vec<char> = Vec::new();
    let mut i: usize = 0;
    while i < v.len()
        invariant
            i <= v.len(),
            out@ =~= v@.subrange(0, i as int).filter(|c: char| c != '-'),
        decreases v.len() - i,
    {
        let ghost pre = v@.subrange(0, i as int);
        let c = v[i];
        if c != '-' {
            out.push(c);
        }
        proof {
            assert(v@.subrange(0, i + 1) =~= pre.push(v@[i as int]));
            reveal(Seq::filter);
            assert(pre.push(v@[i as int]).drop_last() =~= pre);
            assert(pre.push(v@[i as int]).last() == v@[i as int]);
            assert(pre.push(v@[i as int]).filter(|c: char| c != '-') == if v@[i as int] != '-' {
                pre.filter(|c: char| c != '-').push(v@[i as int])
            } else {
                pre.filter(|c: char| c != '-')
            });
            assert(out@ =~= v@.subrange(0, i + 1).filter(|c: char| c != '-'));
        }
        i += 1;
    }
    assert(v@.subrange(0, v@.len() as int) =~= v@);
    out
}

/// Executable quote removal matching `remove_quotes`.
fn remove_quotes_x(v: &Vec<char>) -> (r: Vec<char>)
    ensures
        r@ == remove_quotes(v@),
{
    let mut out: Vec<char> = Vec::new();
    let mut i: usize = 0;
    while i < v.len()
        invariant
            i <= v.len(),
            out@ =~= v@.subrange(0, i as int).filter(|c: char| c != '"' && c != '\''),
        decreases v.len() - i,
    {
        let ghost pre = v@.subrange(0, i as int);
        let c = v[i];
        if c != '"' && c != '\'' {
            out.push(c);
        }
        proof {
            assert(v@.subrange(0, i + 1) =~= pre.push(v@[i as int]));
            reveal(Seq::filter);
            assert(pre.push(v@[i as int]).drop_last() =~= pre);
            assert(pre.push(v@[i as int]).last() == v@[i as int]);
            assert(pre.push(v@[i as int]).filter(|c: char| c != '"' && c != '\'') == if v@[i as int]
                != '"' && v@[i as int] != '\'' {
                pre.filter(|c: char| c != '"' && c != '\'').push(v@[i as int])
            } else {
                pre.filter(|c: char| c != '"' && c != '\'')
            });
            assert(out@ =~= v@.subrange(0, i + 1).filter(|c: char| c != '"' && c != '\''));
        }
        i += 1;
    }
    assert(v@.subrange(0, v@.len() as int) =~= v@);
    out
}

/// Executable quote-end stripping matching `strip_quote_ends`.
fn strip_quote_ends_x(v: &Vec<char>) -> (r: Vec<char>)
    ensures
        r@ == strip_quote_ends(v@),
{
    let q = str_to_chars("\"");
    let a = strip_all_prefix_x(v, &q);
    strip_all_suffix_x(&a, &q)
}

/// Executable primitive parse matching `prim_of`.
fn prim_of_x(t: &Vec<char>) -> (r: Option<PrimX>)
    ensures
        match r {
            Some(p) => prim_of(t@) == Some(primx_view(p)),
            None => prim_of(t@) is None,
        },
{
    let l = lower_vec(t);
    let kw_task = str_to_chars("(task");
    if at_x(&l, 0, &kw_task) && t.len() > kw_task.len() && is_ws_x(t[kw_task.len()]) {
        let empty_acc: Vec<Vec<char>> = Vec::new();
        assert(crate::text::vviews(empty_acc@) =~= Seq::<Seq<char>>::empty());
        return match task_states_x(t, kw_task.len(), empty_acc) {
            Some(states) => Some(PrimX::Task(states)),
            None => None,
        };
    }
    let kw_prio = str_to_chars("(priority");
    if at_x(&l, 0, &kw_prio) && t.len() > kw_prio.len() && is_ws_x(t[kw_prio.len()]) {
        let j = skip_ws_from_x(t, kw_prio.len());
        if j < t.len() && {
            let lc = crate::text::lower_char_x(t[j]);
            lc == 'a' || lc == 'b' || lc == 'c'
        } && skip_ws_from_x(t, j + 1) == t.len() - 1 && t[t.len() - 1] == ')' {
            return Some(PrimX::Priority(crate::text::upper_char_x(t[j])));
        }
        return None;
    }
    let kw_btw = str_to_chars("(between");
    if at_x(&l, 0, &kw_btw) && t.len() > kw_btw.len() && is_ws_x(t[kw_btw.len()]) {
        return between_of_x(t, kw_btw.len());
    }
    let kw_apt = str_to_chars("(all-page-tags");
    if at_x(&l, 0, &kw_apt) {
        if t.len() > kw_apt.len() && skip_ws_from_x(t, kw_apt.len()) == t.len() - 1 && t[t.len()
            - 1] == ')' {
            return Some(PrimX::AllTags);
        }
        assert(!all_tags_form(t@));
        return None;
    }
    let kw_page = str_to_chars("(page");
    if at_x(&l, 0, &kw_page) && t.len() > kw_page.len() && is_ws_x(t[kw_page.len()]) {
        return match bracket_arg_x(t, skip_ws_from_x(t, kw_page.len())) {
            Some(n) => Some(PrimX::PageName(n)),
            None => None,
        };
    }
    let kw_ptags = str_to_chars("(page-tags");
    if at_x(&l, 0, &kw_ptags) && t.len() > kw_ptags.len() && is_ws_x(t[kw_ptags.len()]) {
        return match bracket_arg_x(t, skip_ws_from_x(t, kw_ptags.len())) {
            Some(n) => Some(PrimX::Tags(n)),
            None => None,
        };
    }
    let kw_ns = str_to_chars("(namespace");
    if at_x(&l, 0, &kw_ns) && t.len() > kw_ns.len() && is_ws_x(t[kw_ns.len()]) {
        return match bracket_arg_x(t, skip_ws_from_x(t, kw_ns.len())) {
            Some(n) => Some(PrimX::Ns(n)),
            None => None,
        };
    }
    let kw_prop = str_to_chars("(property");
    if at_x(&l, 0, &kw_prop) && t.len() > kw_prop.len() && is_ws_x(t[kw_prop.len()]) {
        return prop_of_x(t, kw_prop.len());
    }
    let kw_pprop = str_to_chars("(page-property");
    if at_x(&l, 0, &kw_pprop) && t.len() > kw_pprop.len() && is_ws_x(t[kw_pprop.len()]) {
        return prop_of_x(t, kw_pprop.len());
    }
    if page_ref_form_x(t) {
        let n = strip_pages_x(&lower_vec(&seg_vec(t, 2, t.len() - 2)));
        assert(n@ == strip_pages(lower(t@.subrange(2, t@.len() - 2))));
        return Some(PrimX::PageRef(n));
    }
    if quoted_form_x(t) {
        let n = lower_vec(&seg_vec(t, 1, t.len() - 1));
        assert(n@ == lower(t@.subrange(1, t@.len() - 1)));
        return Some(PrimX::Text(n));
    }
    if t.len() > 0 && t[0] != '(' && t[0] != '[' {
        let search = remove_quotes_x(&lower_vec(t));
        assert(search@ == remove_quotes(lower(t@)));
        if search.len() > 2 {
            return Some(PrimX::Text(search));
        }
        return None;
    }
    None
}

/// Executable bare-reference shape test matching `page_ref_form`.
fn page_ref_form_x(t: &Vec<char>) -> (r: bool)
    ensures
        r == page_ref_form(t@),
{
    let br = str_to_chars("[[");
    if !at_x(t, 0, &br) {
        return false;
    }
    proof {
        reveal_strlit("[[");
    }
    if t.len() < 5 {
        return false;
    }
    let e = find_from_x(t, ']', 2);
    e == t.len() - 2 && t[t.len() - 2] == ']' && t[t.len() - 1] == ']'
}

/// Executable quoted-search shape test matching `quoted_form`.
fn quoted_form_x(t: &Vec<char>) -> (r: bool)
    ensures
        r == quoted_form(t@),
{
    if t.len() < 3 || t[0] != '"' || t[t.len() - 1] != '"' {
        return false;
    }
    let e = find_from_x(t, '"', 1);
    e == t.len() - 1
}

/// Executable between-expression parse matching `between_of`.
fn between_of_x(t: &Vec<char>, kw_end: usize) -> (r: Option<PrimX>)
    requires
        kw_end <= t.len(),
        kw_end as int == "(between"@.len(),
    ensures
        match r {
            Some(p) => between_of(t@) == Some(primx_view(p)),
            None => between_of(t@) is None,
        },
{
    let i = skip_ws_from_x(t, kw_end);
    let br = str_to_chars("[[");
    if !at_x(t, i, &br) {
        return None;
    }
    proof {
        reveal_strlit("[[");
    }
    let e = find_from_x(t, ']', i + 2);
    if !(e > i + 2 && t.len() - e > 1 && t[e + 1] == ']' && t.len() - e > 2 && is_ws_x(
        t[e + 2],
    )) {
        return None;
    }
    let j = skip_ws_from_x(t, e + 2);
    if !at_x(t, j, &br) {
        return None;
    }
    let e2 = find_from_x(t, ']', j + 2);
    if !(e2 > j + 2 && t.len() - e2 > 1 && t[e2 + 1] == ']' && skip_ws_from_x(t, e2 + 2) == t.len()
        - 1 && t[t.len() - 1] == ')') {
        return None;
    }
    let da = parse_date_x(&seg_vec(t, i + 2, e));
    let db = parse_date_x(&seg_vec(t, j + 2, e2));
    match (da, db) {
        (Some(a), Some(b)) => Some(PrimX::Between(a, b)),
        _ => None,
    }
}


/// Executable observed-tag test matching `tag_observed`.
fn tag_observed_x(index: &Vec<Page>, name: &Vec<char>) -> (r: bool)
    ensures
        r == tag_observed(index@, name@),
{
    let mut i: usize = 0;
    while i < index.len()
        invariant
            i <= index@.len(),
            forall|a: int|
                0 <= a < i ==> !seq_contains_str(sviews((#[trigger] index@[a]).tags@), name@),
        decreases index@.len() - i,
    {
        if vec_contains_str(&index[i].tags, name) {
            return true;
        }
        i += 1;
    }
    false
}

/// Executable satisfaction test matching `prim_sat`.
fn prim_sat_x(pr: &PrimX, p: &Page, index: &Vec<Page>) -> (r: bool)
    ensures
        r == prim_sat(primx_view(*pr), *p, index@),
{
    match pr {
        PrimX::Tags(t) => vec_contains_str(&p.tags, t),
        PrimX::PageName(n) => str_eq_chars(&p.name_lower, n),
        PrimX::Ns(n) => match &p.namespace {
            Some(ns) => {
                let nl = lower_vec(&str_to_chars(ns.as_str()));
                eq_vecs(&nl, n)
            },
            None => false,
        },
        PrimX::Prop(k, v) => {
            let pv: Vec<char> = match plookup_x(&p.properties, k) {
                Some(x) => lower_vec(&str_to_chars(x.as_str())),
                None => Vec::new(),
            };
            proof {
                assert(pv@ == (match plookup(pviews(p.properties@), k@) {
                    Some(x) => lower(x),
                    None => Seq::<char>::empty(),
                }));
            }
            if v.len() == 0 {
                pv.len() > 0
            } else {
                eq_vecs(&pv, v) || contains_seq_x(&pv, v)
            }
        },
        PrimX::Task(states) => {
            let content = str_to_chars(p.content.as_str());
            let mut j: usize = 0;
            let mut hit = false;
            while j < states.len()
                invariant
                    j <= states@.len(),
                    content@ == p.content@,
                    hit == !(any_task_sat(*p, crate::text::vviews(states@), 0) == any_task_sat(
                        *p,
                        crate::text::vviews(states@),
                        j as int,
                    )) || (hit && any_task_sat(*p, crate::text::vviews(states@), 0)),
                    !hit ==> any_task_sat(*p, crate::text::vviews(states@), 0) == any_task_sat(
                        *p,
                        crate::text::vviews(states@),
                        j as int,
                    ),
                    hit ==> any_task_sat(*p, crate::text::vviews(states@), 0),
                decreases states@.len() - j,
            {
                let ghost j0 = j as int;
                let ghost sv = crate::text::vviews(states@);
                if !hit {
                    let mut p1 = str_to_chars("- ");
                    push_all(&mut p1, &states[j]);
                    push_str_chars(&mut p1, " ");
                    let mut p2 = str_to_chars("\n");
                    push_all(&mut p2, &states[j]);
                    push_str_chars(&mut p2, " ");
                    proof {
                        assert(p1@ =~= "- "@ + sv[j0] + " "@);
                        assert(p2@ =~= "\n"@ + sv[j0] + " "@);
                        assert(any_task_sat(*p, sv, j0) == (task_state_sat(*p, sv[j0])
                            || any_task_sat(*p, sv, j0 + 1)));
                    }
                    if contains_seq_x(&content, &p1) || contains_seq_x(&content, &p2) {
                        hit = true;
                    }
                }
                j += 1;
            }
            hit
        },
        PrimX::Priority(c) => {
            let mut pat = str_to_chars("[#");
            pat.push(*c);
            push_str_chars(&mut pat, "]");
            assert(pat@ =~= "[#"@ + seq![*c] + "]"@);
            let content = str_to_chars(p.content.as_str());
            contains_seq_x(&content, &pat)
        },
        PrimX::Between(a, b) => {
            let nv = str_to_chars(p.name.as_str());
            let jp = str_to_chars("journals/");
            let nm: Vec<char> = if at_x(&nv, 0, &jp) {
                let c = seg_vec(&nv, jp.len(), nv.len());
                assert(c@ =~= p.name@.skip("journals/"@.len() as int));
                c
            } else {
                let c = seg_vec(&nv, 0, nv.len());
                assert(c@ =~= p.name@);
                c
            };
            match parse_date_x(&nm) {
                Some(d) => date_le_x(*a, d) && date_le_x(d, *b),
                None => false,
            }
        },
        PrimX::AllTags => tag_observed_x(index, &str_to_chars(p.name_lower.as_str())),
        PrimX::PageRef(n) => {
            if str_eq_chars(&p.name_lower, n) {
                true
            } else {
                let lc = lower_vec(&str_to_chars(p.content.as_str()));
                let mut pat = str_to_chars("[[");
                push_all(&mut pat, n);
                push_str_chars(&mut pat, "]]");
                assert(pat@ =~= "[["@ + n@ + "]]"@);
                contains_seq_x(&lc, &pat)
            }
        },
        PrimX::Text(t) => {
            let lc = lower_vec(&str_to_chars(p.content.as_str()));
            contains_seq_x(&lc, t)
        },
    }
}

/// Executable index filtering matching `filter_sat`.
fn filter_sat_x(index: &Vec<Page>, pr: &PrimX) -> (r: Vec<usize>)
    ensures
        uviews(r@) == filter_sat(index@, primx_view(*pr), 0),
        forall|k: int| 0 <= k < r@.len() ==> (r@[k] as int) < index@.len(),
{
    let mut out: Vec<usize> = Vec::new();
    let mut i: usize = 0;
    assert(uviews(out@) =~= Seq::<int>::empty());
    while i < index.len()
        invariant
            i <= index@.len(),
            filter_sat(index@, primx_view(*pr), 0) =~= uviews(out@) + filter_sat(
                index@,
                primx_view(*pr),
                i as int,
            ),
            forall|k: int| 0 <= k < out@.len() ==> (out@[k] as int) < index@.len(),
        decreases index@.len() - i,
    {
        let ghost i0 = i as int;
        proof {
            assert(filter_sat(index@, primx_view(*pr), i0) =~= (if prim_sat(
                primx_view(*pr),
                index@[i0],
                index@,
            ) {
                seq![i0]
            } else {
                Seq::<int>::empty()
            }) + filter_sat(index@, primx_view(*pr), i0 + 1));
        }
        if prim_sat_x(pr, &index[i], index) {
            out.push(i);
            proof {
                assert(uviews(out@) =~= uviews(out@.drop_last()).push(i0));
            }
        }
        i += 1;
    }
    assert(filter_sat(index@, primx_view(*pr), index@.len() as int) =~= Seq::<int>::empty());
    assert(uviews(out@) =~= uviews(out@) + Seq::<int>::empty());
    out
}

/// Executable operand splitting matching `parts_spec`.
fn parts_x(v: &Vec<char>) -> (r: Vec<Vec<char>>)
    ensures
        crate::text::vviews(r@) == parts_spec(v@),
{
    let mut acc: Vec<Vec<char>> = Vec::new();
    let mut cur: Vec<char> = Vec::new();
    let mut depth: i128 = 0;
    let mut inb: i128 = 0;
    let mut i: usize = 0;
    assert(crate::text::vviews(acc@) =~= Seq::<Seq<char>>::empty());
    assert(cur@ =~= Seq::<char>::empty());
    while i < v.len()
        invariant
            i <= v.len(),
            -(i as int) <= depth as int <= i as int,
            -(i as int) <= inb as int <= i as int,
            parts_spec(v@) == parts_rec(
                v@,
                i as int,
                depth as int,
                inb as int,
                cur@,
                crate::text::vviews(acc@),
            ),
        decreases v.len() - i,
    {
        let ghost i0 = i as int;
        let ghost d0 = depth as int;
        let ghost b0 = inb as int;
        let ghost curv = cur@;
        let ghost accv = crate::text::vviews(acc@);
        let c = v[i];
        if c == '(' {
            cur.push(c);
            depth = depth + 1;
            proof {
                assert(parts_rec(v@, i0, d0, b0, curv, accv) == parts_rec(
                    v@,
                    i0 + 1,
                    d0 + 1,
                    b0,
                    curv.push(v@[i0]),
                    accv,
                ));
            }
        } else if c == ')' {
            cur.push(c);
            if depth - 1 == 0 {
                let t = trim_vec(&cur);
                proof {
                    assert(parts_rec(v@, i0, d0, b0, curv, accv) == parts_rec(
                        v@,
                        i0 + 1,
                        0,
                        b0,
                        Seq::empty(),
                        if trim_seq(curv.push(v@[i0])).len() > 0 {
                            accv.push(trim_seq(curv.push(v@[i0])))
                        } else {
                            accv
                        },
                    ));
                }
                if t.len() > 0 {
                    acc.push(t);
                    proof {
                        assert(crate::text::vviews(acc@) =~= accv.push(
                            trim_seq(curv.push(v@[i0])),
                        ));
                    }
                }
                cur = Vec::new();
                assert(cur@ =~= Seq::<char>::empty());
                depth = 0;
            } else {
                depth = depth - 1;
                proof {
                    assert(parts_rec(v@, i0, d0, b0, curv, accv) == parts_rec(
                        v@,
                        i0 + 1,
                        d0 - 1,
                        b0,
                        curv.push(v@[i0]),
                        accv,
                    ));
                }
            }
        } else if c == '[' {
            cur.push(c);
            inb = inb + 1;
            proof {
                assert(parts_rec(v@, i0, d0, b0, curv, accv) == parts_rec(
                    v@,
                    i0 + 1,
                    d0,
                    b0 + 1,
                    curv.push(v@[i0]),
                    accv,
                ));
            }
        } else if c == ']' {
            cur.push(c);
            if depth == 0 && inb - 1 == 0 {
                let t = trim_vec(&cur);
                proof {
                    assert(parts_rec(v@, i0, d0, b0, curv, accv) == parts_rec(
                        v@,
                        i0 + 1,
                        d0,
                        0,
                        Seq::empty(),
                        if trim_seq(curv.push(v@[i0])).len() > 0 && (trim_seq(curv.push(v@[i0]))[0]
                            == '(' || trim_seq(curv.push(v@[i0]))[0] == '[') {
                            accv.push(trim_seq(curv.push(v@[i0])))
                        } else {
                            accv
                        },
                    ));
                }
                if t.len() > 0 && (t[0] == '(' || t[0] == '[') {
                    acc.push(t);
                    proof {
                        assert(crate::text::vviews(acc@) =~= accv.push(
                            trim_seq(curv.push(v@[i0])),
                        ));
                    }
                }
                cur = Vec::new();
                assert(cur@ =~= Seq::<char>::empty());
                inb = 0;
            } else {
                inb = inb - 1;
                proof {
                    assert(parts_rec(v@, i0, d0, b0, curv, accv) == parts_rec(
                        v@,
                        i0 + 1,
                        d0,
                        b0 - 1,
                        curv.push(v@[i0]),
                        accv,
                    ));
                }
            }
        } else if (c == ' ' || c == '\n' || c == '\t') && depth == 0 && inb == 0 {
            let t = trim_vec(&cur);
            proof {
                assert(parts_rec(v@, i0, d0, b0, curv, accv) == parts_rec(
                    v@,
                    i0 + 1,
                    d0,
                    b0,
                    Seq::empty(),
                    if trim_seq(curv).len() > 0 && (trim_seq(curv)[0] == '(' || trim_seq(curv)[0]
                        == '[') {
                        accv.push(trim_seq(curv))
                    } else {
                        accv
                    },
                ));
            }
            if t.len() > 0 && (t[0] == '(' || t[0] == '[') {
                acc.push(t);
                proof {
                    assert(crate::text::vviews(acc@) =~= accv.push(trim_seq(curv)));
                }
            }
            cur = Vec::new();
            assert(cur@ =~= Seq::<char>::empty());
        } else {
            cur.push(c);
            proof {
                assert(parts_rec(v@, i0, d0, b0, curv, accv) == parts_rec(
                    v@,
                    i0 + 1,
                    d0,
                    b0,
                    curv.push(v@[i0]),
                    accv,
                ));
            }
        }
        i += 1;
    }
    let t = trim_vec(&cur);
    let ghost accv = crate::text::vviews(acc@);
    let ghost curv = cur@;
    if t.len() > 0 && (t[0] == '(' || t[0] == '[') {
        acc.push(t);
        proof {
            assert(crate::text::vviews(acc@) =~= accv.push(trim_seq(curv)));
        }
    }
    acc
}

/// Executable membership test matching `name_member`.
fn name_member_x(res: &Vec<usize>, index: &Vec<Page>, name: &Vec<char>) -> (r: bool)
    ensures
        r == name_member(uviews(res@), index@, name@),
{
    let mut m: usize = 0;
    while m < res.len()
        invariant
            m <= res@.len(),
            forall|k: int|
                0 <= k < m ==> !(0 <= uviews(res@)[k] < index@.len() && index@[#[trigger] uviews(
                    res@,
                )[k]].name@ == name@),
        decreases res@.len() - m,
    {
        let idx = res[m];
        if idx < index.len() && str_eq_chars(&index[idx].name, name) {
            assert(uviews(res@)[m as int] == idx as int);
            return true;
        }
        assert(uviews(res@)[m as int] == idx as int);
        m += 1;
    }
    false
}

/// Executable extraction of an operator's inner operand list matching
/// `inner_of`.
fn inner_of_x(t: &Vec<char>, kw: &str, kwu: &str) -> (r: Option<Vec<char>>)
    requires
        kw@.len() == kwu@.len(),
    ensures
        match r {
            Some(x) => inner_of(t@, kw@, kwu@) == Some(x@),
            None => inner_of(t@, kw@, kwu@) is None,
        },
{
    let mut pat = str_to_chars("(");
    let kwv = str_to_chars(kw);
    let kwuv = str_to_chars(kwu);
    push_all(&mut pat, &kwv);
    assert(pat@ =~= "("@ + kw@);
    let lt = lower_vec(t);
    if !(t.len() >= 1 && at_x(&lt, 0, &pat) && t[t.len() - 1] == ')') {
        return None;
    }
    let after = seg_vec(t, 1, t.len());
    assert(after@ =~= t@.skip(1));
    let hit_l = at_x(&after, 0, &kwv);
    let hit_u = if hit_l {
        false
    } else {
        at_x(&after, 0, &kwuv)
    };
    if !(hit_l || hit_u) {
        return None;
    }
    let x = seg_vec(&after, kwv.len(), after.len());
    assert(x@ =~= after@.skip(kw@.len() as int));
    let j = skip_ws_from_x(&x, 0);
    let inner0 = seg_vec(&x, j, x.len());
    assert(inner0@ =~= x@.skip(j as int));
    if inner0.len() > 0 && inner0[inner0.len() - 1] == ')' {
        let res = seg_vec(&inner0, 0, inner0.len() - 1);
        assert(res@ =~= inner0@.take(inner0@.len() - 1));
        Some(res)
    } else {
        None
    }
}

/// Executable conjunct test matching `and_sat`.
fn and_sat_x(
    parts: &Vec<Vec<char>>,
    index: &Vec<Page>,
    fuel: u128,
    name: &Vec<char>,
    j: usize,
) -> (r: bool)
    requires
        j >= 1,
    ensures
        r == and_sat(crate::text::vviews(parts@), index@, fuel as nat, name@, j as int),
    decreases fuel, 1int, if j <= parts.len() {
        parts.len() - j
    } else {
        0
    },
{
    let ghost pv = crate::text::vviews(parts@);
    if j >= parts.len() {
        return true;
    }
    let res = execute_expr(&parts[j], index, fuel);
    proof {
        assert(pv[j as int] == parts@[j as int]@);
    }
    if name_member_x(&res, index, name) {
        and_sat_x(parts, index, fuel, name, j + 1)
    } else {
        false
    }
}

/// Evaluates a query expression against the index, with a recursion
/// budget: the result is exactly `eval`, every position within bounds.
pub fn execute_expr(expr: &Vec<char>, index: &Vec<Page>, fuel: u128) -> (r: Vec<usize>)
    ensures
        uviews(r@) == eval(expr@, index@, fuel as nat),
        forall|k: int| 0 <= k < r@.len() ==> (r@[k] as int) < index@.len(),
    decreases fuel, 0int, 0int,
{
    if fuel == 0 {
        let out: Vec<usize> = Vec::new();
        assert(uviews(out@) =~= Seq::<int>::empty());
        return out;
    }
    let t = trim_vec(expr);
    proof {
        reveal_strlit("and");
        reveal_strlit("AND");
        reveal_strlit("or");
        reveal_strlit("OR");
        reveal_strlit("not");
        reveal_strlit("NOT");
    }
    match inner_of_x(&t, "and", "AND") {
        Some(inner) => {
            let parts = parts_x(&inner);
            let ghost pv = parts_spec(inner@);
            proof {
                assert(eval(expr@, index@, fuel as nat) == eval_and(
                    inner@,
                    index@,
                    (fuel - 1) as nat,
                ));
            }
            if parts.len() == 0 {
                let out: Vec<usize> = Vec::new();
                proof {
                    assert(uviews(out@) =~= Seq::<int>::empty());
                    assert(eval_and(inner@, index@, (fuel - 1) as nat) =~= Seq::<int>::empty());
                }
                return out;
            }
            let first = execute_expr(&parts[0], index, fuel - 1);
            proof {
                assert(pv[0] == parts@[0]@);
            }
            let mut out: Vec<usize> = Vec::new();
            let mut i: usize = 0;
            assert(uviews(out@) =~= Seq::<int>::empty());
            while i < first.len()
                invariant
                    i <= first@.len(),
                    crate::text::vviews(parts@) == pv,
                    pv.len() > 0,
                    fuel >= 1,
                    forall|k: int|
                        0 <= k < first@.len() ==> (first@[k] as int) < index@.len(),
                    and_filter(uviews(first@), pv, index@, (fuel - 1) as nat, 0) =~= uviews(out@)
                        + and_filter(uviews(first@), pv, index@, (fuel - 1) as nat, i as int),
                    forall|k: int| 0 <= k < out@.len() ==> (out@[k] as int) < index@.len(),
                decreases first@.len() - i,
            {
                let ghost i0 = i as int;
                let k = first[i];
                proof {
                    assert(uviews(first@)[i0] == k as int);
                    assert(and_filter(uviews(first@), pv, index@, (fuel - 1) as nat, i0) == (if 0
                        <= uviews(first@)[i0] < index@.len() && and_sat(
                        pv,
                        index@,
                        (fuel - 1) as nat,
                        index@[uviews(first@)[i0]].name@,
                        1,
                    ) {
                        seq![uviews(first@)[i0]]
                    } else {
                        Seq::<int>::empty()
                    }) + and_filter(uviews(first@), pv, index@, (fuel - 1) as nat, i0 + 1));
                }
                let name = str_to_chars(index[k].name.as_str());
                if and_sat_x(&parts, index, fuel - 1, &name, 1) {
                    out.push(k);
                    proof {
                        assert(uviews(out@) =~= uviews(out@.drop_last()).push(k as int));
                    }
                }
                i += 1;
            }
            proof {
                assert(and_filter(uviews(first@), pv, index@, (fuel - 1) as nat, first@.len() as int)
                    =~= Seq::<int>::empty());
                assert(uviews(out@) =~= uviews(out@) + Seq::<int>::empty());
                assert(eval(expr@, index@, fuel as nat) == eval_and(
                    inner@,
                    index@,
                    (fuel - 1) as nat,
                ));
            }
            return out;
        },
        None => {},
    }
    match inner_of_x(&t, "or", "OR") {
        Some(inner) => {
            let parts = parts_x(&inner);
            let ghost pv = parts_spec(inner@);
            let mut acc: Vec<usize> = Vec::new();
            let mut j: usize = 0;
            assert(uviews(acc@) =~= Seq::<int>::empty());
            while j < parts.len()
                invariant
                    j <= parts@.len(),
                    crate::text::vviews(parts@) == pv,
                    fuel >= 1,
                    or_rec(pv, index@, (fuel - 1) as nat, 0, Seq::empty()) == or_rec(
                        pv,
                        index@,
                        (fuel - 1) as nat,
                        j as int,
                        uviews(acc@),
                    ),
                    forall|k: int| 0 <= k < acc@.len() ==> (acc@[k] as int) < index@.len(),
                decreases parts@.len() - j,
            {
                let ghost j0 = j as int;
                let res = execute_expr(&parts[j], index, fuel - 1);
                let ghost acc0 = uviews(acc@);
                proof {
                    assert(pv[j0] == parts@[j0]@);
                    assert(or_rec(pv, index@, (fuel - 1) as nat, j0, acc0) == or_rec(
                        pv,
                        index@,
                        (fuel - 1) as nat,
                        j0 + 1,
                        add_new(acc0, uviews(res@), index@, 0),
                    ));
                }
                let mut m: usize = 0;
                while m < res.len()
                    invariant
                        m <= res@.len(),
                        forall|k: int|
                            0 <= k < res@.len() ==> (res@[k] as int) < index@.len(),
                        forall|k: int| 0 <= k < acc@.len() ==> (acc@[k] as int) < index@.len(),
                        add_new(acc0, uviews(res@), index@, 0) == add_new(
                            uviews(acc@),
                            uviews(res@),
                            index@,
                            m as int,
                        ),
                    decreases res@.len() - m,
                {
                    let ghost m0 = m as int;
                    let idx = res[m];
                    proof {
                        assert(uviews(res@)[m0] == idx as int);
                    }
                    let name = str_to_chars(index[idx].name.as_str());
                    let ghost av = uviews(acc@);
                    if !name_member_x(&acc, index, &name) {
                        proof {
                            assert(add_new(av, uviews(res@), index@, m0) == add_new(
                                av.push(idx as int),
                                uviews(res@),
                                index@,
                                m0 + 1,
                            ));
                        }
                        acc.push(idx);
                        proof {
                            assert(uviews(acc@) =~= av.push(idx as int));
                        }
                    } else {
                        proof {
                            assert(add_new(uviews(acc@), uviews(res@), index@, m0) == add_new(
                                uviews(acc@),
                                uviews(res@),
                                index@,
                                m0 + 1,
                            ));
                        }
                    }
                    m += 1;
                }
                proof {
                    assert(add_new(uviews(acc@), uviews(res@), index@, res@.len() as int)
                        == uviews(acc@));
                    assert(or_rec(pv, index@, (fuel - 1) as nat, j0 + 1, add_new(
                        acc0,
                        uviews(res@),
                        index@,
                        0,
                    )) == or_rec(pv, index@, (fuel - 1) as nat, j0 + 1, uviews(acc@)));
                }
                j += 1;
            }
            proof {
                assert(eval(expr@, index@, fuel as nat) == or_rec(
                    pv,
                    index@,
                    (fuel - 1) as nat,
                    pv.len() as int,
                    uviews(acc@),
                ));
            }
            return acc;
        },
        None => {},
    }
    match inner_of_x(&t, "not", "NOT") {
        Some(inner) => {
            let excluded = execute_expr(&inner, index, fuel - 1);
            let mut out: Vec<usize> = Vec::new();
            let mut k: usize = 0;
            assert(uviews(out@) =~= Seq::<int>::empty());
            while k < index.len()
                invariant
                    k <= index@.len(),
                    not_filter(uviews(excluded@), index@, 0) =~= uviews(out@) + not_filter(
                        uviews(excluded@),
                        index@,
                        k as int,
                    ),
                    forall|m: int| 0 <= m < out@.len() ==> (out@[m] as int) < index@.len(),
                decreases index@.len() - k,
            {
                let ghost k0 = k as int;
                proof {
                    assert(not_filter(uviews(excluded@), index@, k0) =~= (if !name_member(
                        uviews(excluded@),
                        index@,
                        index@[k0].name@,
                    ) {
                        seq![k0]
                    } else {
                        Seq::<int>::empty()
                    }) + not_filter(uviews(excluded@), index@, k0 + 1));
                }
                let name = str_to_chars(index[k].name.as_str());
                if !name_member_x(&excluded, index, &name) {
                    out.push(k);
                    proof {
                        assert(uviews(out@) =~= uviews(out@.drop_last()).push(k0));
                    }
                }
                k += 1;
            }
            proof {
                assert(not_filter(uviews(excluded@), index@, index@.len() as int) =~= Seq::<
                    int,
                >::empty());
                assert(uviews(out@) =~= uviews(out@) + Seq::<int>::empty());
            }
            return out;
        },
        None => {},
    }
    match prim_of_x(&t) {
        Some(pr) => filter_sat_x(index, &pr),
        None => {
            let out: Vec<usize> = Vec::new();
            assert(uviews(out@) =~= Seq::<int>::empty());
            out
        },
    }
}

/// Runs one query against the index: the text's braces are stripped, the
/// expression evaluated, and the matching index positions returned in
/// grammar order.
pub fn execute(query_str: &str, index: &Vec<Page>) -> (r: Vec<usize>)
    ensures
        uviews(r@) == execute_spec(query_str@, index@),
        forall|k: int| 0 <= k < r@.len() ==> (r@[k] as int) < index@.len(),
{
    let qv = str_to_chars(query_str);
    let t1 = trim_vec(&qv);
    let pre = str_to_chars("{{query");
    let suf = str_to_chars("}}");
    let p1 = strip_all_prefix_x(&t1, &pre);
    let p2 = strip_all_suffix_x(&p1, &suf);
    let expr = trim_vec(&p2);
    assert(expr@ == prepared(query_str@));
    let fuel: u128 = expr.len() as u128 + 1;
    execute_expr(&expr, index, fuel)
}

/// The top-level parts of an operand list, as strings.
pub fn parse_query_parts(expr: &str) -> (r: Vec<String>)
    ensures
        sviews(r@) == parts_spec(expr@),
{
    let v = str_to_chars(expr);
    let parts = parts_x(&v);
    let ghost pv = parts_spec(v@);
    let mut out: Vec<String> = Vec::new();
    let mut i: usize = 0;
    while i < parts.len()
        invariant
            i <= parts@.len(),
            crate::text::vviews(parts@) == pv,
            out@.len() == i,
            forall|k: int| 0 <= k < i ==> (#[trigger] out@[k])@ == pv[k],
        decreases parts@.len() - i,
    {
        proof {
            assert(pv[i as int] == parts@[i as int]@);
        }
        out.push(chars_to_string(&parts[i]));
        i += 1;
    }
    proof {
        assert(sviews(out@) =~= pv);
    }
    out
}


/// Options a query site carries: explicit result columns, sort key and
/// direction, and a table/list override.
pub struct QueryOptions {
    /// Explicit result columns, empty when none were given.
    pub properties: Vec<String>,
    /// Explicit sort key, when one was given.
    pub sort_by: Option<String>,
    /// Sort direction: descending when set.
    pub sort_desc: bool,
    /// Table override: absent for the default, true to force a table,
    /// false to force a list.
    pub table: Option<bool>,
}

impl Default for QueryOptions {
    /// The defaults: no columns, no sort key, ascending, no override.
    fn default() -> (r: Self)
        ensures
            r.properties@.len() == 0,
            r.sort_by is None,
            r.sort_desc == false,
            r.table is None,
    {
        QueryOptions { properties: Vec::new(), sort_by: None, sort_desc: false, table: None }
    }
}

/// The abstract form of a set of query options.
pub struct OptsV {
    /// Explicit result columns.
    pub properties: Seq<Seq<char>>,
    /// Explicit sort key.
    pub sort_by: Option<Seq<char>>,
    /// Sort direction.
    pub sort_desc: bool,
    /// Table override.
    pub table: Option<bool>,
}

/// The abstract form of an options value.
pub open spec fn opts_view(o: QueryOptions) -> OptsV {
    OptsV {
        properties: sviews(o.properties@),
        sort_by: match o.sort_by {
            Some(s) => Some(s@),
            None => None,
        },
        sort_desc: o.sort_desc,
        table: o.table,
    }
}

/// The default options in abstract form.
pub open spec fn opts_default() -> OptsV {
    OptsV { properties: Seq::empty(), sort_by: None, sort_desc: false, table: None }
}

/// Lexicographic comparison of character sequences by scalar value.
pub open spec fn seq_le(a: Seq<char>, b: Seq<char>) -> bool
    decreases a.len(),
{
    if a.len() == 0 {
        true
    } else if b.len() == 0 {
        false
    } else if (a[0] as u32) < (b[0] as u32) {
        true
    } else if (a[0] as u32) > (b[0] as u32) {
        false
    } else {
        seq_le(a.drop_first(), b.drop_first())
    }
}

/// Executable lexicographic comparison matching `seq_le`.
pub fn seq_le_x(a: &Vec<char>, b: &Vec<char>, i: usize) -> (r: bool)
    requires
        i <= a.len(),
        i <= b.len(),
    ensures
        r == seq_le(a@.skip(i as int), b@.skip(i as int)),
    decreases a.len() - i,
{
    let ghost sa = a@.skip(i as int);
    let ghost sb = b@.skip(i as int);
    if i == a.len() {
        assert(sa.len() == 0);
        true
    } else if i == b.len() {
        assert(sb.len() == 0);
        assert(sa.len() > 0);
        false
    } else {
        proof {
            assert(sa[0] == a@[i as int]);
            assert(sb[0] == b@[i as int]);
        }
        if (a[i] as u32) < (b[i] as u32) {
            true
        } else if (a[i] as u32) > (b[i] as u32) {
            false
        } else {
            proof {
                assert(sa.drop_first() =~= a@.skip(i + 1));
                assert(sb.drop_first() =~= b@.skip(i + 1));
            }
            let r = seq_le_x(a, b, i + 1);
            proof {
                assert(seq_le(sa, sb) == seq_le(sa.drop_first(), sb.drop_first()));
            }
            r
        }
    }
}

/// The tags of a page joined with a comma and a space.
pub open spec fn join_comma(ts: Seq<Seq<char>>, i: int) -> Seq<char>
    decreases ts.len() - i,
{
    if i < 0 || i >= ts.len() {
        Seq::empty()
    } else if i == ts.len() - 1 {
        ts[i]
    } else {
        ts[i] + ", "@ + join_comma(ts, i + 1)
    }
}

/// The value a synthetic accessor yields for a page: name, dates, joined
/// tags, namespace, or a generic property lookup under the hyphen-stripped
/// lowercased key.
pub open spec fn gp(p: Page, key: Seq<char>) -> Seq<char> {
    let kl = lower(key);
    if kl == "page"@ || kl == "name"@ {
        p.name@
    } else if kl == "created"@ {
        match p.created {
            Some(c) => c@,
            None => Seq::empty(),
        }
    } else if kl == "modified"@ || kl == "updated"@ {
        match p.modified {
            Some(m) => m@,
            None => Seq::empty(),
        }
    } else if kl == "tags"@ {
        join_comma(sviews(p.tags@), 0)
    } else if kl == "namespace"@ {
        match p.namespace {
            Some(n) => n@,
            None => Seq::empty(),
        }
    } else {
        match plookup(pviews(p.properties@), remove_dashes(kl)) {
            Some(v) => v,
            None => Seq::empty(),
        }
    }
}

/// The synthetic accessor, executable: exactly `gp`.
pub fn get_page_property(p: &Page, key: &str) -> (r: String)
    ensures
        r@ == gp(*p, key@),
{
    let kv = str_to_chars(key);
    let kl = lower_vec(&kv);
    if eq_vecs(&kl, &str_to_chars("page")) || eq_vecs(&kl, &str_to_chars("name")) {
        crate::page::clone_string(&p.name)
    } else if eq_vecs(&kl, &str_to_chars("created")) {
        match &p.created {
            Some(c) => crate::page::clone_string(c),
            None => chars_to_string(&Vec::new()),
        }
    } else if eq_vecs(&kl, &str_to_chars("modified")) || eq_vecs(&kl, &str_to_chars("updated")) {
        match &p.modified {
            Some(m) => crate::page::clone_string(m),
            None => chars_to_string(&Vec::new()),
        }
    } else if eq_vecs(&kl, &str_to_chars("tags")) {
        let mut out: Vec<char> = Vec::new();
        let ghost tv = sviews(p.tags@);
        let mut i: usize = 0;
        while i < p.tags.len()
            invariant
                i <= p.tags@.len(),
                tv == sviews(p.tags@),
                join_comma(tv, 0) =~= out@ + join_comma(tv, i as int),
            decreases p.tags@.len() - i,
        {
            let ghost i0 = i as int;
            proof {
                assert(tv[i0] == p.tags@[i0]@);
            }
            let t = str_to_chars(p.tags[i].as_str());
            push_all(&mut out, &t);
            if i + 1 < p.tags.len() {
                push_str_chars(&mut out, ", ");
            }
            proof {
                if i0 == tv.len() - 1 {
                    assert(join_comma(tv, i0) =~= tv[i0] + join_comma(tv, i0 + 1)) by {
                        assert(join_comma(tv, i0) == tv[i0]);
                        assert(join_comma(tv, i0 + 1) =~= Seq::<char>::empty());
                    }
                } else {
                    assert(join_comma(tv, i0) =~= tv[i0] + ", "@ + join_comma(tv, i0 + 1));
                }
            }
            i += 1;
        }
        assert(join_comma(tv, p.tags@.len() as int) =~= Seq::<char>::empty());
        assert(out@ =~= out@ + Seq::<char>::empty());
        chars_to_string(&out)
    } else if eq_vecs(&kl, &str_to_chars("namespace")) {
        match &p.namespace {
            Some(n) => crate::page::clone_string(n),
            None => chars_to_string(&Vec::new()),
        }
    } else {
        let dk = remove_dashes_x(&kl);
        match plookup_x(&p.properties, &dk) {
            Some(v) => v,
            None => chars_to_string(&Vec::new()),
        }
    }
}

/// The key two results are ordered by.
pub open spec fn order_key(index: Seq<Page>, o: OptsV, k: int) -> Seq<char> {
    if 0 <= k < index.len() {
        match o.sort_by {
            Some(sk) => gp(index[k], sk),
            None => index[k].name@,
        }
    } else {
        Seq::empty()
    }
}

/// One result not after another under the options' ordering.
pub open spec fn le_res(index: Seq<Page>, o: OptsV, a: int, b: int) -> bool {
    if o.sort_by is Some && o.sort_desc {
        seq_le(order_key(index, o, b), order_key(index, o, a))
    } else {
        seq_le(order_key(index, o, a), order_key(index, o, b))
    }
}

/// Stable insertion of one result into a sorted run: it lands after every
/// element not after it.
pub open spec fn insert_sorted(x: int, s: Seq<int>, index: Seq<Page>, o: OptsV) -> Seq<int>
    decreases s.len(),
{
    if s.len() == 0 {
        seq![x]
    } else if le_res(index, o, s[0], x) {
        seq![s[0]] + insert_sorted(x, s.drop_first(), index, o)
    } else {
        seq![x] + s
    }
}

/// The results sorted stably under the options' ordering.
pub open spec fn sort_res(res: Seq<int>, index: Seq<Page>, o: OptsV, i: int, acc: Seq<int>) -> Seq<int>
    decreases res.len() - i,
{
    if i < 0 || i >= res.len() {
        acc
    } else {
        sort_res(res, index, o, i + 1, insert_sorted(res[i], acc, index, o))
    }
}

/// The split point of a stable insertion: how many leading elements are
/// not after the new one.
fn find_stop(s: &Vec<usize>, index: &Vec<Page>, o: &QueryOptions, x: usize, i: usize) -> (r:
    usize)
    requires
        i <= s.len(),
        forall|k: int| 0 <= k < i ==> le_res(index@, opts_view(*o), uviews(s@)[k], x as int),
    ensures
        i <= r <= s@.len(),
        forall|k: int| 0 <= k < r ==> le_res(index@, opts_view(*o), uviews(s@)[k], x as int),
        r < s@.len() ==> !le_res(index@, opts_view(*o), uviews(s@)[r as int], x as int),
    decreases s.len() - i,
{
    if i == s.len() {
        i
    } else {
        let hit = le_res_x(index, o, s[i], x);
        proof {
            assert(uviews(s@)[i as int] == s@[i as int] as int);
        }
        if hit {
            find_stop(s, index, o, x, i + 1)
        } else {
            i
        }
    }
}

/// Executable stable insertion matching `insert_sorted`.
fn insert_sorted_x(x: usize, s: &Vec<usize>, index: &Vec<Page>, o: &QueryOptions) -> (r: Vec<
    usize,
>)
    ensures
        uviews(r@) == insert_sorted(x as int, uviews(s@), index@, opts_view(*o)),
{
    let stop = find_stop(s, index, o, x, 0);
    let mut out: Vec<usize> = Vec::new();
    let mut i: usize = 0;
    while i < stop
        invariant
            i <= stop <= s@.len(),
            out@.len() == i,
            forall|k: int| 0 <= k < i ==> out@[k] == s@[k],
        decreases stop - i,
    {
        out.push(s[i]);
        i += 1;
    }
    out.push(x);
    let mut j: usize = stop;
    while j < s.len()
        invariant
            stop <= j <= s@.len(),
            out@.len() == j + 1,
            forall|k: int| 0 <= k < stop ==> out@[k] == s@[k],
            out@[stop as int] == x,
            forall|k: int| stop <= k < j ==> out@[k + 1] == s@[k],
        decreases s@.len() - j,
    {
        out.push(s[j]);
        j += 1;
    }
    proof {
        lemma_insert_sorted_shape(x as int, uviews(s@), index@, opts_view(*o), stop as int);
        assert forall|k: int| 0 <= k < uviews(out@).len() implies uviews(out@)[k] == insert_sorted(
            x as int,
            uviews(s@),
            index@,
            opts_view(*o),
        )[k] by {
            assert(uviews(out@)[k] == out@[k] as int);
            if k < stop {
                assert(uviews(s@)[k] == s@[k] as int);
            } else if k > stop {
                assert(uviews(s@)[k - 1] == s@[k - 1] as int);
            }
        }
        assert(uviews(out@) =~= insert_sorted(x as int, uviews(s@), index@, opts_view(*o)));
    }
    out
}

/// The shape of a stable insertion: the kept prefix, the new element, the
/// remaining suffix.
proof fn lemma_insert_sorted_shape(
    x: int,
    s: Seq<int>,
    index: Seq<Page>,
    o: OptsV,
    stop: int,
)
    requires
        0 <= stop <= s.len(),
        forall|k: int| 0 <= k < stop ==> le_res(index, o, s[k], x),
        stop < s.len() ==> !le_res(index, o, s[stop], x),
    ensures
        insert_sorted(x, s, index, o).len() == s.len() + 1,
        forall|k: int| 0 <= k < stop ==> insert_sorted(x, s, index, o)[k] == s[k],
        insert_sorted(x, s, index, o)[stop] == x,
        forall|k: int| stop <= k < s.len() ==> insert_sorted(x, s, index, o)[k + 1] == s[k],
    decreases s.len(),
{
    if s.len() == 0 {
    } else if le_res(index, o, s[0], x) {
        assert(stop >= 1) by {
            if stop == 0 {
                assert(!le_res(index, o, s[0], x));
            }
        }
        lemma_insert_sorted_shape(x, s.drop_first(), index, o, stop - 1);
        assert forall|k: int| 1 <= k < stop implies insert_sorted(x, s, index, o)[k] == s[k] by {
            assert(insert_sorted(x, s, index, o)[k] == insert_sorted(
                x,
                s.drop_first(),
                index,
                o,
            )[k - 1]);
            assert(s.drop_first()[k - 1] == s[k]);
        }
        assert forall|k: int| stop <= k < s.len() implies insert_sorted(x, s, index, o)[k + 1]
            == s[k] by {
            assert(insert_sorted(x, s, index, o)[k + 1] == insert_sorted(
                x,
                s.drop_first(),
                index,
                o,
            )[k]);
            if k >= 1 {
                assert(s.drop_first()[k - 1] == s[k]);
            }
        }
    } else {
        assert(stop == 0);
    }
}

/// Executable ordering test matching `le_res`.
fn le_res_x(index: &Vec<Page>, o: &QueryOptions, a: usize, b: usize) -> (r: bool)
    ensures
        r == le_res(index@, opts_view(*o), a as int, b as int),
{
    let ka = order_key_x(index, o, a);
    let kb = order_key_x(index, o, b);
    let desc = match &o.sort_by {
        Some(_) => o.sort_desc,
        None => false,
    };
    if desc {
        let r = seq_le_x(&kb, &ka, 0);
        proof {
            assert(kb@.skip(0) =~= kb@);
            assert(ka@.skip(0) =~= ka@);
        }
        r
    } else {
        let r = seq_le_x(&ka, &kb, 0);
        proof {
            assert(ka@.skip(0) =~= ka@);
            assert(kb@.skip(0) =~= kb@);
        }
        r
    }
}

/// Executable ordering key matching `order_key`.
fn order_key_x(index: &Vec<Page>, o: &QueryOptions, k: usize) -> (r: Vec<char>)
    ensures
        r@ == order_key(index@, opts_view(*o), k as int),
{
    if k < index.len() {
        match &o.sort_by {
            Some(sk) => {
                let v = get_page_property(&index[k], sk.as_str());
                str_to_chars(v.as_str())
            },
            None => str_to_chars(index[k].name.as_str()),
        }
    } else {
        let r: Vec<char> = Vec::new();
        assert(r@ =~= Seq::<char>::empty());
        r
    }
}

/// Executable stable sort matching `sort_res`.
fn sort_res_x(res: &Vec<usize>, index: &Vec<Page>, o: &QueryOptions) -> (r: Vec<usize>)
    ensures
        uviews(r@) == sort_res(uviews(res@), index@, opts_view(*o), 0, Seq::empty()),
{
    let mut acc: Vec<usize> = Vec::new();
    let mut i: usize = 0;
    assert(uviews(acc@) =~= Seq::<int>::empty());
    while i < res.len()
        invariant
            i <= res@.len(),
            sort_res(uviews(res@), index@, opts_view(*o), 0, Seq::empty()) == sort_res(
                uviews(res@),
                index@,
                opts_view(*o),
                i as int,
                uviews(acc@),
            ),
        decreases res@.len() - i,
    {
        let ghost i0 = i as int;
        proof {
            assert(uviews(res@)[i0] == res@[i0] as int);
            assert(sort_res(uviews(res@), index@, opts_view(*o), i0, uviews(acc@)) == sort_res(
                uviews(res@),
                index@,
                opts_view(*o),
                i0 + 1,
                insert_sorted(uviews(res@)[i0], uviews(acc@), index@, opts_view(*o)),
            ));
        }
        acc = insert_sorted_x(res[i], &acc, index, o);
        i += 1;
    }
    acc
}


/// Pipe characters escaped as an HTML entity, for table cells.
pub open spec fn esc_pipes_from(s: Seq<char>, i: int) -> Seq<char>
    decreases s.len() - i,
{
    if i < 0 || i >= s.len() {
        Seq::empty()
    } else {
        (if s[i] == '|' {
            "&#124;"@
        } else {
            seq![s[i]]
        }) + esc_pipes_from(s, i + 1)
    }
}

/// Executable pipe escaping matching `esc_pipes_from`.
fn esc_pipes_x(v: &Vec<char>) -> (r: Vec<char>)
    ensures
        r@ == esc_pipes_from(v@, 0),
{
    let mut out: Vec<char> = Vec::new();
    let mut i: usize = 0;
    while i < v.len()
        invariant
            i <= v.len(),
            esc_pipes_from(v@, 0) =~= out@ + esc_pipes_from(v@, i as int),
        decreases v.len() - i,
    {
        let ghost i0 = i as int;
        proof {
            assert(esc_pipes_from(v@, i0) == (if v@[i0] == '|' {
                "&#124;"@
            } else {
                seq![v@[i0]]
            }) + esc_pipes_from(v@, i0 + 1));
        }
        let c = v[i];
        if c == '|' {
            push_str_chars(&mut out, "&#124;");
        } else {
            out.push(c);
        }
        i += 1;
    }
    assert(esc_pipes_from(v@, v@.len() as int) =~= Seq::<char>::empty());
    assert(out@ =~= out@ + Seq::<char>::empty());
    out
}

/// One list entry: a bracket link to the page, its icon and title as the
/// display alias.
pub open spec fn list_item(p: Page) -> Seq<char> {
    let icon = match plookup(pviews(p.properties@), "icon"@) {
        Some(i) => i,
        None => Seq::empty(),
    };
    let title = match plookup(pviews(p.properties@), "title"@) {
        Some(t) => t,
        None => crate::frontmatter::underscores_to_spaces(p.name@),
    };
    "- [["@ + p.name@ + "|"@ + (if icon.len() == 0 {
        Seq::<char>::empty()
    } else {
        icon + " "@
    }) + title + "]]"@
}

/// The list rendering of sorted results, one entry per line.
pub open spec fn list_spec(index: Seq<Page>, sorted: Seq<int>, i: int) -> Seq<char>
    decreases sorted.len() - i,
{
    if i < 0 || i >= sorted.len() {
        Seq::empty()
    } else {
        let item = if 0 <= sorted[i] < index.len() {
            list_item(index[sorted[i]])
        } else {
            Seq::empty()
        };
        if i == sorted.len() - 1 {
            item
        } else {
            item + "\n"@ + list_spec(index, sorted, i + 1)
        }
    }
}

/// Executable list entry matching `list_item`.
fn list_item_x(p: &Page) -> (r: Vec<char>)
    ensures
        r@ == list_item(*p),
{
    let icon: Vec<char> = match plookup_x(&p.properties, &str_to_chars("icon")) {
        Some(i) => str_to_chars(i.as_str()),
        None => Vec::new(),
    };
    let title: Vec<char> = match plookup_x(&p.properties, &str_to_chars("title")) {
        Some(t) => str_to_chars(t.as_str()),
        None => crate::frontmatter::underscores_to_spaces_x(&str_to_chars(p.name.as_str())),
    };
    let mut out = str_to_chars("- [[");
    let nv = str_to_chars(p.name.as_str());
    push_all(&mut out, &nv);
    push_str_chars(&mut out, "|");
    if icon.len() > 0 {
        push_all(&mut out, &icon);
        push_str_chars(&mut out, " ");
    }
    push_all(&mut out, &title);
    push_str_chars(&mut out, "]]");
    assert(out@ =~= list_item(*p));
    out
}

/// Executable list rendering matching `list_spec`.
fn render_list_x(index: &Vec<Page>, sorted: &Vec<usize>) -> (r: Vec<char>)
    ensures
        r@ == list_spec(index@, uviews(sorted@), 0),
{
    let mut out: Vec<char> = Vec::new();
    let mut i: usize = 0;
    while i < sorted.len()
        invariant
            i <= sorted@.len(),
            list_spec(index@, uviews(sorted@), 0) =~= out@ + list_spec(
                index@,
                uviews(sorted@),
                i as int,
            ),
        decreases sorted@.len() - i,
    {
        let ghost i0 = i as int;
        let k = sorted[i];
        proof {
            assert(uviews(sorted@)[i0] == k as int);
        }
        if k < index.len() {
            let item = list_item_x(&index[k]);
            push_all(&mut out, &item);
        }
        if i + 1 < sorted.len() {
            push_str_chars(&mut out, "\n");
        }
        proof {
            if i0 == uviews(sorted@).len() - 1 {
                assert(list_spec(index@, uviews(sorted@), i0 + 1) =~= Seq::<char>::empty());
            }
        }
        i += 1;
    }
    assert(list_spec(index@, uviews(sorted@), uviews(sorted@).len() as int) =~= Seq::<
        char,
    >::empty());
    assert(out@ =~= out@ + Seq::<char>::empty());
    out
}

/// A column's header label: `Page` for the name column, otherwise the
/// column name with its first letter capitalized.
pub open spec fn header_name(prop: Seq<char>) -> Seq<char> {
    if lower(prop) == "page"@ || lower(prop) == "name"@ {
        "Page"@
    } else {
        crate::lines::cap_word(prop)
    }
}

/// The header cells of the table.
pub open spec fn header_cells(props: Seq<Seq<char>>, i: int) -> Seq<char>
    decreases props.len() - i,
{
    if i < 0 || i >= props.len() {
        Seq::empty()
    } else {
        " "@ + header_name(props[i]) + " |"@ + header_cells(props, i + 1)
    }
}

/// The separator cells of the table.
pub open spec fn sep_cells(props: Seq<Seq<char>>, i: int) -> Seq<char>
    decreases props.len() - i,
{
    if i < 0 || i >= props.len() {
        Seq::empty()
    } else {
        " --- |"@ + sep_cells(props, i + 1)
    }
}

/// One data cell: a plain bracket link for the name column, otherwise the
/// accessor's value with pipes escaped.
pub open spec fn cell_val(p: Page, prop: Seq<char>) -> Seq<char> {
    if lower(prop) == "page"@ || lower(prop) == "name"@ {
        "[["@ + p.name@ + "]]"@
    } else {
        esc_pipes_from(gp(p, prop), 0)
    }
}

/// The data cells of one row.
pub open spec fn row_cells(p: Page, props: Seq<Seq<char>>, i: int) -> Seq<char>
    decreases props.len() - i,
{
    if i < 0 || i >= props.len() {
        Seq::empty()
    } else {
        " "@ + cell_val(p, props[i]) + " |"@ + row_cells(p, props, i + 1)
    }
}

/// The data rows of the table.
pub open spec fn table_rows(index: Seq<Page>, sorted: Seq<int>, props: Seq<Seq<char>>, i: int) -> Seq<char>
    decreases sorted.len() - i,
{
    if i < 0 || i >= sorted.len() {
        Seq::empty()
    } else {
        (if 0 <= sorted[i] < index.len() {
            "|"@ + row_cells(index[sorted[i]], props, 0) + "\n"@
        } else {
            "|\n"@
        }) + table_rows(index, sorted, props, i + 1)
    }
}

/// The table rendering of sorted results under the given columns.
pub open spec fn table_spec(index: Seq<Page>, sorted: Seq<int>, props: Seq<Seq<char>>) -> Seq<
    char,
> {
    "|"@ + header_cells(props, 0) + "\n"@ + "|"@ + sep_cells(props, 0) + "\n"@ + table_rows(
        index,
        sorted,
        props,
        0,
    )
}

/// Executable header label matching `header_name`.
fn header_name_x(prop: &Vec<char>) -> (r: Vec<char>)
    ensures
        r@ == header_name(prop@),
{
    let pl = lower_vec(prop);
    if eq_vecs(&pl, &str_to_chars("page")) || eq_vecs(&pl, &str_to_chars("name")) {
        str_to_chars("Page")
    } else {
        if prop.len() == 0 {
            let r: Vec<char> = Vec::new();
            assert(r@ =~= crate::lines::cap_word(prop@));
            r
        } else {
            let mut r: Vec<char> = Vec::new();
            r.push(crate::text::upper_char_x(prop[0]));
            crate::text::push_seg(&mut r, prop, 1, prop.len());
            assert(r@ =~= crate::lines::cap_word(prop@));
            r
        }
    }
}

/// Executable cell value matching `cell_val`.
fn cell_val_x(p: &Page, prop: &Vec<char>) -> (r: Vec<char>)
    ensures
        r@ == cell_val(*p, prop@),
{
    let pl = lower_vec(prop);
    if eq_vecs(&pl, &str_to_chars("page")) || eq_vecs(&pl, &str_to_chars("name")) {
        let mut r = str_to_chars("[[");
        let nv = str_to_chars(p.name.as_str());
        push_all(&mut r, &nv);
        push_str_chars(&mut r, "]]");
        assert(r@ =~= "[["@ + p.name@ + "]]"@);
        r
    } else {
        let ps = chars_to_string(prop);
        let v = get_page_property(p, ps.as_str());
        let vv = str_to_chars(v.as_str());
        esc_pipes_x(&vv)
    }
}

/// Executable table rendering matching `table_spec`.
#[verifier::rlimit(100)]
#[verifier::spinoff_prover]
fn render_table_x(index: &Vec<Page>, sorted: &Vec<usize>, props: &Vec<String>) -> (r: Vec<char>)
    ensures
        r@ == table_spec(index@, uviews(sorted@), sviews(props@)),
{
    let ghost pv = sviews(props@);
    let mut out = str_to_chars("|");
    let ghost head = out@;
    let mut i: usize = 0;
    while i < props.len()
        invariant
            i <= props@.len(),
            pv == sviews(props@),
            head == "|"@,
            out@.len() >= head.len(),
            out@.subrange(0, head.len() as int) =~= head,
            header_cells(pv, 0) =~= out@.skip(head.len() as int) + header_cells(pv, i as int),
        decreases props@.len() - i,
    {
        let ghost i0 = i as int;
        proof {
            assert(pv[i0] == props@[i0]@);
        }
        push_str_chars(&mut out, " ");
        let hv = header_name_x(&str_to_chars(props[i].as_str()));
        push_all(&mut out, &hv);
        push_str_chars(&mut out, " |");
        proof {
            assert(header_cells(pv, i0) =~= " "@ + header_name(pv[i0]) + " |"@ + header_cells(
                pv,
                i0 + 1,
            ));
        }
        i += 1;
    }
    proof {
        assert(header_cells(pv, props@.len() as int) =~= Seq::<char>::empty());
        assert(out@ =~= "|"@ + header_cells(pv, 0));
    }
    push_str_chars(&mut out, "\n");
    push_str_chars(&mut out, "|");
    let ghost mid = out@;
    let mut i: usize = 0;
    while i < props.len()
        invariant
            i <= props@.len(),
            pv == sviews(props@),
            mid =~= "|"@ + header_cells(pv, 0) + "\n"@ + "|"@,
            sep_cells(pv, 0) =~= out@.skip(mid.len() as int) + sep_cells(pv, i as int),
            out@.len() >= mid.len(),
            out@.subrange(0, mid.len() as int) =~= mid,
        decreases props@.len() - i,
    {
        let ghost i0 = i as int;
        push_str_chars(&mut out, " --- |");
        proof {
            assert(sep_cells(pv, i0) =~= " --- |"@ + sep_cells(pv, i0 + 1));
        }
        i += 1;
    }
    proof {
        assert(sep_cells(pv, props@.len() as int) =~= Seq::<char>::empty());
        assert(out@ =~= mid + sep_cells(pv, 0));
    }
    push_str_chars(&mut out, "\n");
    let ghost mid2 = out@;
    proof {
        assert(mid2 =~= "|"@ + header_cells(pv, 0) + "\n"@ + "|"@ + sep_cells(pv, 0) + "\n"@);
    }
    let mut i: usize = 0;
    while i < sorted.len()
        invariant
            i <= sorted@.len(),
            pv == sviews(props@),
            table_rows(index@, uviews(sorted@), pv, 0) =~= out@.skip(mid2.len() as int)
                + table_rows(index@, uviews(sorted@), pv, i as int),
            out@.len() >= mid2.len(),
            out@.subrange(0, mid2.len() as int) =~= mid2,
        decreases sorted@.len() - i,
    {
        let ghost i0 = i as int;
        let k = sorted[i];
        proof {
            assert(uviews(sorted@)[i0] == k as int);
        }
        push_str_chars(&mut out, "|");
        if k < index.len() {
            let p = &index[k];
            let ghost rowstart = out@;
            let mut j: usize = 0;
            while j < props.len()
                invariant
                    j <= props@.len(),
                    pv == sviews(props@),
                    k < index@.len(),
                    row_cells(index@[k as int], pv, 0) =~= out@.skip(rowstart.len() as int)
                        + row_cells(index@[k as int], pv, j as int),
                    out@.len() >= rowstart.len(),
                    out@.subrange(0, rowstart.len() as int) =~= rowstart,
                decreases props@.len() - j,
            {
                let ghost j0 = j as int;
                proof {
                    assert(pv[j0] == props@[j0]@);
                }
                push_str_chars(&mut out, " ");
                let cv = cell_val_x(&index[k], &str_to_chars(props[j].as_str()));
                push_all(&mut out, &cv);
                push_str_chars(&mut out, " |");
                proof {
                    assert(row_cells(index@[k as int], pv, j0) =~= " "@ + cell_val(
                        index@[k as int],
                        pv[j0],
                    ) + " |"@ + row_cells(index@[k as int], pv, j0 + 1));
                }
                j += 1;
            }
            proof {
                assert(row_cells(index@[k as int], pv, props@.len() as int) =~= Seq::<
                    char,
                >::empty());
                assert(out@ =~= rowstart + row_cells(index@[k as int], pv, 0));
            }
        }
        push_str_chars(&mut out, "\n");
        proof {
            assert(table_rows(index@, uviews(sorted@), pv, i0) =~= (if 0 <= uviews(sorted@)[i0]
                < index@.len() {
                "|"@ + row_cells(index@[uviews(sorted@)[i0]], pv, 0) + "\n"@
            } else {
                "|\n"@
            }) + table_rows(index@, uviews(sorted@), pv, i0 + 1));
            if !(k < index.len()) {
                assert("|\n"@ =~= "|"@ + "\n"@) by {
                    reveal_strlit("|\n");
                    reveal_strlit("|");
                    reveal_strlit("\n");
                }
            }
        }
        i += 1;
    }
    proof {
        assert(table_rows(index@, uviews(sorted@), pv, uviews(sorted@).len() as int) =~= Seq::<
            char,
        >::empty());
        assert(out@ =~= mid2 + table_rows(index@, uviews(sorted@), pv, 0));
        assert(out@ =~= table_spec(index@, uviews(sorted@), pv));
    }
    out
}


/// A property key the automatic column chooser never offers.
pub open spec fn is_special_key(k: Seq<char>) -> bool {
    lower(k) == "title"@ || lower(k) == "icon"@ || lower(k) == "public"@ || lower(k) == "alias"@
        || lower(k) == "aliases"@
}

/// The candidate keys one page contributes, in order, skipping specials
/// and keys already collected.
pub open spec fn cand_props(ps: Seq<(Seq<char>, Seq<char>)>, i: int, acc: Seq<Seq<char>>) -> Seq<
    Seq<char>,
>
    decreases ps.len() - i,
{
    if i < 0 || i >= ps.len() {
        acc
    } else {
        let k = ps[i].0;
        cand_props(
            ps,
            i + 1,
            if !is_special_key(k) && !seq_contains_str(acc, k) {
                acc.push(k)
            } else {
                acc
            },
        )
    }
}

/// The candidate keys of all result pages: property keys in first-seen
/// order, and the tag pseudo-column where a page carries tags.
pub open spec fn cands_rec(index: Seq<Page>, sorted: Seq<int>, i: int, acc: Seq<Seq<char>>) -> Seq<
    Seq<char>,
>
    decreases sorted.len() - i,
{
    if i < 0 || i >= sorted.len() {
        acc
    } else if 0 <= sorted[i] < index.len() {
        let p = index[sorted[i]];
        let acc2 = cand_props(pviews(p.properties@), 0, acc);
        let acc3 = if sviews(p.tags@).len() > 0 && !seq_contains_str(acc2, "tags"@) {
            acc2.push("tags"@)
        } else {
            acc2
        };
        cands_rec(index, sorted, i + 1, acc3)
    } else {
        cands_rec(index, sorted, i + 1, acc)
    }
}

/// How many result pages carry the key; the tag pseudo-column counts both
/// a property under that name and a non-empty tag set.
pub open spec fn count_key(index: Seq<Page>, sorted: Seq<int>, key: Seq<char>, i: int) -> int
    decreases sorted.len() - i,
{
    if i < 0 || i >= sorted.len() {
        0
    } else if 0 <= sorted[i] < index.len() {
        let p = index[sorted[i]];
        (if plookup(pviews(p.properties@), key) is Some {
            1int
        } else {
            0int
        }) + (if key == "tags"@ && sviews(p.tags@).len() > 0 {
            1int
        } else {
            0int
        }) + count_key(index, sorted, key, i + 1)
    } else {
        count_key(index, sorted, key, i + 1)
    }
}

/// Candidate ordering: by falling count, ties by rising name.
pub open spec fn le_cand(index: Seq<Page>, sorted: Seq<int>, a: Seq<char>, b: Seq<char>) -> bool {
    count_key(index, sorted, a, 0) > count_key(index, sorted, b, 0) || (count_key(index, sorted, a, 0)
        == count_key(index, sorted, b, 0) && seq_le(a, b))
}

/// Stable insertion of a candidate under the candidate ordering.
pub open spec fn insert_cand(
    x: Seq<char>,
    s: Seq<Seq<char>>,
    index: Seq<Page>,
    sorted: Seq<int>,
) -> Seq<Seq<char>>
    decreases s.len(),
{
    if s.len() == 0 {
        seq![x]
    } else if le_cand(index, sorted, s[0], x) {
        seq![s[0]] + insert_cand(x, s.drop_first(), index, sorted)
    } else {
        seq![x] + s
    }
}

/// The candidates sorted under the candidate ordering.
pub open spec fn sort_cand(
    cs: Seq<Seq<char>>,
    index: Seq<Page>,
    sorted: Seq<int>,
    i: int,
    acc: Seq<Seq<char>>,
) -> Seq<Seq<char>>
    decreases cs.len() - i,
{
    if i < 0 || i >= cs.len() {
        acc
    } else {
        sort_cand(cs, index, sorted, i + 1, insert_cand(cs[i], acc, index, sorted))
    }
}

/// The candidates meeting the occurrence threshold, in order.
pub open spec fn qualify(
    cs: Seq<Seq<char>>,
    index: Seq<Page>,
    sorted: Seq<int>,
    threshold: int,
    i: int,
) -> Seq<Seq<char>>
    decreases cs.len() - i,
{
    if i < 0 || i >= cs.len() {
        Seq::empty()
    } else {
        (if count_key(index, sorted, cs[i], 0) >= threshold {
            seq![cs[i]]
        } else {
            Seq::empty()
        }) + qualify(cs, index, sorted, threshold, i + 1)
    }
}

/// The automatically chosen columns: the name column first, then up to
/// three properties occurring in at least a third of the results (at least
/// one), most frequent first, ties by name.
pub open spec fn detect_spec(index: Seq<Page>, sorted: Seq<int>) -> Seq<Seq<char>> {
    let cs = cands_rec(index, sorted, 0, Seq::empty());
    let threshold = if sorted.len() / 3 >= 1 {
        sorted.len() as int / 3
    } else {
        1int
    };
    let q = qualify(cs, index, sorted, threshold, 0);
    let sc = sort_cand(q, index, sorted, 0, Seq::empty());
    seq!["page"@] + (if sc.len() > 3 {
        sc.take(3)
    } else {
        sc
    })
}

/// Executable special-key test matching `is_special_key`.
fn is_special_key_x(k: &Vec<char>) -> (r: bool)
    ensures
        r == is_special_key(k@),
{
    let kl = lower_vec(k);
    eq_vecs(&kl, &str_to_chars("title")) || eq_vecs(&kl, &str_to_chars("icon")) || eq_vecs(
        &kl,
        &str_to_chars("public"),
    ) || eq_vecs(&kl, &str_to_chars("alias")) || eq_vecs(&kl, &str_to_chars("aliases"))
}

/// Executable membership over candidate lists.
fn cand_contains(cs: &Vec<Vec<char>>, x: &Vec<char>) -> (r: bool)
    ensures
        r == seq_contains_str(crate::text::vviews(cs@), x@),
{
    let mut i: usize = 0;
    while i < cs.len()
        invariant
            i <= cs@.len(),
            forall|k: int| 0 <= k < i ==> crate::text::vviews(cs@)[k] != x@,
        decreases cs@.len() - i,
    {
        if eq_vecs(&cs[i], x) {
            assert(crate::text::vviews(cs@)[i as int] == x@);
            return true;
        }
        assert(crate::text::vviews(cs@)[i as int] == cs@[i as int]@);
        i += 1;
    }
    false
}

/// A count never exceeds twice the number of remaining results.
proof fn lemma_count_key_bound(index: Seq<Page>, sorted: Seq<int>, key: Seq<char>, i: int)
    requires
        0 <= i <= sorted.len(),
    ensures
        0 <= count_key(index, sorted, key, i) <= 2 * (sorted.len() - i),
    decreases sorted.len() - i,
{
    if i < sorted.len() {
        lemma_count_key_bound(index, sorted, key, i + 1);
    }
}

/// Executable occurrence count matching `count_key`.
fn count_key_x(index: &Vec<Page>, sorted: &Vec<usize>, key: &Vec<char>) -> (r: u128)
    ensures
        r as int == count_key(index@, uviews(sorted@), key@, 0),
{
    let mut n: u128 = 0;
    let mut i: usize = 0;
    let tg = str_to_chars("tags");
    proof {
        lemma_count_key_bound(index@, uviews(sorted@), key@, 0);
    }
    while i < sorted.len()
        invariant
            i <= sorted@.len(),
            tg@ == "tags"@,
            n <= 2 * (i as int),
            count_key(index@, uviews(sorted@), key@, 0) == n + count_key(
                index@,
                uviews(sorted@),
                key@,
                i as int,
            ),
        decreases sorted@.len() - i,
    {
        let ghost i0 = i as int;
        let k = sorted[i];
        proof {
            assert(uviews(sorted@)[i0] == k as int);
        }
        if k < index.len() {
            let p = &index[k];
            let mut add: u128 = 0;
            match plookup_x(&p.properties, key) {
                Some(_) => {
                    add = add + 1;
                },
                None => {},
            }
            if eq_vecs(key, &tg) && p.tags.len() > 0 {
                proof {
                    assert(sviews(p.tags@).len() == p.tags@.len());
                }
                add = add + 1;
            }
            proof {
                if p.tags.len() == 0 {
                    assert(sviews(p.tags@).len() == 0);
                }
                assert(count_key(index@, uviews(sorted@), key@, i0) == (if plookup(
                    pviews(index@[k as int].properties@),
                    key@,
                ) is Some {
                    1int
                } else {
                    0int
                }) + (if key@ == "tags"@ && sviews(index@[k as int].tags@).len() > 0 {
                    1int
                } else {
                    0int
                }) + count_key(index@, uviews(sorted@), key@, i0 + 1));
            }
            proof {
                assert(add <= 2);
                assert(2 * ((i + 1) as int) == 2 * (i as int) + 2);
            }
            n = n + add;
        } else {
            proof {
                assert(count_key(index@, uviews(sorted@), key@, i0) == count_key(
                    index@,
                    uviews(sorted@),
                    key@,
                    i0 + 1,
                ));
            }
        }
        i += 1;
    }
    n
}

/// Executable candidate ordering matching `le_cand`.
fn le_cand_x(index: &Vec<Page>, sorted: &Vec<usize>, a: &Vec<char>, b: &Vec<char>) -> (r: bool)
    ensures
        r == le_cand(index@, uviews(sorted@), a@, b@),
{
    let ca = count_key_x(index, sorted, a);
    let cb = count_key_x(index, sorted, b);
    if ca > cb {
        true
    } else if ca == cb {
        let r = seq_le_x(a, b, 0);
        proof {
            assert(a@.skip(0) =~= a@);
            assert(b@.skip(0) =~= b@);
        }
        r
    } else {
        false
    }
}

/// The split point of a stable candidate insertion.
fn cand_stop(
    s: &Vec<Vec<char>>,
    index: &Vec<Page>,
    sorted: &Vec<usize>,
    x: &Vec<char>,
    i: usize,
) -> (r: usize)
    requires
        i <= s.len(),
        forall|k: int|
            0 <= k < i ==> le_cand(index@, uviews(sorted@), crate::text::vviews(s@)[k], x@),
    ensures
        i <= r <= s@.len(),
        forall|k: int|
            0 <= k < r ==> le_cand(index@, uviews(sorted@), crate::text::vviews(s@)[k], x@),
        r < s@.len() ==> !le_cand(index@, uviews(sorted@), crate::text::vviews(s@)[r as int], x@),
    decreases s.len() - i,
{
    if i == s.len() {
        i
    } else {
        let hit = le_cand_x(index, sorted, &s[i], x);
        proof {
            assert(crate::text::vviews(s@)[i as int] == s@[i as int]@);
        }
        if hit {
            cand_stop(s, index, sorted, x, i + 1)
        } else {
            i
        }
    }
}

/// The shape of a stable candidate insertion.
proof fn lemma_insert_cand_shape(
    x: Seq<char>,
    s: Seq<Seq<char>>,
    index: Seq<Page>,
    sorted: Seq<int>,
    stop: int,
)
    requires
        0 <= stop <= s.len(),
        forall|k: int| 0 <= k < stop ==> le_cand(index, sorted, s[k], x),
        stop < s.len() ==> !le_cand(index, sorted, s[stop], x),
    ensures
        insert_cand(x, s, index, sorted).len() == s.len() + 1,
        forall|k: int| 0 <= k < stop ==> insert_cand(x, s, index, sorted)[k] == s[k],
        insert_cand(x, s, index, sorted)[stop] == x,
        forall|k: int| stop <= k < s.len() ==> insert_cand(x, s, index, sorted)[k + 1] == s[k],
    decreases s.len(),
{
    if s.len() == 0 {
    } else if le_cand(index, sorted, s[0], x) {
        assert(stop >= 1) by {
            if stop == 0 {
                assert(!le_cand(index, sorted, s[0], x));
            }
        }
        lemma_insert_cand_shape(x, s.drop_first(), index, sorted, stop - 1);
        assert forall|k: int| 1 <= k < stop implies insert_cand(x, s, index, sorted)[k] == s[k] by {
            assert(insert_cand(x, s, index, sorted)[k] == insert_cand(
                x,
                s.drop_first(),
                index,
                sorted,
            )[k - 1]);
            assert(s.drop_first()[k - 1] == s[k]);
        }
        assert forall|k: int| stop <= k < s.len() implies insert_cand(x, s, index, sorted)[k + 1]
            == s[k] by {
            assert(insert_cand(x, s, index, sorted)[k + 1] == insert_cand(
                x,
                s.drop_first(),
                index,
                sorted,
            )[k]);
            if k >= 1 {
                assert(s.drop_first()[k - 1] == s[k]);
            }
        }
    } else {
        assert(stop == 0);
    }
}

/// Executable stable candidate insertion matching `insert_cand`.
fn insert_cand_x(
    x: Vec<char>,
    s: &Vec<Vec<char>>,
    index: &Vec<Page>,
    sorted: &Vec<usize>,
) -> (r: Vec<Vec<char>>)
    ensures
        crate::text::vviews(r@) == insert_cand(
            x@,
            crate::text::vviews(s@),
            index@,
            uviews(sorted@),
        ),
{
    let stop = cand_stop(s, index, sorted, &x, 0);
    let mut out: Vec<Vec<char>> = Vec::new();
    let mut i: usize = 0;
    while i < stop
        invariant
            i <= stop <= s@.len(),
            out@.len() == i,
            forall|k: int| 0 <= k < i ==> (#[trigger] out@[k])@ == s@[k]@,
        decreases stop - i,
    {
        out.push(crate::text::seg_vec(&s[i], 0, s[i].len()));
        proof {
            assert(out@[i as int]@ =~= s@[i as int]@);
        }
        i += 1;
    }
    let ghost xv = x@;
    out.push(x);
    let mut j: usize = stop;
    while j < s.len()
        invariant
            stop <= j <= s@.len(),
            out@.len() == j + 1,
            forall|k: int| 0 <= k < stop ==> (#[trigger] out@[k])@ == s@[k]@,
            out@[stop as int]@ == xv,
            forall|k: int| stop <= k < j ==> (#[trigger] out@[k + 1])@ == s@[k]@,
        decreases s@.len() - j,
    {
        out.push(crate::text::seg_vec(&s[j], 0, s[j].len()));
        proof {
            assert(out@[j + 1]@ =~= s@[j as int]@);
        }
        j += 1;
    }
    proof {
        lemma_insert_cand_shape(xv, crate::text::vviews(s@), index@, uviews(sorted@), stop as int);
        assert forall|k: int| 0 <= k < crate::text::vviews(out@).len() implies crate::text::vviews(
            out@,
        )[k] == insert_cand(xv, crate::text::vviews(s@), index@, uviews(sorted@))[k] by {
            assert(crate::text::vviews(out@)[k] == out@[k]@);
            if k < stop {
                assert(crate::text::vviews(s@)[k] == s@[k]@);
            } else if k > stop {
                assert(crate::text::vviews(s@)[k - 1] == s@[k - 1]@);
            }
        }
        assert(crate::text::vviews(out@) =~= insert_cand(
            xv,
            crate::text::vviews(s@),
            index@,
            uviews(sorted@),
        ));
    }
    out
}

/// A copy of a character vector.
fn copy_chars(v: &Vec<char>) -> (r: Vec<char>)
    ensures
        r@ == v@,
{
    let r = crate::text::seg_vec(v, 0, v.len());
    assert(r@ =~= v@);
    r
}

/// The automatic column chooser, executable: exactly `detect_spec`.
pub fn detect_common_properties(index: &Vec<Page>, sorted: &Vec<usize>) -> (r: Vec<String>)
    ensures
        sviews(r@) == detect_spec(index@, uviews(sorted@)),
{
    let ghost sv = uviews(sorted@);
    let tg = str_to_chars("tags");
    let mut cs: Vec<Vec<char>> = Vec::new();
    let mut i: usize = 0;
    assert(crate::text::vviews(cs@) =~= Seq::<Seq<char>>::empty());
    while i < sorted.len()
        invariant
            i <= sorted@.len(),
            sv == uviews(sorted@),
            tg@ == "tags"@,
            cands_rec(index@, sv, 0, Seq::empty()) == cands_rec(
                index@,
                sv,
                i as int,
                crate::text::vviews(cs@),
            ),
        decreases sorted@.len() - i,
    {
        let ghost i0 = i as int;
        let k = sorted[i];
        proof {
            assert(sv[i0] == k as int);
        }
        if k < index.len() {
            let p = &index[k];
            let ghost ps = pviews(p.properties@);
            let ghost cv0 = crate::text::vviews(cs@);
            let mut j: usize = 0;
            while j < p.properties.len()
                invariant
                    j <= p.properties@.len(),
                    ps == pviews(p.properties@),
                    cand_props(ps, 0, cv0) == cand_props(ps, j as int, crate::text::vviews(cs@)),
                decreases p.properties@.len() - j,
            {
                let ghost j0 = j as int;
                let key = str_to_chars(p.properties[j].0.as_str());
                proof {
                    assert(pviews(p.properties@)[j0] == (
                    p.properties@[j0].0@,
                    p.properties@[j0].1@,
                    ));
                    assert(ps[j0].0 == p.properties@[j0].0@);
                    assert(cand_props(ps, j0, crate::text::vviews(cs@)) == cand_props(
                        ps,
                        j0 + 1,
                        if !is_special_key(ps[j0].0) && !seq_contains_str(
                            crate::text::vviews(cs@),
                            ps[j0].0,
                        ) {
                            crate::text::vviews(cs@).push(ps[j0].0)
                        } else {
                            crate::text::vviews(cs@)
                        },
                    ));
                }
                let ghost before = crate::text::vviews(cs@);
                if !is_special_key_x(&key) && !cand_contains(&cs, &key) {
                    cs.push(key);
                    proof {
                        assert(crate::text::vviews(cs@) =~= before.push(ps[j0].0));
                    }
                }
                j += 1;
            }
            let ghost acc2 = crate::text::vviews(cs@);
            proof {
                assert(acc2 == cand_props(ps, 0, cv0));
            }
            let ghost before = crate::text::vviews(cs@);
            if p.tags.len() > 0 && !cand_contains(&cs, &tg) {
                proof {
                    assert(sviews(index@[k as int].tags@).len() == p.tags@.len());
                }
                cs.push(copy_chars(&tg));
                proof {
                    assert(crate::text::vviews(cs@) =~= before.push("tags"@));
                }
            } else {
                proof {
                    if p.tags.len() == 0 {
                        assert(sviews(index@[k as int].tags@).len() == 0);
                    }
                }
            }
            proof {
                assert(cands_rec(index@, sv, i0, cv0) == cands_rec(
                    index@,
                    sv,
                    i0 + 1,
                    crate::text::vviews(cs@),
                ));
            }
        } else {
            proof {
                assert(cands_rec(index@, sv, i0, crate::text::vviews(cs@)) == cands_rec(
                    index@,
                    sv,
                    i0 + 1,
                    crate::text::vviews(cs@),
                ));
            }
        }
        i += 1;
    }
    let ghost csv = crate::text::vviews(cs@);
    proof {
        assert(csv == cands_rec(index@, sv, 0, Seq::empty()));
    }

    let threshold: usize = if sorted.len() / 3 >= 1 {
        sorted.len() / 3
    } else {
        1
    };
    let ghost th = (if sv.len() / 3 >= 1 {
        sv.len() as int / 3
    } else {
        1int
    });
    assert(threshold as int == th);

    let mut q: Vec<Vec<char>> = Vec::new();
    let mut i: usize = 0;
    assert(crate::text::vviews(q@) =~= Seq::<Seq<char>>::empty());
    while i < cs.len()
        invariant
            i <= cs@.len(),
            sv == uviews(sorted@),
            csv == crate::text::vviews(cs@),
            threshold as int == th,
            qualify(csv, index@, sv, th, 0) =~= crate::text::vviews(q@) + qualify(
                csv,
                index@,
                sv,
                th,
                i as int,
            ),
        decreases cs@.len() - i,
    {
        let ghost i0 = i as int;
        proof {
            assert(csv[i0] == cs@[i0]@);
            assert(qualify(csv, index@, sv, th, i0) =~= (if count_key(index@, sv, csv[i0], 0)
                >= th {
                seq![csv[i0]]
            } else {
                Seq::<Seq<char>>::empty()
            }) + qualify(csv, index@, sv, th, i0 + 1));
        }
        let cnt = count_key_x(index, sorted, &cs[i]);
        let ghost before = crate::text::vviews(q@);
        if cnt >= threshold as u128 {
            q.push(copy_chars(&cs[i]));
            proof {
                assert(crate::text::vviews(q@) =~= before.push(csv[i0]));
            }
        }
        i += 1;
    }
    proof {
        assert(qualify(csv, index@, sv, th, csv.len() as int) =~= Seq::<Seq<char>>::empty());
        assert(crate::text::vviews(q@) =~= crate::text::vviews(q@) + Seq::<Seq<char>>::empty());
    }
    let ghost qv = crate::text::vviews(q@);
    proof {
        assert(qv == qualify(csv, index@, sv, th, 0));
    }

    let mut sc: Vec<Vec<char>> = Vec::new();
    let mut i: usize = 0;
    assert(crate::text::vviews(sc@) =~= Seq::<Seq<char>>::empty());
    while i < q.len()
        invariant
            i <= q@.len(),
            sv == uviews(sorted@),
            qv == crate::text::vviews(q@),
            sort_cand(qv, index@, sv, 0, Seq::empty()) == sort_cand(
                qv,
                index@,
                sv,
                i as int,
                crate::text::vviews(sc@),
            ),
        decreases q@.len() - i,
    {
        let ghost i0 = i as int;
        proof {
            assert(qv[i0] == q@[i0]@);
            assert(sort_cand(qv, index@, sv, i0, crate::text::vviews(sc@)) == sort_cand(
                qv,
                index@,
                sv,
                i0 + 1,
                insert_cand(qv[i0], crate::text::vviews(sc@), index@, sv),
            ));
        }
        sc = insert_cand_x(copy_chars(&q[i]), &sc, index, sorted);
        i += 1;
    }
    let ghost scv = crate::text::vviews(sc@);
    proof {
        assert(scv == sort_cand(qv, index@, sv, 0, Seq::empty()));
    }

    let mut out: Vec<String> = Vec::new();
    out.push(chars_to_string(&str_to_chars("page")));
    let n: usize = if sc.len() > 3 {
        3
    } else {
        sc.len()
    };
    let mut m: usize = 0;
    while m < n
        invariant
            m <= n <= sc@.len(),
            scv == crate::text::vviews(sc@),
            out@.len() == m + 1,
            out@[0]@ == "page"@,
            forall|k: int| 1 <= k < m + 1 ==> (#[trigger] out@[k])@ == scv[k - 1],
        decreases n - m,
    {
        proof {
            assert(scv[m as int] == sc@[m as int]@);
        }
        out.push(chars_to_string(&sc[m]));
        m += 1;
    }
    proof {
        let spec_r = detect_spec(index@, uviews(sorted@));
        assert forall|k: int| 0 <= k < sviews(out@).len() implies sviews(out@)[k] == spec_r[k] by {
            assert(sviews(out@)[k] == out@[k]@);
            if k >= 1 {
                if scv.len() > 3 {
                    assert(spec_r[k] == scv.take(3)[k - 1]);
                } else {
                    assert(spec_r[k] == scv[k - 1]);
                }
            }
        }
        assert(sviews(out@) =~= spec_r);
    }
    out
}


/// The empty-result callout: an informational block quoting the query,
/// truncated past eighty characters.
pub open spec fn callout(q: Seq<char>) -> Seq<char> {
    "> [!info] Query Results\n> No pages match this query.\n> `"@ + (if q.len() > 80 {
        q.take(80) + "..."@
    } else {
        q
    }) + "`"@
}

/// The rendering of query results under the given options: the callout
/// when nothing matched; otherwise the results sorted, then a table under
/// the explicit or automatic columns, or a list when the table override
/// turns the table off.
pub open spec fn render_spec(index: Seq<Page>, results: Seq<int>, q: Seq<char>, o: OptsV) -> Seq<
    char,
> {
    if results.len() == 0 {
        callout(q)
    } else {
        let sorted = sort_res(results, index, o, 0, Seq::empty());
        if o.properties.len() > 0 {
            table_spec(index, sorted, o.properties)
        } else if o.table == Some(false) {
            list_spec(index, sorted, 0)
        } else {
            table_spec(index, sorted, detect_spec(index, sorted))
        }
    }
}

/// Renders query results to markdown under the given options: exactly
/// `render_spec`.
pub fn results_to_markdown_with_options(
    index: &Vec<Page>,
    results: &Vec<usize>,
    query_str: &str,
    options: &QueryOptions,
) -> (r: String)
    ensures
        r@ == render_spec(index@, uviews(results@), query_str@, opts_view(*options)),
{
    if results.len() == 0 {
        let qv = str_to_chars(query_str);
        let mut out = str_to_chars("> [!info] Query Results\n> No pages match this query.\n> `");
        if qv.len() > 80 {
            crate::text::push_seg(&mut out, &qv, 0, 80);
            push_str_chars(&mut out, "...");
            assert(out@ =~= "> [!info] Query Results\n> No pages match this query.\n> `"@
                + (query_str@.take(80) + "..."@));
        } else {
            push_all(&mut out, &qv);
        }
        push_str_chars(&mut out, "`");
        assert(uviews(results@) =~= Seq::<int>::empty());
        assert(out@ =~= callout(query_str@));
        return chars_to_string(&out);
    }
    let sorted = sort_res_x(results, index, options);
    if options.properties.len() > 0 {
        let t = render_table_x(index, &sorted, &options.properties);
        chars_to_string(&t)
    } else {
        let force_list = match options.table {
            Some(b) => !b,
            None => false,
        };
        if force_list {
            let l = render_list_x(index, &sorted);
            chars_to_string(&l)
        } else {
            let props = detect_common_properties(index, &sorted);
            let t = render_table_x(index, &sorted, &props);
            chars_to_string(&t)
        }
    }
}

/// Renders query results under the default options.
pub fn results_to_markdown(index: &Vec<Page>, results: &Vec<usize>, query_str: &str) -> (r:
    String)
    ensures
        r@ == render_spec(index@, uviews(results@), query_str@, opts_default()),
{
    let o = QueryOptions::default();
    let r = results_to_markdown_with_options(index, results, query_str, &o);
    proof {
        assert(sviews(o.properties@) =~= Seq::<Seq<char>>::empty());
        assert(opts_view(o) == opts_default());
    }
    r
}

/// One page's tags appended, skipping any already collected.
pub open spec fn add_tags(ts: Seq<Seq<char>>, j: int, acc: Seq<Seq<char>>) -> Seq<Seq<char>>
    decreases ts.len() - j,
{
    if j < 0 || j >= ts.len() {
        acc
    } else {
        add_tags(
            ts,
            j + 1,
            if seq_contains_str(acc, ts[j]) {
                acc
            } else {
                acc.push(ts[j])
            },
        )
    }
}

/// Every observed tag, in first-seen order.
pub open spec fn all_tags_collect(index: Seq<Page>, i: int, acc: Seq<Seq<char>>) -> Seq<Seq<char>>
    decreases index.len() - i,
{
    if i < 0 || i >= index.len() {
        acc
    } else {
        all_tags_collect(index, i + 1, add_tags(sviews(index[i].tags@), 0, acc))
    }
}

/// The distinct observed tags in ascending order.
pub open spec fn get_all_tags_spec(index: Seq<Page>) -> Seq<Seq<char>> {
    sort_cand(all_tags_collect(index, 0, Seq::empty()), index, Seq::empty(), 0, Seq::empty())
}

/// The distinct observed tags in ascending order, executable.
pub fn get_all_tags(index: &Vec<Page>) -> (r: Vec<String>)
    ensures
        sviews(r@) == get_all_tags_spec(index@),
{
    let mut acc: Vec<Vec<char>> = Vec::new();
    let mut i: usize = 0;
    assert(crate::text::vviews(acc@) =~= Seq::<Seq<char>>::empty());
    while i < index.len()
        invariant
            i <= index@.len(),
            all_tags_collect(index@, 0, Seq::empty()) == all_tags_collect(
                index@,
                i as int,
                crate::text::vviews(acc@),
            ),
        decreases index@.len() - i,
    {
        let ghost i0 = i as int;
        let p = &index[i];
        let ghost ts = sviews(p.tags@);
        let ghost a0 = crate::text::vviews(acc@);
        proof {
            assert(all_tags_collect(index@, i0, a0) == all_tags_collect(
                index@,
                i0 + 1,
                add_tags(sviews(index@[i0].tags@), 0, a0),
            ));
        }
        let mut j: usize = 0;
        while j < p.tags.len()
            invariant
                j <= p.tags@.len(),
                ts == sviews(p.tags@),
                add_tags(ts, 0, a0) == add_tags(ts, j as int, crate::text::vviews(acc@)),
            decreases p.tags@.len() - j,
        {
            let ghost j0 = j as int;
            let tv = str_to_chars(p.tags[j].as_str());
            proof {
                assert(ts[j0] == p.tags@[j0]@);
                assert(add_tags(ts, j0, crate::text::vviews(acc@)) == add_tags(
                    ts,
                    j0 + 1,
                    if seq_contains_str(crate::text::vviews(acc@), ts[j0]) {
                        crate::text::vviews(acc@)
                    } else {
                        crate::text::vviews(acc@).push(ts[j0])
                    },
                ));
            }
            let ghost before = crate::text::vviews(acc@);
            if !cand_contains(&acc, &tv) {
                acc.push(tv);
                proof {
                    assert(crate::text::vviews(acc@) =~= before.push(ts[j0]));
                }
            }
            j += 1;
        }
        i += 1;
    }
    let ghost collected = crate::text::vviews(acc@);
    proof {
        assert(collected == all_tags_collect(index@, 0, Seq::empty()));
    }
    let empty_sorted: Vec<usize> = Vec::new();
    assert(uviews(empty_sorted@) =~= Seq::<int>::empty());
    let mut sc: Vec<Vec<char>> = Vec::new();
    let mut i: usize = 0;
    assert(crate::text::vviews(sc@) =~= Seq::<Seq<char>>::empty());
    while i < acc.len()
        invariant
            i <= acc@.len(),
            collected == crate::text::vviews(acc@),
            uviews(empty_sorted@) == Seq::<int>::empty(),
            sort_cand(collected, index@, Seq::empty(), 0, Seq::empty()) == sort_cand(
                collected,
                index@,
                Seq::empty(),
                i as int,
                crate::text::vviews(sc@),
            ),
        decreases acc@.len() - i,
    {
        let ghost i0 = i as int;
        proof {
            assert(collected[i0] == acc@[i0]@);
            assert(sort_cand(collected, index@, Seq::empty(), i0, crate::text::vviews(sc@))
                == sort_cand(
                collected,
                index@,
                Seq::empty(),
                i0 + 1,
                insert_cand(collected[i0], crate::text::vviews(sc@), index@, Seq::empty()),
            ));
        }
        sc = insert_cand_x(copy_chars(&acc[i]), &sc, index, &empty_sorted);
        i += 1;
    }
    let mut out: Vec<String> = Vec::new();
    let mut m: usize = 0;
    while m < sc.len()
        invariant
            m <= sc@.len(),
            sort_cand(collected, index@, Seq::empty(), 0, Seq::empty()) == crate::text::vviews(
                sc@,
            ),
            out@.len() == m,
            forall|k: int| 0 <= k < m ==> (#[trigger] out@[k])@ == sc@[k]@,
        decreases sc@.len() - m,
    {
        out.push(chars_to_string(&sc[m]));
        m += 1;
    }
    proof {
        assert forall|k: int| 0 <= k < sviews(out@).len() implies sviews(out@)[k]
            == get_all_tags_spec(index@)[k] by {
            assert(sviews(out@)[k] == out@[k]@);
            assert(crate::text::vviews(sc@)[k] == sc@[k]@);
        }
        assert(sviews(out@) =~= get_all_tags_spec(index@));
    }
    out
}


/// The bracketed column list of the first well-formed properties option
/// in the context, searching on from `i`.
pub open spec fn props_content(s: Seq<char>, i: int) -> Option<Seq<char>>
    decreases s.len() - i,
{
    if i < 0 || i > s.len() {
        None
    } else {
        let f0 = find_seq_from(s, "query-properties::"@, i);
        let f = if f0 < i {
            i
        } else if f0 > s.len() {
            s.len() as int
        } else {
            f0
        };
        if f >= s.len() {
            None
        } else {
            let a = f + "query-properties::"@.len();
            let j = skip_ws_from(s, a);
            if j < s.len() && s[j] == '[' {
                let c0 = if j + 1 < s.len() && s[j + 1] == ':' {
                    j + 2
                } else {
                    j + 1
                };
                let e = find_from(s, ']', c0);
                if e > c0 && e < s.len() {
                    Some(s.subrange(c0, e))
                } else {
                    props_content(s, f + 1)
                }
            } else {
                props_content(s, f + 1)
            }
        }
    }
}

/// One column token cleaned: trimmed, leading colons dropped.
pub open spec fn clean_prop_item(t: Seq<char>) -> Seq<char> {
    strip_all_prefix(trim_seq(t), ":"@)
}

/// The column list split at commas and spaces, tokens cleaned, empty ones
/// dropped.
pub open spec fn split_prop_items(
    s: Seq<char>,
    i: int,
    cur: Seq<char>,
    acc: Seq<Seq<char>>,
) -> Seq<Seq<char>>
    decreases s.len() - i,
{
    if i < 0 || i >= s.len() {
        if clean_prop_item(cur).len() > 0 {
            acc.push(clean_prop_item(cur))
        } else {
            acc
        }
    } else if s[i] == ',' || s[i] == ' ' {
        split_prop_items(
            s,
            i + 1,
            Seq::empty(),
            if clean_prop_item(cur).len() > 0 {
                acc.push(clean_prop_item(cur))
            } else {
                acc
            },
        )
    } else {
        split_prop_items(s, i + 1, cur.push(s[i]), acc)
    }
}

/// The explicit columns the context names, or none.
pub open spec fn props_opt(s: Seq<char>) -> Seq<Seq<char>> {
    match props_content(s, 0) {
        Some(c) => split_prop_items(c, 0, Seq::empty(), Seq::empty()),
        None => Seq::empty(),
    }
}

/// The sort key the context names, or none.
pub open spec fn sort_by_opt(s: Seq<char>) -> Option<Seq<char>> {
    let f = find_seq_from(s, "query-sort-by::"@, 0);
    if 0 <= f < s.len() {
        let j = skip_ws_from(s, f + "query-sort-by::"@.len());
        let k0 = if j < s.len() && s[j] == ':' {
            j + 1
        } else {
            j
        };
        let e = scan_while(s, Cls::NonWs, k0);
        if e > k0 && k0 <= s.len() {
            Some(s.subrange(k0, if e > s.len() {
                s.len() as int
            } else {
                e
            }))
        } else {
            None
        }
    } else {
        None
    }
}

/// Whether the context turns descending sorting on.
pub open spec fn sort_desc_opt(s: Seq<char>) -> bool {
    let f = find_seq_from(s, "query-sort-desc::"@, 0);
    if 0 <= f < s.len() {
        at(s, skip_ws_from(s, f + "query-sort-desc::"@.len()), "true"@)
    } else {
        false
    }
}

/// The table override the context names, or none.
pub open spec fn table_opt(s: Seq<char>) -> Option<bool> {
    let f = find_seq_from(s, "query-table::"@, 0);
    if 0 <= f < s.len() {
        let j = skip_ws_from(s, f + "query-table::"@.len());
        if at(s, j, "true"@) {
            Some(true)
        } else if at(s, j, "false"@) {
            Some(false)
        } else {
            None
        }
    } else {
        None
    }
}

/// Parses the query options out of the option lines preceding a query.
pub fn parse_query_options(context: &str) -> (r: QueryOptions)
    ensures
        opts_view(r) == (OptsV {
            properties: props_opt(context@),
            sort_by: sort_by_opt(context@),
            sort_desc: sort_desc_opt(context@),
            table: table_opt(context@),
        }),
{
    let s = str_to_chars(context);

    let mut properties: Vec<String> = Vec::new();
    assert(sviews(properties@) =~= Seq::<Seq<char>>::empty());
    match props_content_x(&s, 0) {
        Some(c) => {
            let colon = str_to_chars(":");
            let ghost cv = c@;
            let mut cur: Vec<char> = Vec::new();
            let mut i: usize = 0;
            assert(cur@ =~= Seq::<char>::empty());
            while i < c.len()
                invariant
                    i <= c@.len(),
                    colon@ == ":"@,
                    cv == c@,
                    split_prop_items(cv, 0, Seq::empty(), Seq::empty()) == split_prop_items(
                        cv,
                        i as int,
                        cur@,
                        sviews(properties@),
                    ),
                decreases c@.len() - i,
            {
                let ghost i0 = i as int;
                let ch = c[i];
                if ch == ',' || ch == ' ' {
                    proof {
                        assert(split_prop_items(cv, i0, cur@, sviews(properties@))
                            == split_prop_items(cv, i0 + 1, Seq::empty(), if clean_prop_item(
                            cur@,
                        ).len() > 0 {
                            sviews(properties@).push(clean_prop_item(cur@))
                        } else {
                            sviews(properties@)
                        }));
                    }
                    let t = strip_all_prefix_x(&trim_vec(&cur), &colon);
                    assert(t@ == clean_prop_item(cur@));
                    let ghost before = sviews(properties@);
                    if t.len() > 0 {
                        properties.push(chars_to_string(&t));
                        proof {
                            assert(sviews(properties@) =~= before.push(clean_prop_item(cur@)));
                        }
                    }
                    cur = Vec::new();
                    assert(cur@ =~= Seq::<char>::empty());
                } else {
                    proof {
                        assert(split_prop_items(cv, i0, cur@, sviews(properties@))
                            == split_prop_items(cv, i0 + 1, cur@.push(cv[i0]), sviews(
                            properties@,
                        )));
                    }
                    cur.push(ch);
                }
                i += 1;
            }
            let t = strip_all_prefix_x(&trim_vec(&cur), &colon);
            assert(t@ == clean_prop_item(cur@));
            let ghost before = sviews(properties@);
            if t.len() > 0 {
                properties.push(chars_to_string(&t));
                proof {
                    assert(sviews(properties@) =~= before.push(clean_prop_item(cur@)));
                }
            }
        },
        None => {},
    }

    let kw_sb = str_to_chars("query-sort-by::");
    let f = find_seq_from_x(&s, &kw_sb, 0);
    let sort_by: Option<String> = if f < s.len() {
        proof {
            crate::text::lemma_find_seq_from(s@, kw_sb@, 0);
        }
        let j = skip_ws_from_x(&s, f + kw_sb.len());
        let k0 = if j < s.len() && s[j] == ':' {
            j + 1
        } else {
            j
        };
        let e = scan_while_x(&s, Cls::NonWs, k0);
        if e > k0 {
            let seg = crate::text::seg_vec(&s, k0, e);
            assert(seg@ == sort_by_opt(context@)->0);
            Some(chars_to_string(&seg))
        } else {
            None
        }
    } else {
        None
    };

    let kw_sd = str_to_chars("query-sort-desc::");
    let fd = find_seq_from_x(&s, &kw_sd, 0);
    let sort_desc: bool = if fd < s.len() {
        proof {
            crate::text::lemma_find_seq_from(s@, kw_sd@, 0);
        }
        let j = skip_ws_from_x(&s, fd + kw_sd.len());
        at_x(&s, j, &str_to_chars("true"))
    } else {
        false
    };

    let kw_t = str_to_chars("query-table::");
    let ft = find_seq_from_x(&s, &kw_t, 0);
    let table: Option<bool> = if ft < s.len() {
        proof {
            crate::text::lemma_find_seq_from(s@, kw_t@, 0);
        }
        let j = skip_ws_from_x(&s, ft + kw_t.len());
        if at_x(&s, j, &str_to_chars("true")) {
            Some(true)
        } else if at_x(&s, j, &str_to_chars("false")) {
            Some(false)
        } else {
            None
        }
    } else {
        None
    };

    QueryOptions { properties, sort_by, sort_desc, table }
}

/// Executable search for the properties option matching `props_content`.
fn props_content_x(s: &Vec<char>, i: usize) -> (r: Option<Vec<char>>)
    requires
        i <= s.len(),
    ensures
        match r {
            Some(c) => props_content(s@, i as int) == Some(c@),
            None => props_content(s@, i as int) is None,
        },
    decreases s.len() - i,
{
    let kw = str_to_chars("query-properties::");
    let f = find_seq_from_x(s, &kw, i);
    if f >= s.len() {
        return None;
    }
    proof {
        crate::text::lemma_find_seq_from(s@, kw@, i as int);
    }
    let a = f + kw.len();
    let start = if a <= s.len() {
        a
    } else {
        s.len()
    };
    assert(skip_ws_from(s@, start as int) == skip_ws_from(s@, a as int));
    let j = skip_ws_from_x(s, start);
    if j < s.len() && s[j] == '[' {
        let c0 = if j + 1 < s.len() && s[j + 1] == ':' {
            j + 2
        } else {
            j + 1
        };
        let e = find_from_x(s, ']', c0);
        if e > c0 && e < s.len() {
            Some(crate::text::seg_vec(s, c0, e))
        } else {
            props_content_x(s, f + 1)
        }
    } else {
        props_content_x(s, f + 1)
    }
}


/// No two positions of a result name the same page.
pub open spec fn nodup_names(r: Seq<int>, index: Seq<Page>) -> bool {
    forall|k1: int, k2: int|
        0 <= k1 < k2 < r.len() && 0 <= r[k1] < index.len() && 0 <= #[trigger] r[k2] < index.len()
            ==> index[r[k1]].name@ != index[#[trigger] r[k1]].name@ || index[r[k1]].name@
            != index[r[k2]].name@
}

/// A name found at or after position `m` of a result.
pub open spec fn name_member_from(res: Seq<int>, index: Seq<Page>, n: Seq<char>, m: int) -> bool {
    exists|k: int|
        m <= k < res.len() && 0 <= res[k] < index.len() && index[#[trigger] res[k]].name@ == n
}

/// Merging one operand's result adds exactly the names it holds that the
/// union lacks, and never duplicates a name.
pub proof fn lemma_add_new(acc: Seq<int>, res: Seq<int>, index: Seq<Page>, m: int)
    requires
        m >= 0,
        nodup_names(acc, index),
    ensures
        nodup_names(add_new(acc, res, index, m), index),
        forall|n: Seq<char>|
            #[trigger] name_member(add_new(acc, res, index, m), index, n) <==> name_member(
                acc,
                index,
                n,
            ) || name_member_from(res, index, n, m),
    decreases res.len() - m,
{
    if m >= res.len() {
        assert forall|n: Seq<char>|
            #[trigger] name_member(add_new(acc, res, index, m), index, n) <==> name_member(
                acc,
                index,
                n,
            ) || name_member_from(res, index, n, m) by {
            assert(!name_member_from(res, index, n, m));
        }
    } else if 0 <= res[m] < index.len() && !name_member(acc, index, index[res[m]].name@) {
        let acc2 = acc.push(res[m]);
        assert(nodup_names(acc2, index)) by {
            assert forall|k1: int, k2: int|
                0 <= k1 < k2 < acc2.len() && 0 <= acc2[k1] < index.len() && 0 <= #[trigger] acc2[k2]
                    < index.len() implies index[acc2[k1]].name@ != index[#[trigger] acc2[k1]].name@
                || index[acc2[k1]].name@ != index[acc2[k2]].name@ by {
                if k2 == acc2.len() - 1 {
                    if index[acc2[k1]].name@ == index[acc2[k2]].name@ {
                        assert(name_member(acc, index, index[res[m]].name@));
                    }
                }
            }
        }
        lemma_add_new(acc2, res, index, m + 1);
        assert forall|n: Seq<char>|
            #[trigger] name_member(add_new(acc, res, index, m), index, n) <==> name_member(
                acc,
                index,
                n,
            ) || name_member_from(res, index, n, m) by {
            assert(name_member(acc2, index, n) <==> name_member(acc, index, n) || index[res[m]].name@
                == n) by {
                if name_member(acc2, index, n) {
                    let k = choose|k: int|
                        0 <= k < acc2.len() && 0 <= acc2[k] < index.len() && index[#[trigger] acc2[k]].name@
                            == n;
                    if k < acc.len() {
                        assert(name_member(acc, index, n));
                    }
                }
                if name_member(acc, index, n) {
                    let k = choose|k: int|
                        0 <= k < acc.len() && 0 <= acc[k] < index.len() && index[#[trigger] acc[k]].name@
                            == n;
                    assert(acc2[k] == acc[k]);
                    assert(name_member(acc2, index, n));
                }
                if index[res[m]].name@ == n {
                    assert(acc2[acc.len() as int] == res[m]);
                    assert(name_member(acc2, index, n));
                }
            }
            assert(name_member_from(res, index, n, m) <==> index[res[m]].name@ == n
                || name_member_from(res, index, n, m + 1)) by {
                if name_member_from(res, index, n, m) {
                    let k = choose|k: int|
                        m <= k < res.len() && 0 <= res[k] < index.len() && index[#[trigger] res[k]].name@
                            == n;
                    if k > m {
                        assert(name_member_from(res, index, n, m + 1));
                    }
                }
                if index[res[m]].name@ == n {
                    assert(m <= m < res.len() && 0 <= res[m] < index.len() && index[res[m]].name@
                        == n);
                }
            }
        }
    } else {
        lemma_add_new(acc, res, index, m + 1);
        assert forall|n: Seq<char>|
            #[trigger] name_member(add_new(acc, res, index, m), index, n) <==> name_member(
                acc,
                index,
                n,
            ) || name_member_from(res, index, n, m) by {
            assert(name_member_from(res, index, n, m) <==> (0 <= res[m] < index.len()
                && index[res[m]].name@ == n) || name_member_from(res, index, n, m + 1)) by {
                if name_member_from(res, index, n, m) {
                    let k = choose|k: int|
                        m <= k < res.len() && 0 <= res[k] < index.len() && index[#[trigger] res[k]].name@
                            == n;
                    if k > m {
                        assert(name_member_from(res, index, n, m + 1));
                    }
                }
            }
            if 0 <= res[m] < index.len() && index[res[m]].name@ == n && name_member(
                acc,
                index,
                index[res[m]].name@,
            ) {
                assert(name_member(acc, index, n));
            }
        }
    }
}

/// A disjunction returns the deduplicated union of its operands: a name
/// stands in the result exactly when some operand's result holds it, and
/// no name stands in the result twice.
pub proof fn lemma_or_dedup_union(
    parts: Seq<Seq<char>>,
    index: Seq<Page>,
    fuel: nat,
    j: int,
    acc: Seq<int>,
)
    requires
        0 <= j <= parts.len(),
        nodup_names(acc, index),
        forall|n: Seq<char>|
            #[trigger] name_member(acc, index, n) <==> exists|jj: int|
                0 <= jj < j && name_member(#[trigger] eval(parts[jj], index, fuel), index, n),
    ensures
        nodup_names(or_rec(parts, index, fuel, j, acc), index),
        forall|n: Seq<char>|
            #[trigger] name_member(or_rec(parts, index, fuel, j, acc), index, n) <==> exists|jj: int|
                0 <= jj < parts.len() && name_member(
                    #[trigger] eval(parts[jj], index, fuel),
                    index,
                    n,
                ),
    decreases parts.len() - j,
{
    if j == parts.len() {
    } else {
        let res = eval(parts[j], index, fuel);
        let acc2 = add_new(acc, res, index, 0);
        lemma_add_new(acc, res, index, 0);
        assert forall|n: Seq<char>|
            #[trigger] name_member(acc2, index, n) <==> exists|jj: int|
                0 <= jj < j + 1 && name_member(#[trigger] eval(parts[jj], index, fuel), index, n) by {
            if name_member(acc2, index, n) {
                if name_member(acc, index, n) {
                    let jj = choose|jj: int|
                        0 <= jj < j && name_member(
                            #[trigger] eval(parts[jj], index, fuel),
                            index,
                            n,
                        );
                    assert(name_member(eval(parts[jj], index, fuel), index, n));
                } else {
                    assert(name_member_from(res, index, n, 0));
                    assert(name_member(eval(parts[j], index, fuel), index, n));
                }
            }
            if exists|jj: int|
                0 <= jj < j + 1 && name_member(#[trigger] eval(parts[jj], index, fuel), index, n) {
                let jj = choose|jj: int|
                    0 <= jj < j + 1 && name_member(#[trigger] eval(parts[jj], index, fuel), index, n);
                if jj < j {
                    assert(name_member(acc, index, n));
                } else {
                    assert(name_member_from(res, index, n, 0));
                }
            }
        }
        lemma_or_dedup_union(parts, index, fuel, j + 1, acc2);
    }
}

/// The positions a primitive filter keeps are exactly the satisfying
/// pages at or after the scan point, in index order.
pub proof fn lemma_filter_sat_contains(index: Seq<Page>, pr: Prim, i: int, k: int)
    requires
        0 <= i,
    ensures
        filter_sat(index, pr, i).contains(k) <==> (i <= k < index.len() && prim_sat(
            pr,
            index[k],
            index,
        )),
    decreases index.len() - i,
{
    if i < index.len() {
        lemma_filter_sat_contains(index, pr, i + 1, k);
        let head: Seq<int> = if prim_sat(pr, index[i], index) {
            seq![i]
        } else {
            Seq::empty()
        };
        let tail = filter_sat(index, pr, i + 1);
        assert(filter_sat(index, pr, i) == head + tail);
        assert((head + tail).contains(k) <==> head.contains(k) || tail.contains(k)) by {
            if head.contains(k) {
                let x = choose|x: int| 0 <= x < head.len() && head[x] == k;
                assert((head + tail)[x] == k);
            }
            if tail.contains(k) {
                let x = choose|x: int| 0 <= x < tail.len() && tail[x] == k;
                assert((head + tail)[head.len() + x] == k);
            }
            if (head + tail).contains(k) {
                let x = choose|x: int| 0 <= x < (head + tail).len() && (head + tail)[x] == k;
                if x < head.len() {
                    assert(head[x] == k);
                } else {
                    assert(tail[x - head.len()] == k);
                }
            }
        }
        if head.contains(k) {
            assert(head[0] == i);
            assert(k == i);
        }
        if i <= k < index.len() && prim_sat(pr, index[k], index) {
            if k == i {
                assert(head =~= seq![i]);
                assert(head[0] == i);
                assert(head.contains(i));
            } else {
                assert(tail.contains(k));
            }
            assert((head + tail).contains(k));
        }
    } else {
        assert(!filter_sat(index, pr, i).contains(k)) by {
            if filter_sat(index, pr, i).contains(k) {
                let x = choose|x: int|
                    0 <= x < filter_sat(index, pr, i).len() && filter_sat(index, pr, i)[x] == k;
            }
        }
    }
}

/// The positions a complement keeps are exactly the pages whose names the
/// excluded result does not hold, in index order.
pub proof fn lemma_not_filter_contains(excluded: Seq<int>, index: Seq<Page>, i: int, k: int)
    requires
        0 <= i,
    ensures
        not_filter(excluded, index, i).contains(k) <==> (i <= k < index.len() && !name_member(
            excluded,
            index,
            index[k].name@,
        )),
    decreases index.len() - i,
{
    if i < index.len() {
        lemma_not_filter_contains(excluded, index, i + 1, k);
        let head: Seq<int> = if !name_member(excluded, index, index[i].name@) {
            seq![i]
        } else {
            Seq::empty()
        };
        let tail = not_filter(excluded, index, i + 1);
        assert(not_filter(excluded, index, i) == head + tail);
        assert((head + tail).contains(k) <==> head.contains(k) || tail.contains(k)) by {
            if head.contains(k) {
                let x = choose|x: int| 0 <= x < head.len() && head[x] == k;
                assert((head + tail)[x] == k);
            }
            if tail.contains(k) {
                let x = choose|x: int| 0 <= x < tail.len() && tail[x] == k;
                assert((head + tail)[head.len() + x] == k);
            }
            if (head + tail).contains(k) {
                let x = choose|x: int| 0 <= x < (head + tail).len() && (head + tail)[x] == k;
                if x < head.len() {
                    assert(head[x] == k);
                } else {
                    assert(tail[x - head.len()] == k);
                }
            }
        }
        if head.contains(k) {
            assert(head[0] == i);
        }
        if i <= k < index.len() && !name_member(excluded, index, index[k].name@) {
            if k == i {
                assert(head =~= seq![i]);
                assert(head[0] == i);
                assert(head.contains(i));
            } else {
                assert(tail.contains(k));
            }
            assert((head + tail).contains(k));
        }
    } else {
        assert(!not_filter(excluded, index, i).contains(k)) by {
            if not_filter(excluded, index, i).contains(k) {
                let x = choose|x: int|
                    0 <= x < not_filter(excluded, index, i).len() && not_filter(
                        excluded,
                        index,
                        i,
                    )[x] == k;
            }
        }
    }
}

/// A conjunction keeps exactly the first operand's positions whose pages
/// satisfy every further operand, in the first operand's order.
pub proof fn lemma_and_filter_contains(
    first: Seq<int>,
    parts: Seq<Seq<char>>,
    index: Seq<Page>,
    fuel: nat,
    i: int,
    x: int,
)
    requires
        0 <= i,
    ensures
        and_filter(first, parts, index, fuel, i).contains(x) <==> exists|m: int|
            i <= m < first.len() && #[trigger] first[m] == x && 0 <= x < index.len() && and_sat(
                parts,
                index,
                fuel,
                index[x].name@,
                1,
            ),
    decreases first.len() - i,
{
    if i < first.len() {
        lemma_and_filter_contains(first, parts, index, fuel, i + 1, x);
        let head: Seq<int> = if 0 <= first[i] < index.len() && and_sat(
            parts,
            index,
            fuel,
            index[first[i]].name@,
            1,
        ) {
            seq![first[i]]
        } else {
            Seq::empty()
        };
        let tail = and_filter(first, parts, index, fuel, i + 1);
        assert(and_filter(first, parts, index, fuel, i) == head + tail);
        assert((head + tail).contains(x) <==> head.contains(x) || tail.contains(x)) by {
            if head.contains(x) {
                let y = choose|y: int| 0 <= y < head.len() && head[y] == x;
                assert((head + tail)[y] == x);
            }
            if tail.contains(x) {
                let y = choose|y: int| 0 <= y < tail.len() && tail[y] == x;
                assert((head + tail)[head.len() + y] == x);
            }
            if (head + tail).contains(x) {
                let y = choose|y: int| 0 <= y < (head + tail).len() && (head + tail)[y] == x;
                if y < head.len() {
                    assert(head[y] == x);
                } else {
                    assert(tail[y - head.len()] == x);
                }
            }
        }
        if head.contains(x) {
            assert(head[0] == first[i]);
            assert(first[i] == x);
        }
        if exists|m: int|
            i <= m < first.len() && #[trigger] first[m] == x && 0 <= x < index.len() && and_sat(
                parts,
                index,
                fuel,
                index[x].name@,
                1,
            ) {
            let m = choose|m: int|
                i <= m < first.len() && #[trigger] first[m] == x && 0 <= x < index.len() && and_sat(
                    parts,
                    index,
                    fuel,
                    index[x].name@,
                    1,
                );
            if m == i {
                assert(head =~= seq![first[i]]);
                assert(head[0] == x);
                assert(head.contains(x));
            } else {
                assert(tail.contains(x));
            }
            assert((head + tail).contains(x));
        }
    } else {
        assert(!and_filter(first, parts, index, fuel, i).contains(x)) by {
            if and_filter(first, parts, index, fuel, i).contains(x) {
                let y = choose|y: int|
                    0 <= y < and_filter(first, parts, index, fuel, i).len() && and_filter(
                        first,
                        parts,
                        index,
                        fuel,
                        i,
                    )[y] == x;
            }
        }
    }
}

} // verus!
