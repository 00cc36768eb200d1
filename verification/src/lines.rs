//! The line rewrite engine.
//!
//! Several pipeline stages act on whole lines: a line either matches a shape
//! and is rewritten (or blanked), or it passes through unchanged.  One
//! verified driver splits the text into lines, maps a `LineRule` over them,
//! and joins them back.

use vstd::prelude::*;
use crate::text::{
    at, at_x, find_from, is_ws, is_ws_x, join_lines, join_lines_x, push_seg, push_str_chars,
    scan_while, scan_while_x, seg_vec, skip_ws_from, skip_ws_from_x, split_lines, split_lines_x,
    str_to_chars, upper_char, upper_char_x, vviews, Cls,
};

verus! {

/// One per-line rewrite of the pipeline.
#[derive(Clone, Copy)]
pub enum LineRule {
    /// Blank a bookkeeping property line.
    SystemProps,
    /// Blank a time-tracking block marker line.
    Logbook,
    /// Turn a `key:: value` line into a bold-titled bullet; blank a leftover
    /// query option line.
    UserProps,
    /// Blank a line holding only a bullet marker.
    EmptyBullet,
    /// Turn a task-state marker into checkbox syntax.
    Tasks,
}

/// `key` followed by `:: ` and at least one more character, at `j` in `l`.
pub open spec fn key_at(l: Seq<char>, j: int, key: Seq<char>) -> bool {
    at(l, j, key) && at(l, j + key.len(), ":: "@) && l.len() > j + key.len() + ":: "@.len()
}

/// Position after the optional leading bullet marker of a property line.
pub open spec fn after_marker(l: Seq<char>, j: int) -> int {
    if j < l.len() && l[j] == '-' {
        skip_ws_from(l, j + 1)
    } else {
        j
    }
}

/// A line carrying one of the three bookkeeping properties.
pub open spec fn is_sys_prop_line(l: Seq<char>) -> bool {
    let j2 = after_marker(l, skip_ws_from(l, 0));
    key_at(l, j2, "collapsed"@) || key_at(l, j2, "logseq.order-list-type"@) || key_at(
        l,
        j2,
        "id"@,
    )
}

/// A time-tracking marker line: only a log fence or a clock entry.
pub open spec fn is_logbook_line(l: Seq<char>) -> bool {
    let t = skip_ws_from(l, 0);
    (at(l, t, ":LOGBOOK:"@) && skip_ws_from(l, t + ":LOGBOOK:"@.len()) == l.len()) || (at(
        l,
        t,
        ":END:"@,
    ) && skip_ws_from(l, t + ":END:"@.len()) == l.len()) || at(l, t, "CLOCK:"@)
}

/// A line holding only whitespace and one bullet marker.
pub open spec fn is_empty_bullet_line(l: Seq<char>) -> bool {
    let j = skip_ws_from(l, 0);
    j < l.len() && l[j] == '-' && skip_ws_from(l, j + 1) == l.len()
}

/// One word with its first character uppercased.
pub open spec fn cap_word(w: Seq<char>) -> Seq<char> {
    if w.len() == 0 {
        w
    } else {
        seq![upper_char(w[0])] + w.drop_first()
    }
}

/// A property key in title case: dash-separated words, each capitalized,
/// joined by spaces.
pub open spec fn title_case(k: Seq<char>) -> Seq<char>
    decreases k.len(),
{
    let e = find_from(k, '-', 0);
    if e < 0 || e >= k.len() {
        cap_word(k)
    } else {
        cap_word(k.subrange(0, e)) + seq![' '] + title_case(k.subrange(e + 1, k.len() as int))
    }
}

/// The user-property rewrite of one line.  A `key:: value` line becomes
/// `indent- **Title Key:** value`; a leftover query option line becomes
/// empty; anything else passes through.
pub open spec fn user_prop_line(l: Seq<char>) -> Seq<char> {
    let j = skip_ws_from(l, 0);
    let j2 = after_marker(l, j);
    let e = scan_while(l, Cls::WordDash, j2);
    if e > j2 && at(l, e, ":: "@) && l.len() > e + ":: "@.len() {
        if at(l, j2, "query-"@) && e - j2 >= "query-"@.len() {
            Seq::empty()
        } else {
            l.subrange(0, j) + "- **"@ + title_case(l.subrange(j2, e)) + ":** "@ + l.subrange(
                e + ":: "@.len(),
                l.len() as int,
            )
        }
    } else {
        l
    }
}

/// The task-state rewrite of one line: a bullet followed by a state keyword
/// and whitespace becomes a checkbox bullet followed by the rest.
pub open spec fn task_line(l: Seq<char>) -> Seq<char> {
    let j = skip_ws_from(l, 0);
    if j < l.len() && l[j] == '-' && j + 1 < l.len() && is_ws(l[j + 1]) {
        let j2 = skip_ws_from(l, j + 1);
        if task_kw_at(l, j2, "DONE"@) {
            task_out(l, j, j2, "DONE"@, "- [x] "@)
        } else if task_kw_at(l, j2, "TODO"@) {
            task_out(l, j, j2, "TODO"@, "- [ ] "@)
        } else if task_kw_at(l, j2, "NOW"@) {
            task_out(l, j, j2, "NOW"@, "- [ ] 🔄 "@)
        } else if task_kw_at(l, j2, "DOING"@) {
            task_out(l, j, j2, "DOING"@, "- [ ] 🔄 "@)
        } else if task_kw_at(l, j2, "LATER"@) {
            task_out(l, j, j2, "LATER"@, "- [ ] 📅 "@)
        } else if task_kw_at(l, j2, "WAITING"@) {
            task_out(l, j, j2, "WAITING"@, "- [ ] ⏳ "@)
        } else if task_kw_at(l, j2, "CANCELLED"@) {
            task_out(l, j, j2, "CANCELLED"@, "- [x] ❌ "@)
        } else {
            l
        }
    } else {
        l
    }
}

/// A task keyword at `j2` followed by at least one whitespace character.
pub open spec fn task_kw_at(l: Seq<char>, j2: int, kw: Seq<char>) -> bool {
    at(l, j2, kw) && j2 + kw.len() < l.len() && is_ws(l[j2 + kw.len()])
}

/// The rewritten task line: indent, checkbox badge, then the text after the
/// keyword's trailing whitespace.
pub open spec fn task_out(l: Seq<char>, j: int, j2: int, kw: Seq<char>, badge: Seq<char>) -> Seq<
    char,
> {
    l.subrange(0, j) + badge + l.subrange(skip_ws_from(l, j2 + kw.len()), l.len() as int)
}

/// The rewrite one `LineRule` makes of one line.
pub open spec fn line_rw(lr: LineRule, l: Seq<char>) -> Seq<char> {
    match lr {
        LineRule::SystemProps => if is_sys_prop_line(l) {
            Seq::empty()
        } else {
            l
        },
        LineRule::Logbook => if is_logbook_line(l) {
            Seq::empty()
        } else {
            l
        },
        LineRule::UserProps => user_prop_line(l),
        LineRule::EmptyBullet => if is_empty_bullet_line(l) {
            Seq::empty()
        } else {
            l
        },
        LineRule::Tasks => task_line(l),
    }
}

/// The text of `s` with every line rewritten by `lr`.
pub open spec fn map_lines(lr: LineRule, s: Seq<char>) -> Seq<char> {
    join_lines(split_lines(s).map_values(|l: Seq<char>| line_rw(lr, l)))
}

/// Executable key test matching `key_at`.
fn key_at_x(l: &Vec<char>, j: usize, key: &str) -> (r: bool)
    requires
        j <= l.len(),
    ensures
        r == key_at(l@, j as int, key@),
{
    let kv = str_to_chars(key);
    let sv = str_to_chars(":: ");
    if at_x(l, j, &kv) {
        at_x(l, j + kv.len(), &sv) && l.len() - (j + kv.len()) > sv.len()
    } else {
        false
    }
}

/// Executable marker skip matching `after_marker`.
fn after_marker_x(l: &Vec<char>, j: usize) -> (r: usize)
    requires
        j <= l.len(),
    ensures
        r == after_marker(l@, j as int),
        r <= l.len(),
{
    if j < l.len() && l[j] == '-' {
        skip_ws_from_x(l, j + 1)
    } else {
        j
    }
}

/// Executable word capitalization matching `cap_word`.
fn cap_word_x(w: &Vec<char>) -> (r: Vec<char>)
    ensures
        r@ == cap_word(w@),
{
    if w.len() == 0 {
        Vec::new()
    } else {
        let mut r: Vec<char> = Vec::new();
        r.push(upper_char_x(w[0]));
        push_seg(&mut r, w, 1, w.len());
        assert(r@ =~= cap_word(w@));
        r
    }
}

/// Executable title-casing matching `title_case`.
fn title_case_x(k: &Vec<char>) -> (r: Vec<char>)
    ensures
        r@ == title_case(k@),
    decreases k@.len(),
{
    let e = crate::text::find_from_x(k, '-', 0);
    if e >= k.len() {
        cap_word_x(k)
    } else {
        let head = seg_vec(k, 0, e);
        let mut r = cap_word_x(&head);
        r.push(' ');
        let tail = seg_vec(k, e + 1, k.len());
        let rest = title_case_x(&tail);
        crate::text::push_all(&mut r, &rest);
        assert(r@ =~= title_case(k@));
        r
    }
}

/// Executable line rewrite matching `line_rw`.
fn line_rw_x(lr: LineRule, l: &Vec<char>) -> (r: Vec<char>)
    ensures
        r@ == line_rw(lr, l@),
{
    match lr {
        LineRule::SystemProps => {
            let j2 = after_marker_x(l, skip_ws_from_x(l, 0));
            if key_at_x(l, j2, "collapsed") || key_at_x(l, j2, "logseq.order-list-type")
                || key_at_x(l, j2, "id") {
                Vec::new()
            } else {
                seg_vec(l, 0, l.len())
            }
        },
        LineRule::Logbook => {
            let t = skip_ws_from_x(l, 0);
            let lb = str_to_chars(":LOGBOOK:");
            let en = str_to_chars(":END:");
            let ck = str_to_chars("CLOCK:");
            let hit = (at_x(l, t, &lb) && skip_ws_from_x(l, t + lb.len()) == l.len()) || (at_x(
                l,
                t,
                &en,
            ) && skip_ws_from_x(l, t + en.len()) == l.len()) || at_x(l, t, &ck);
            if hit {
                Vec::new()
            } else {
                seg_vec(l, 0, l.len())
            }
        },
        LineRule::UserProps => user_prop_line_x(l),
        LineRule::EmptyBullet => {
            let j = skip_ws_from_x(l, 0);
            if j < l.len() && l[j] == '-' && skip_ws_from_x(l, j + 1) == l.len() {
                Vec::new()
            } else {
                seg_vec(l, 0, l.len())
            }
        },
        LineRule::Tasks => task_line_x(l),
    }
}

/// Executable user-property rewrite matching `user_prop_line`.
fn user_prop_line_x(l: &Vec<char>) -> (r: Vec<char>)
    ensures
        r@ == user_prop_line(l@),
{
    let j = skip_ws_from_x(l, 0);
    let j2 = after_marker_x(l, j);
    let e = scan_while_x(l, Cls::WordDash, j2);
    let sv = str_to_chars(":: ");
    if e > j2 && at_x(l, e, &sv) && l.len() - e > sv.len() {
        let qv = str_to_chars("query-");
        if at_x(l, j2, &qv) && e - j2 >= qv.len() {
            Vec::new()
        } else {
            let mut r = seg_vec(l, 0, j);
            push_str_chars(&mut r, "- **");
            let key = seg_vec(l, j2, e);
            let tc = title_case_x(&key);
            crate::text::push_all(&mut r, &tc);
            push_str_chars(&mut r, ":** ");
            push_seg(&mut r, l, e + sv.len(), l.len());
            assert(r@ =~= user_prop_line(l@));
            r
        }
    } else {
        seg_vec(l, 0, l.len())
    }
}

/// Executable task keyword test matching `task_kw_at`.
fn task_kw_at_x(l: &Vec<char>, j2: usize, kw: &str) -> (r: bool)
    requires
        j2 <= l.len(),
    ensures
        r == task_kw_at(l@, j2 as int, kw@),
{
    let kv = str_to_chars(kw);
    at_x(l, j2, &kv) && l.len() - j2 > kv.len() && is_ws_x(l[j2 + kv.len()])
}

/// Executable task output matching `task_out`.
fn task_out_x(l: &Vec<char>, j: usize, j2: usize, kw: &str, badge: &str) -> (r: Vec<char>)
    requires
        j <= l.len(),
        j2 <= l.len(),
        j2 + kw@.len() <= l.len(),
    ensures
        r@ == task_out(l@, j as int, j2 as int, kw@, badge@),
{
    let kv = str_to_chars(kw);
    let mut r = seg_vec(l, 0, j);
    push_str_chars(&mut r, badge);
    let rest = skip_ws_from_x(l, j2 + kv.len());
    push_seg(&mut r, l, rest, l.len());
    assert(r@ =~= task_out(l@, j as int, j2 as int, kw@, badge@));
    r
}

/// Executable task rewrite matching `task_line`.
fn task_line_x(l: &Vec<char>) -> (r: Vec<char>)
    ensures
        r@ == task_line(l@),
{
    let j = skip_ws_from_x(l, 0);
    if j < l.len() && l[j] == '-' && l.len() - j > 1 && is_ws_x(l[j + 1]) {
        let j2 = skip_ws_from_x(l, j + 1);
        if task_kw_at_x(l, j2, "DONE") {
            task_out_x(l, j, j2, "DONE", "- [x] ")
        } else if task_kw_at_x(l, j2, "TODO") {
            task_out_x(l, j, j2, "TODO", "- [ ] ")
        } else if task_kw_at_x(l, j2, "NOW") {
            task_out_x(l, j, j2, "NOW", "- [ ] 🔄 ")
        } else if task_kw_at_x(l, j2, "DOING") {
            task_out_x(l, j, j2, "DOING", "- [ ] 🔄 ")
        } else if task_kw_at_x(l, j2, "LATER") {
            task_out_x(l, j, j2, "LATER", "- [ ] 📅 ")
        } else if task_kw_at_x(l, j2, "WAITING") {
            task_out_x(l, j, j2, "WAITING", "- [ ] ⏳ ")
        } else if task_kw_at_x(l, j2, "CANCELLED") {
            task_out_x(l, j, j2, "CANCELLED", "- [x] ❌ ")
        } else {
            seg_vec(l, 0, l.len())
        }
    } else {
        seg_vec(l, 0, l.len())
    }
}

/// Applies one line rule over the whole text: the result is exactly
/// `map_lines(lr, v)`.
pub fn apply_line_rule(lr: LineRule, v: &Vec<char>) -> (r: Vec<char>)
    ensures
        r@ == map_lines(lr, v@),
{
    let ls = split_lines_x(v);
    let ghost lsv = split_lines(v@);
    let mut out: Vec<Vec<char>> = Vec::new();
    let mut i: usize = 0;
    while i < ls.len()
        invariant
            i <= ls.len(),
            vviews(ls@) == lsv,
            out@.len() == i,
            forall|k: int| 0 <= k < i ==> out@[k]@ == line_rw(lr, lsv[k]),
        decreases ls.len() - i,
    {
        let nl = line_rw_x(lr, &ls[i]);
        proof {
            assert(ls@[i as int]@ == lsv[i as int]);
        }
        out.push(nl);
        i += 1;
    }
    proof {
        assert(vviews(out@) =~= lsv.map_values(|l: Seq<char>| line_rw(lr, l)));
    }
    join_lines_x(&out)
}


/// The shape a property line must have for the bullet conversion to act:
/// an optional marker, a key, the separator, and a value.
pub open spec fn is_prop_shaped(l: Seq<char>) -> bool {
    let j = skip_ws_from(l, 0);
    let j2 = after_marker(l, j);
    let e = scan_while(l, Cls::WordDash, j2);
    e > j2 && at(l, e, ":: "@) && l.len() > e + ":: "@.len()
}

/// Property-to-bullet conversion is idempotent on converted text: a text
/// with no remaining property lines passes through unchanged.
pub proof fn lemma_user_props_noop(s: Seq<char>)
    requires
        forall|i: int|
            0 <= i < split_lines(s).len() ==> !is_prop_shaped(#[trigger] split_lines(s)[i]),
    ensures
        map_lines(LineRule::UserProps, s) == s,
{
    let ls = split_lines(s);
    let mapped = ls.map_values(|l: Seq<char>| line_rw(LineRule::UserProps, l));
    assert forall|i: int| 0 <= i < ls.len() implies #[trigger] mapped[i] == ls[i] by {
        assert(!is_prop_shaped(ls[i]));
        assert(user_prop_line(ls[i]) == ls[i]);
    }
    assert(mapped =~= ls);
    crate::text::lemma_split_join(s);
}

} // verus!
