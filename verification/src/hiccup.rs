//! The bracket-literal sub-parser: nested `[:tag attrs? children]`
//! fragments become markup, with structural fidelity for headings and
//! lists and quoted text elsewhere.

use vstd::prelude::*;
use crate::text::{Cls, at, at_x, find_from, find_from_x, is_ws, is_ws_x, push_all, push_seg, push_str_chars, scan_while, scan_while_x, seg_vec, skip_ws_from, skip_ws_from_x, split_lines, split_lines_x, str_to_chars, strip_all_suffix, strip_all_suffix_x, trim_seq, trim_vec, vviews};

verus! {

/// Net bracket balance of a text.
pub open spec fn bracket_net(s: Seq<char>, i: int) -> int
    decreases s.len() - i,
{
    if i < 0 || i >= s.len() {
        0
    } else {
        (if s[i] == '[' {
            1int
        } else if s[i] == ']' {
            -1int
        } else {
            0int
        }) + bracket_net(s, i + 1)
    }
}

/// Position after the bracket that closes the one opening at `j`, or the
/// end when none does.
pub open spec fn br_end(c: Seq<char>, j: int, depth: int) -> int
    decreases c.len() - j,
{
    if j < 0 || j >= c.len() {
        c.len() as int
    } else if c[j] == '[' {
        br_end(c, j + 1, depth + 1)
    } else if c[j] == ']' {
        if depth - 1 == 0 {
            j + 1
        } else {
            br_end(c, j + 1, depth - 1)
        }
    } else {
        br_end(c, j + 1, depth)
    }
}

/// Position after the brace that closes the one opening at `j`, or the
/// end when none does.
pub open spec fn brace_end(c: Seq<char>, j: int, depth: int) -> int
    decreases c.len() - j,
{
    if j < 0 || j >= c.len() {
        c.len() as int + 1
    } else if c[j] == '{' {
        brace_end(c, j + 1, depth + 1)
    } else if c[j] == '}' {
        if depth - 1 == 0 {
            j + 1
        } else {
            brace_end(c, j + 1, depth - 1)
        }
    } else {
        brace_end(c, j + 1, depth)
    }
}

/// The attribute pairs of a brace map, rendered as ` key="value"` runs.
pub open spec fn attrs_rec(s: Seq<char>, i: int, acc: Seq<char>) -> Seq<char>
    decreases s.len() - i,
{
    if i < 0 || i >= s.len() {
        acc
    } else if s[i] == ':' && i + 1 < s.len() && crate::text::is_word(s[i + 1]) {
        let e0 = scan_while(s, Cls::WordChar, i + 1);
        let e = if e0 < i + 1 {
            i + 1
        } else if e0 > s.len() {
            s.len() as int
        } else {
            e0
        };
        if e < s.len() && is_ws(s[e]) {
            let j0 = skip_ws_from(s, e);
            let j = if j0 < e {
                e
            } else if j0 > s.len() {
                s.len() as int
            } else {
                j0
            };
            if j < s.len() && s[j] == '"' {
                let q = find_from(s, '"', j + 1);
                if q > j + 1 && q < s.len() {
                    attrs_rec(
                        s,
                        q + 1,
                        acc + " "@ + s.subrange(i + 1, e) + "=\""@ + s.subrange(j + 1, q) + "\""@,
                    )
                } else {
                    attrs_rec(s, i + 1, acc)
                }
            } else {
                attrs_rec(s, i + 1, acc)
            }
        } else {
            attrs_rec(s, i + 1, acc)
        }
    } else {
        attrs_rec(s, i + 1, acc)
    }
}

/// The list items found anywhere in the literal, each rendered as a list
/// element.
pub open spec fn li_items(h: Seq<char>, i: int, acc: Seq<char>) -> Seq<char>
    decreases h.len() - i,
{
    if i < 0 || i >= h.len() {
        acc
    } else if at(h, i, "[:li"@) && i + 4 < h.len() && is_ws(h[i + 4]) {
        let j0 = skip_ws_from(h, i + 4);
        let j = if j0 < i + 4 {
            i + 4
        } else if j0 > h.len() {
            h.len() as int
        } else {
            j0
        };
        if j < h.len() && h[j] == '"' {
            let q = find_from(h, '"', j + 1);
            if q > j + 1 && q + 1 < h.len() && h[q + 1] == ']' {
                li_items(h, q + 2, acc + "<li>"@ + h.subrange(j + 1, q) + "</li>"@)
            } else {
                li_items(h, i + 1, acc)
            }
        } else {
            li_items(h, i + 1, acc)
        }
    } else {
        li_items(h, i + 1, acc)
    }
}

/// The markup a bracket literal renders to, with a recursion budget the
/// callers set high enough never to run out.
pub open spec fn h2h(h0: Seq<char>, fuel: nat) -> Seq<char>
    decreases fuel, 0nat, 0nat,
{
    if fuel == 0 {
        Seq::empty()
    } else {
        let h = trim_seq(h0);
        if !at(h, 0, "[:"@) {
            "`"@ + h + "`"@
        } else {
            let ab = h.skip("[:"@.len() as int);
            let te0 = scan_while(ab, Cls::TagName, 0);
            let te = if te0 < 0 {
                0
            } else if te0 > ab.len() {
                ab.len() as int
            } else {
                te0
            };
            let tag = ab.take(te);
            let rest = trim_seq(strip_all_suffix(ab.skip(te), "]"@));
            let has_attrs = rest.len() > 0 && rest[0] == '{';
            let ae = brace_end(rest, 0, 0);
            let closed = has_attrs && 2 <= ae <= rest.len();
            let attrs = if closed {
                attrs_rec(rest.subrange(1, ae - 1), 0, Seq::empty())
            } else {
                Seq::empty()
            };
            let content_start = if closed {
                rest.skip(ae)
            } else if has_attrs {
                Seq::empty()
            } else {
                rest
            };
            let content = phc_scan(trim_seq(content_start), 0, (fuel - 1) as nat, Seq::empty());
            let items = li_items(h, 0, Seq::empty());
            if (tag == "ul"@ || tag == "ol"@) && items.len() > 0 {
                "<"@ + tag + attrs + ">"@ + items + "</"@ + tag + ">"@
            } else if content.len() == 0 && attrs.len() == 0 {
                "<"@ + tag + "/>"@
            } else {
                "<"@ + tag + attrs + ">"@ + content + "</"@ + tag + ">"@
            }
        }
    }
}

/// The rendering of an element's children: quoted strings verbatim,
/// nested literals rendered, everything else dropped.
pub open spec fn phc_scan(c: Seq<char>, i: int, fuel: nat, acc: Seq<char>) -> Seq<char>
    decreases fuel, 1nat, c.len() - i,
{
    if i < 0 || i >= c.len() {
        acc
    } else if c[i] == '"' {
        let e0 = find_from(c, '"', i + 1);
        let e = if e0 < i + 1 {
            i + 1
        } else if e0 > c.len() {
            c.len() as int
        } else {
            e0
        };
        let t = if e + 1 > c.len() {
            c.len() as int
        } else {
            e + 1
        };
        phc_scan(c, t, fuel, acc + c.subrange(i + 1, e))
    } else if c[i] == '[' && i + 1 < c.len() && c[i + 1] == ':' {
        let e0 = br_end(c, i, 0);
        let e = if e0 < i + 1 {
            i + 1
        } else if e0 > c.len() {
            c.len() as int
        } else {
            e0
        };
        if fuel == 0 {
            phc_scan(c, e, fuel, acc)
        } else {
            phc_scan(c, e, fuel, acc + h2h(c.subrange(i, e), (fuel - 1) as nat))
        }
    } else {
        phc_scan(c, i + 1, fuel, acc)
    }
}

/// The markup of a literal, with enough budget for any nesting it holds.
pub open spec fn h2h_full(h: Seq<char>) -> Seq<char> {
    h2h(h, (2 * h.len() + 2) as nat)
}

/// A rendered fragment that stands on its own, not wrapped in a list
/// entry.
pub open spec fn is_block_spec(html: Seq<char>) -> bool {
    at(html, 0, "<ul"@) || at(html, 0, "<ol"@) || at(html, 0, "<div"@) || at(html, 0, "<table"@)
        || at(html, 0, "<h1"@) || at(html, 0, "<h2"@) || at(html, 0, "<h3"@) || at(html, 0, "<h4"@)
        || at(html, 0, "<blockquote"@) || at(html, 0, "<pre"@)
}

/// Executable bracket balance matching `bracket_net`.
pub fn bracket_net_x(s: &Vec<char>, i: usize) -> (r: i128)
    requires
        i <= s.len(),
    ensures
        r as int == bracket_net(s@, i as int),
{
    let mut j: usize = s.len();
    let mut acc: i128 = 0;
    while j > i
        invariant
            i <= j <= s.len(),
            -(s@.len() - j) <= acc as int <= s@.len() - j,
            acc as int == bracket_net(s@, j as int),
        decreases j,
    {
        j = j - 1;
        let c = s[j];
        proof {
            assert(bracket_net(s@, j as int) == (if s@[j as int] == '[' {
                1int
            } else if s@[j as int] == ']' {
                -1int
            } else {
                0int
            }) + bracket_net(s@, j + 1));
        }
        if c == '[' {
            acc = acc + 1;
        } else if c == ']' {
            acc = acc - 1;
        }
    }
    acc
}

/// Executable matching-bracket search matching `br_end`.
fn br_end_x(c: &Vec<char>, start: usize) -> (r: usize)
    requires
        start <= c.len(),
    ensures
        r as int == br_end(c@, start as int, 0),
        start <= r <= c.len(),
{
    let mut j: usize = start;
    let mut depth: i128 = 0;
    while j < c.len()
        invariant
            start <= j <= c.len(),
            -(j - start) <= depth as int <= j - start,
            br_end(c@, start as int, 0) == br_end(c@, j as int, depth as int),
        decreases c.len() - j,
    {
        let ghost j0 = j as int;
        let ch = c[j];
        if ch == '[' {
            proof {
                assert(br_end(c@, j0, depth as int) == br_end(c@, j0 + 1, depth as int + 1));
            }
            depth = depth + 1;
            j += 1;
        } else if ch == ']' {
            if depth - 1 == 0 {
                proof {
                    assert(br_end(c@, j0, depth as int) == j0 + 1);
                }
                return j + 1;
            }
            proof {
                assert(br_end(c@, j0, depth as int) == br_end(c@, j0 + 1, depth as int - 1));
            }
            depth = depth - 1;
            j += 1;
        } else {
            proof {
                assert(br_end(c@, j0, depth as int) == br_end(c@, j0 + 1, depth as int));
            }
            j += 1;
        }
    }
    proof {
        assert(br_end(c@, j as int, depth as int) == c@.len() as int);
    }
    c.len()
}

/// Executable matching-brace search matching `brace_end`: the closing
/// position, or nothing when the brace never closes.
fn brace_end_x(c: &Vec<char>, start: usize) -> (r: Option<usize>)
    requires
        start <= c.len(),
    ensures
        match r {
            Some(x) => brace_end(c@, start as int, 0) == x as int && start < x <= c.len(),
            None => brace_end(c@, start as int, 0) == c@.len() + 1,
        },
{
    let mut j: usize = start;
    let mut depth: i128 = 0;
    while j < c.len()
        invariant
            start <= j <= c.len(),
            -(j - start) <= depth as int <= j - start,
            brace_end(c@, start as int, 0) == brace_end(c@, j as int, depth as int),
        decreases c.len() - j,
    {
        let ghost j0 = j as int;
        let ch = c[j];
        if ch == '{' {
            proof {
                assert(brace_end(c@, j0, depth as int) == brace_end(c@, j0 + 1, depth as int + 1));
            }
            depth = depth + 1;
            j += 1;
        } else if ch == '}' {
            if depth - 1 == 0 {
                proof {
                    assert(brace_end(c@, j0, depth as int) == j0 + 1);
                }
                return Some(j + 1);
            }
            proof {
                assert(brace_end(c@, j0, depth as int) == brace_end(c@, j0 + 1, depth as int - 1));
            }
            depth = depth - 1;
            j += 1;
        } else {
            proof {
                assert(brace_end(c@, j0, depth as int) == brace_end(c@, j0 + 1, depth as int));
            }
            j += 1;
        }
    }
    proof {
        assert(brace_end(c@, j as int, depth as int) == c@.len() + 1);
    }
    None
}

/// Executable attribute rendering matching `attrs_rec`.
fn attrs_x(s: &Vec<char>) -> (r: Vec<char>)
    ensures
        r@ == attrs_rec(s@, 0, Seq::empty()),
{
    let mut acc: Vec<char> = Vec::new();
    let mut i: usize = 0;
    assert(acc@ =~= Seq::<char>::empty());
    while i < s.len()
        invariant
            i <= s.len(),
            attrs_rec(s@, 0, Seq::empty()) == attrs_rec(s@, i as int, acc@),
        decreases s.len() - i,
    {
        let ghost i0 = i as int;
        let c = s[i];
        if c == ':' && s.len() - i > 1 && {
            let d = s[i + 1];
            ('0' <= d && d <= '9') || ('A' <= d && d <= 'Z') || ('a' <= d && d <= 'z') || d == '_'
        } {
            let e = scan_while_x(s, Cls::WordChar, i + 1);
            if e < s.len() && is_ws_x(s[e]) {
                let j = skip_ws_from_x(s, e);
                if j < s.len() && s[j] == '"' {
                    let q = find_from_x(s, '"', j + 1);
                    if q > j + 1 && q < s.len() {
                        proof {
                            assert(attrs_rec(s@, i0, acc@) == attrs_rec(
                                s@,
                                q + 1,
                                acc@ + " "@ + s@.subrange(i0 + 1, e as int) + "=\""@ + s@.subrange(
                                    j + 1,
                                    q as int,
                                ) + "\""@,
                            ));
                        }
                        push_str_chars(&mut acc, " ");
                        push_seg(&mut acc, s, i + 1, e);
                        push_str_chars(&mut acc, "=\"");
                        push_seg(&mut acc, s, j + 1, q);
                        push_str_chars(&mut acc, "\"");
                        i = q + 1;
                    } else {
                        proof {
                            assert(attrs_rec(s@, i0, acc@) == attrs_rec(s@, i0 + 1, acc@));
                        }
                        i += 1;
                    }
                } else {
                    proof {
                        assert(attrs_rec(s@, i0, acc@) == attrs_rec(s@, i0 + 1, acc@));
                    }
                    i += 1;
                }
            } else {
                proof {
                    assert(attrs_rec(s@, i0, acc@) == attrs_rec(s@, i0 + 1, acc@));
                }
                i += 1;
            }
        } else {
            proof {
                assert(attrs_rec(s@, i0, acc@) == attrs_rec(s@, i0 + 1, acc@));
            }
            i += 1;
        }
    }
    acc
}

/// Executable list-item collection matching `li_items`.
fn li_items_x(h: &Vec<char>) -> (r: Vec<char>)
    ensures
        r@ == li_items(h@, 0, Seq::empty()),
{
    let pat = str_to_chars("[:li");
    let mut acc: Vec<char> = Vec::new();
    let mut i: usize = 0;
    assert(acc@ =~= Seq::<char>::empty());
    while i < h.len()
        invariant
            i <= h.len(),
            pat@ == "[:li"@,
            li_items(h@, 0, Seq::empty()) == li_items(h@, i as int, acc@),
        decreases h.len() - i,
    {
        let ghost i0 = i as int;
        if at_x(h, i, &pat) && h.len() - i > 4 && is_ws_x(h[i + 4]) {
            let j = skip_ws_from_x(h, i + 4);
            if j < h.len() && h[j] == '"' {
                let q = find_from_x(h, '"', j + 1);
                if q > j + 1 && h.len() - q > 1 && h[q + 1] == ']' {
                    proof {
                        assert(li_items(h@, i0, acc@) == li_items(
                            h@,
                            q + 2,
                            acc@ + "<li>"@ + h@.subrange(j + 1, q as int) + "</li>"@,
                        ));
                    }
                    push_str_chars(&mut acc, "<li>");
                    push_seg(&mut acc, h, j + 1, q);
                    push_str_chars(&mut acc, "</li>");
                    i = q + 2;
                } else {
                    proof {
                        assert(li_items(h@, i0, acc@) == li_items(h@, i0 + 1, acc@));
                    }
                    i += 1;
                }
            } else {
                proof {
                    assert(li_items(h@, i0, acc@) == li_items(h@, i0 + 1, acc@));
                }
                i += 1;
            }
        } else {
            proof {
                assert(li_items(h@, i0, acc@) == li_items(h@, i0 + 1, acc@));
            }
            i += 1;
        }
    }
    acc
}

/// Executable literal rendering matching `h2h`.
pub fn hiccup_to_html(h0: &Vec<char>, fuel: u128) -> (r: Vec<char>)
    ensures
        r@ == h2h(h0@, fuel as nat),
    decreases fuel, 0int, 0int,
{
    if fuel == 0 {
        let r: Vec<char> = Vec::new();
        assert(r@ =~= Seq::<char>::empty());
        return r;
    }
    let h = trim_vec(h0);
    let op = str_to_chars("[:");
    if !at_x(&h, 0, &op) {
        let mut r = str_to_chars("`");
        push_all(&mut r, &h);
        push_str_chars(&mut r, "`");
        assert(r@ =~= "`"@ + trim_seq(h0@) + "`"@);
        return r;
    }
    let ab = seg_vec(&h, op.len(), h.len());
    assert(ab@ =~= trim_seq(h0@).skip("[:"@.len() as int));
    let te = scan_while_x(&ab, Cls::TagName, 0);
    let tag = seg_vec(&ab, 0, te);
    assert(tag@ =~= ab@.take(te as int));
    let rb = str_to_chars("]");
    let rest0 = seg_vec(&ab, te, ab.len());
    assert(rest0@ =~= ab@.skip(te as int));
    let rest = trim_vec(&strip_all_suffix_x(&rest0, &rb));
    let has_attrs = rest.len() > 0 && rest[0] == '{';
    let mut ae: usize = 0;
    let mut closed = false;
    match brace_end_x(&rest, 0) {
        Some(x) => {
            ae = x;
            closed = has_attrs && 2 <= x && x <= rest.len();
        },
        None => {},
    }
    let attrs: Vec<char> = if closed {
        let inner = seg_vec(&rest, 1, ae - 1);
        assert(inner@ =~= rest@.subrange(1, ae - 1));
        attrs_x(&inner)
    } else {
        let r: Vec<char> = Vec::new();
        assert(r@ =~= Seq::<char>::empty());
        r
    };
    let content_start: Vec<char> = if closed {
        let r = seg_vec(&rest, ae, rest.len());
        assert(r@ =~= rest@.skip(ae as int));
        r
    } else if has_attrs {
        let r: Vec<char> = Vec::new();
        assert(r@ =~= Seq::<char>::empty());
        r
    } else {
        let r = seg_vec(&rest, 0, rest.len());
        assert(r@ =~= rest@);
        r
    };
    let cst = trim_vec(&content_start);
    let content = phc_x(&cst, fuel - 1);
    let items = li_items_x(&h);
    let is_list = crate::text::eq_vecs(&tag, &str_to_chars("ul")) || crate::text::eq_vecs(
        &tag,
        &str_to_chars("ol"),
    );
    if is_list && items.len() > 0 {
        let mut r = str_to_chars("<");
        push_all(&mut r, &tag);
        push_all(&mut r, &attrs);
        push_str_chars(&mut r, ">");
        push_all(&mut r, &items);
        push_str_chars(&mut r, "</");
        push_all(&mut r, &tag);
        push_str_chars(&mut r, ">");
        assert(r@ =~= "<"@ + tag@ + attrs@ + ">"@ + items@ + "</"@ + tag@ + ">"@);
        r
    } else if content.len() == 0 && attrs.len() == 0 {
        let mut r = str_to_chars("<");
        push_all(&mut r, &tag);
        push_str_chars(&mut r, "/>");
        assert(r@ =~= "<"@ + tag@ + "/>"@);
        r
    } else {
        let mut r = str_to_chars("<");
        push_all(&mut r, &tag);
        push_all(&mut r, &attrs);
        push_str_chars(&mut r, ">");
        push_all(&mut r, &content);
        push_str_chars(&mut r, "</");
        push_all(&mut r, &tag);
        push_str_chars(&mut r, ">");
        assert(r@ =~= "<"@ + tag@ + attrs@ + ">"@ + content@ + "</"@ + tag@ + ">"@);
        r
    }
}

/// Executable child rendering matching `phc_scan`.
fn phc_x(c: &Vec<char>, fuel: u128) -> (r: Vec<char>)
    ensures
        r@ == phc_scan(c@, 0, fuel as nat, Seq::empty()),
    decreases fuel, 1int, 0int,
{
    let mut acc: Vec<char> = Vec::new();
    let mut i: usize = 0;
    assert(acc@ =~= Seq::<char>::empty());
    while i < c.len()
        invariant
            i <= c.len(),
            phc_scan(c@, 0, fuel as nat, Seq::empty()) == phc_scan(
                c@,
                i as int,
                fuel as nat,
                acc@,
            ),
        decreases c.len() - i,
    {
        let ghost i0 = i as int;
        let ch = c[i];
        if ch == '"' {
            let e = find_from_x(c, '"', i + 1);
            let t = if e >= c.len() {
                c.len()
            } else {
                e + 1
            };
            proof {
                assert(phc_scan(c@, i0, fuel as nat, acc@) == phc_scan(
                    c@,
                    t as int,
                    fuel as nat,
                    acc@ + c@.subrange(i0 + 1, e as int),
                ));
            }
            push_seg(&mut acc, c, i + 1, e);
            if t >= c.len() {
                proof {
                    assert(phc_scan(c@, c@.len() as int, fuel as nat, acc@) == acc@);
                }
                return acc;
            }
            i = t;
        } else if ch == '[' && c.len() - i > 1 && c[i + 1] == ':' {
            let e = br_end_x(c, i);
            let e2 = if e < i + 1 {
                i + 1
            } else {
                e
            };
            let nested = seg_vec(c, i, e2);
            assert(nested@ =~= c@.subrange(i0, e2 as int));
            if fuel == 0 {
                proof {
                    assert(phc_scan(c@, i0, fuel as nat, acc@) == phc_scan(
                        c@,
                        e2 as int,
                        fuel as nat,
                        acc@,
                    ));
                }
                i = e2;
            } else {
                let piece = hiccup_to_html(&nested, fuel - 1);
                proof {
                    assert(phc_scan(c@, i0, fuel as nat, acc@) == phc_scan(
                        c@,
                        e2 as int,
                        fuel as nat,
                        acc@ + h2h(c@.subrange(i0, e2 as int), (fuel - 1) as nat),
                    ));
                }
                push_all(&mut acc, &piece);
                i = e2;
            }
        } else {
            proof {
                assert(phc_scan(c@, i0, fuel as nat, acc@) == phc_scan(
                    c@,
                    i0 + 1,
                    fuel as nat,
                    acc@,
                ));
            }
            i += 1;
        }
    }
    acc
}

/// Executable block test matching `is_block_spec`.
pub fn is_block_element(html: &Vec<char>) -> (r: bool)
    ensures
        r == is_block_spec(html@),
{
    at_x(html, 0, &str_to_chars("<ul")) || at_x(html, 0, &str_to_chars("<ol")) || at_x(
        html,
        0,
        &str_to_chars("<div"),
    ) || at_x(html, 0, &str_to_chars("<table")) || at_x(html, 0, &str_to_chars("<h1")) || at_x(
        html,
        0,
        &str_to_chars("<h2"),
    ) || at_x(html, 0, &str_to_chars("<h3")) || at_x(html, 0, &str_to_chars("<h4")) || at_x(
        html,
        0,
        &str_to_chars("<blockquote"),
    ) || at_x(html, 0, &str_to_chars("<pre"))
}


/// The lines of a text as the language's line iterator yields them: split
/// at newlines, without a trailing empty piece.
pub open spec fn rust_lines(s: Seq<char>) -> Seq<Seq<char>> {
    if s.len() == 0 {
        Seq::empty()
    } else if s[s.len() - 1] == '\n' {
        split_lines(s).drop_last()
    } else {
        split_lines(s)
    }
}

/// The leading whitespace of a line.
pub open spec fn leading_ws(l: Seq<char>) -> Seq<char> {
    let w = skip_ws_from(l, 0);
    l.take(
        if 0 <= w <= l.len() {
            w
        } else {
            0
        },
    )
}

/// One rendered fragment emitted: indent, a list marker unless the
/// fragment is block-level, the markup, a newline.
pub open spec fn emit(html: Seq<char>, ind: Seq<char>) -> Seq<char> {
    ind + (if !is_block_spec(html) {
        "- "@
    } else {
        Seq::<char>::empty()
    }) + html + "\n"@
}

/// The conversion state machine over the lines: a line opening a balanced
/// literal is rendered at once; an unbalanced one starts a buffer that
/// following lines extend until balance returns; other lines pass through.
pub open spec fn conv_rec(
    ls: Seq<Seq<char>>,
    i: int,
    inm: bool,
    buf: Seq<char>,
    ind: Seq<char>,
    acc: Seq<char>,
) -> Seq<char>
    decreases ls.len() - i,
{
    if i < 0 || i >= ls.len() {
        if buf.len() > 0 {
            acc + ind + "- "@ + h2h_full(buf) + "\n"@
        } else {
            acc
        }
    } else {
        let t = trim_seq(ls[i]);
        if !inm && (at(t, 0, "[:"@) || at(t, 0, "- [:"@)) {
            let marked = at(t, 0, "- "@);
            let start = if marked {
                t.skip("- "@.len() as int)
            } else {
                t
            };
            let nind = if marked {
                leading_ws(ls[i])
            } else {
                Seq::<char>::empty()
            };
            if bracket_net(start, 0) == 0 {
                conv_rec(ls, i + 1, false, Seq::empty(), nind, acc + emit(h2h_full(start), nind))
            } else {
                conv_rec(ls, i + 1, true, start, nind, acc)
            }
        } else if inm {
            let buf2 = buf + " "@ + t;
            if bracket_net(buf2, 0) == 0 {
                conv_rec(ls, i + 1, false, Seq::empty(), ind, acc + emit(h2h_full(buf2), ind))
            } else {
                conv_rec(ls, i + 1, true, buf2, ind, acc)
            }
        } else {
            conv_rec(ls, i + 1, inm, buf, ind, acc + ls[i] + "\n"@)
        }
    }
}

/// The whole text with every bracket literal converted; a trailing
/// newline the source did not have is dropped again.
pub open spec fn convert_hiccup_spec(s: Seq<char>) -> Seq<char> {
    let r = conv_rec(rust_lines(s), 0, false, Seq::empty(), Seq::empty(), Seq::empty());
    if !(s.len() > 0 && s[s.len() - 1] == '\n') && r.len() > 0 && r[r.len() - 1] == '\n' {
        r.take(r.len() - 1)
    } else {
        r
    }
}

/// Renders a literal with enough budget for its nesting.
fn h2h_full_x(v: &Vec<char>) -> (r: Vec<char>)
    ensures
        r@ == h2h_full(v@),
{
    let fuel: u128 = 2 * (v.len() as u128) + 2;
    hiccup_to_html(v, fuel)
}

/// Converts every bracket literal of the text: exactly
/// `convert_hiccup_spec`.
pub fn convert_hiccup_to_markdown(content: &str) -> (r: String)
    ensures
        r@ == convert_hiccup_spec(content@),
{
    let cv = str_to_chars(content);
    let all = split_lines_x(&cv);
    let mut ls: Vec<Vec<char>> = all;
    let ends_nl = cv.len() > 0 && cv[cv.len() - 1] == '\n';
    if cv.len() == 0 {
        ls = Vec::new();
    } else if ends_nl {
        let _ = ls.pop();
        proof {
            assert(vviews(ls@) =~= split_lines(cv@).drop_last()) by {
                assert(split_lines(cv@).len() >= 1) by {
                    crate::text::lemma_split_join(cv@);
                }
            }
        }
    }
    proof {
        assert(vviews(ls@) =~= rust_lines(content@));
    }
    let ghost lsv = rust_lines(content@);
    let op1 = str_to_chars("[:");
    let op2 = str_to_chars("- [:");
    let mk = str_to_chars("- ");
    let mut out: Vec<char> = Vec::new();
    let mut buf: Vec<char> = Vec::new();
    let mut ind: Vec<char> = Vec::new();
    let mut inm = false;
    let mut i: usize = 0;
    proof {
        assert(out@ =~= Seq::<char>::empty());
        assert(buf@ =~= Seq::<char>::empty());
        assert(ind@ =~= Seq::<char>::empty());
    }
    while i < ls.len()
        invariant
            i <= ls@.len(),
            vviews(ls@) == lsv,
            op1@ == "[:"@,
            op2@ == "- [:"@,
            mk@ == "- "@,
            conv_rec(lsv, 0, false, Seq::empty(), Seq::empty(), Seq::empty()) == conv_rec(
                lsv,
                i as int,
                inm,
                buf@,
                ind@,
                out@,
            ),
        decreases ls@.len() - i,
    {
        let ghost i0 = i as int;
        proof {
            assert(lsv[i0] == ls@[i0]@);
        }
        let t = trim_vec(&ls[i]);
        if !inm && (at_x(&t, 0, &op1) || at_x(&t, 0, &op2)) {
            let marked = at_x(&t, 0, &mk);
            let start: Vec<char> = if marked {
                proof {
                    reveal_strlit("- ");
                }
                let s2 = seg_vec(&t, 2, t.len());
                assert(s2@ =~= t@.skip("- "@.len() as int));
                s2
            } else {
                let s2 = seg_vec(&t, 0, t.len());
                assert(s2@ =~= t@);
                s2
            };
            let nind: Vec<char> = if marked {
                let w = skip_ws_from_x(&ls[i], 0);
                let nv = seg_vec(&ls[i], 0, w);
                assert(nv@ =~= leading_ws(lsv[i0]));
                nv
            } else {
                let nv: Vec<char> = Vec::new();
                assert(nv@ =~= Seq::<char>::empty());
                nv
            };
            let net = bracket_net_x(&start, 0);
            if net == 0 {
                let html = h2h_full_x(&start);
                let ghost out0 = out@;
                proof {
                    assert(conv_rec(lsv, i0, inm, buf@, ind@, out@) == conv_rec(
                        lsv,
                        i0 + 1,
                        false,
                        Seq::empty(),
                        nind@,
                        out@ + emit(h2h_full(start@), nind@),
                    ));
                }
                push_all(&mut out, &nind);
                if !is_block_element(&html) {
                    push_str_chars(&mut out, "- ");
                }
                push_all(&mut out, &html);
                push_str_chars(&mut out, "\n");
                proof {
                    assert(out@ =~= out0 + emit(h2h_full(start@), nind@));
                }
                buf = Vec::new();
                assert(buf@ =~= Seq::<char>::empty());
                ind = nind;
                inm = false;
            } else {
                proof {
                    assert(conv_rec(lsv, i0, inm, buf@, ind@, out@) == conv_rec(
                        lsv,
                        i0 + 1,
                        true,
                        start@,
                        nind@,
                        out@,
                    ));
                }
                buf = start;
                ind = nind;
                inm = true;
            }
        } else if inm {
            let ghost buf0 = buf@;
            let mut buf2 = buf;
            push_str_chars(&mut buf2, " ");
            push_all(&mut buf2, &t);
            proof {
                assert(buf2@ =~= buf0 + " "@ + t@);
            }
            let net = bracket_net_x(&buf2, 0);
            if net == 0 {
                let html = h2h_full_x(&buf2);
                let ghost out0 = out@;
                proof {
                    assert(conv_rec(lsv, i0, true, buf0, ind@, out@) == conv_rec(
                        lsv,
                        i0 + 1,
                        false,
                        Seq::empty(),
                        ind@,
                        out@ + emit(h2h_full(buf0 + " "@ + t@), ind@),
                    ));
                }
                push_all(&mut out, &ind);
                if !is_block_element(&html) {
                    push_str_chars(&mut out, "- ");
                }
                push_all(&mut out, &html);
                push_str_chars(&mut out, "\n");
                proof {
                    assert(out@ =~= out0 + emit(h2h_full(buf0 + " "@ + t@), ind@));
                }
                buf = Vec::new();
                assert(buf@ =~= Seq::<char>::empty());
                inm = false;
            } else {
                proof {
                    assert(conv_rec(lsv, i0, true, buf0, ind@, out@) == conv_rec(
                        lsv,
                        i0 + 1,
                        true,
                        buf0 + " "@ + t@,
                        ind@,
                        out@,
                    ));
                }
                buf = buf2;
                inm = true;
            }
        } else {
            proof {
                assert(conv_rec(lsv, i0, inm, buf@, ind@, out@) == conv_rec(
                    lsv,
                    i0 + 1,
                    inm,
                    buf@,
                    ind@,
                    out@ + lsv[i0] + "\n"@,
                ));
            }
            push_all(&mut out, &ls[i]);
            push_str_chars(&mut out, "\n");
        }
        i += 1;
    }
    proof {
        assert(conv_rec(lsv, lsv.len() as int, inm, buf@, ind@, out@) == (if buf@.len() > 0 {
            out@ + ind@ + "- "@ + h2h_full(buf@) + "\n"@
        } else {
            out@
        }));
    }
    let ghost target = conv_rec(lsv, 0, false, Seq::empty(), Seq::empty(), Seq::empty());
    if buf.len() > 0 {
        let ghost out0 = out@;
        push_all(&mut out, &ind);
        push_str_chars(&mut out, "- ");
        let html = h2h_full_x(&buf);
        push_all(&mut out, &html);
        push_str_chars(&mut out, "\n");
        proof {
            assert(out@ =~= out0 + ind@ + "- "@ + h2h_full(buf@) + "\n"@);
            assert(out@ =~= target);
        }
    } else {
        proof {
            assert(out@ =~= target);
        }
    }
    let final_out: Vec<char> = if !(cv.len() > 0 && cv[cv.len() - 1] == '\n') && out.len() > 0
        && out[out.len() - 1] == '\n' {
        let r = seg_vec(&out, 0, out.len() - 1);
        assert(r@ =~= out@.take(out@.len() - 1));
        r
    } else {
        let r = seg_vec(&out, 0, out.len());
        assert(r@ =~= out@);
        r
    };
    crate::text::chars_to_string(&final_out)
}

} // verus!
