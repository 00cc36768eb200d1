//! The inline rewrite engine.
//!
//! Every single-token syntax rewrite of the transform pipeline is a `Rule`:
//! a match relation saying where a token starts, how far it extends, and
//! what replaces it.  One verified scanner applies a rule over a whole text,
//! left to right, copying unmatched characters.

use vstd::prelude::*;
use crate::text::{Cls, at, at_x, find_from, find_from_x, is_digit, is_upper, is_ws, is_ws_x, push_all, push_seg, push_str_chars, scan_while, scan_while_x, seg_vec, skip_ws_from, skip_ws_from_x, str_to_chars};

verus! {

/// One inline rewrite of the pipeline.
#[derive(Clone, Copy)]
pub enum Rule {
    /// Strip an image size annotation.
    ImageSize,
    /// Escape ticker and currency dollar tokens, leaving link spans alone.
    Dollar,
    /// Turn an embed directive into embed-link syntax.
    Embed,
    /// Collapse a markdown link whose target is a bracket link.
    MdLink,
    /// Replace a block embed directive with placeholder prose.
    BlockEmbed,
    /// Turn a block reference into an anchor link.
    BlockRef,
    /// Turn a video-site embed directive into image-link syntax.
    Youtube,
    /// Turn a video embed directive into image-link syntax.
    Video,
    /// Turn an explicit document-frame directive into an inline frame.
    Pdf,
    /// Turn image syntax whose target is a document file into an inline frame.
    ImagePdf,
    /// Replace a renderer directive with an inert code span.
    Renderer,
    /// Turn cloze syntax into highlighted text.
    Cloze,
    /// Highest priority marker to a red circle.
    PriorityA,
    /// Middle priority marker to a yellow circle.
    PriorityB,
    /// Lowest priority marker to a green circle.
    PriorityC,
    /// Scheduled stamp to emoji-prefixed prose.
    Scheduled,
    /// Deadline stamp to emoji-prefixed prose.
    Deadline,
}

/// Match of the cloze rule at `i`: `{{cloze` + whitespace + text + `}}`,
/// replaced by the text between highlight markers.
pub open spec fn m_cloze(s: Seq<char>, i: int) -> Option<(int, Seq<char>)> {
    if at(s, i, "{{cloze"@) && i + 7 < s.len() && is_ws(s[i + 7]) {
        let a = skip_ws_from(s, i + 7);
        let e = find_from(s, '}', a);
        if e > a && e + 1 < s.len() && s[e + 1] == '}' {
            Some((e + 2, "=="@ + s.subrange(a, e) + "=="@))
        } else {
            None
        }
    } else {
        None
    }
}

/// Match of a fixed literal `pat` at `i`, replaced by `rep`.
pub open spec fn m_lit(s: Seq<char>, i: int, pat: Seq<char>, rep: Seq<char>) -> Option<
    (int, Seq<char>),
> {
    if at(s, i, pat) && pat.len() > 0 {
        Some((i + pat.len() as int, rep))
    } else {
        None
    }
}

/// Match of the block reference rule at `i`: a 36-character block id in
/// doubled parentheses, replaced by an anchor link to the block.
pub open spec fn m_block_ref(s: Seq<char>, i: int) -> Option<(int, Seq<char>)> {
    if 0 <= i && i + 40 <= s.len() && s[i] == '(' && s[i + 1] == '(' && scan_while(
        s,
        Cls::HexDash,
        i + 2,
    ) == i + 38 && s[i + 38] == ')' && s[i + 39] == ')' {
        Some((i + 40, "[→ block](#^"@ + s.subrange(i + 2, i + 38) + ")"@))
    } else {
        None
    }
}

/// Match of a date stamp rule at `i`: `kw` + whitespace + `<date>`,
/// replaced by `pre` + date.
pub open spec fn m_stamp(s: Seq<char>, i: int, kw: Seq<char>, pre: Seq<char>) -> Option<
    (int, Seq<char>),
> {
    if at(s, i, kw) {
        let b = skip_ws_from(s, i + kw.len() as int);
        if b < s.len() && s[b] == '<' {
            let e = find_from(s, '>', b + 1);
            if e > b + 1 && e < s.len() {
                Some((e + 1, pre + s.subrange(b + 1, e)))
            } else {
                None
            }
        } else {
            None
        }
    } else {
        None
    }
}

/// Where rule `rule` matches at position `i` of `s`: the first unmatched
/// position and the replacement text, or `None`.
pub open spec fn rule_match(rule: Rule, s: Seq<char>, i: int) -> Option<(int, Seq<char>)> {
    match rule {
        Rule::Cloze => m_cloze(s, i),
        Rule::BlockRef => m_block_ref(s, i),
        Rule::PriorityA => m_lit(s, i, "[#A]"@, "🔴"@),
        Rule::PriorityB => m_lit(s, i, "[#B]"@, "🟡"@),
        Rule::PriorityC => m_lit(s, i, "[#C]"@, "🟢"@),
        Rule::Scheduled => m_stamp(s, i, "SCHEDULED:"@, "📅 Scheduled: "@),
        Rule::Deadline => m_stamp(s, i, "DEADLINE:"@, "⏰ Deadline: "@),
        Rule::Embed => m_embed(s, i),
        Rule::BlockEmbed => m_block_embed(s, i),
        Rule::MdLink => m_md_link(s, i),
        Rule::Youtube => m_media(s, i, "{{youtube"@),
        Rule::Video => m_media(s, i, "{{video"@),
        Rule::Pdf => m_pdf(s, i),
        Rule::ImagePdf => m_image_pdf(s, i),
        Rule::Renderer => m_renderer(s, i),
        Rule::ImageSize => m_image_size(s, i),
        Rule::Dollar => m_dollar(s, i),
    }
}

/// Match of the embed rule at `i`: `{{embed` + whitespace + a bracket link +
/// optional whitespace + `}}`, replaced by embed-link syntax.
pub open spec fn m_embed(s: Seq<char>, i: int) -> Option<(int, Seq<char>)> {
    if at(s, i, "{{embed"@) && i + 7 < s.len() && is_ws(s[i + 7]) {
        let a = skip_ws_from(s, i + 7);
        if at(s, a, "[["@) {
            let e = find_from(s, ']', a + 2);
            if e > a + 2 && e + 1 < s.len() && s[e + 1] == ']' {
                let b = skip_ws_from(s, e + 2);
                if b + 2 <= s.len() && s[b] == '}' && b + 1 < s.len() && s[b + 1] == '}' {
                    Some((b + 2, "![["@ + s.subrange(a + 2, e) + "]]"@))
                } else {
                    None
                }
            } else {
                None
            }
        } else {
            None
        }
    } else {
        None
    }
}

/// Match of the block embed rule at `i`: `{{embed` + whitespace + a block
/// reference + optional whitespace + `}}`, replaced by placeholder prose.
pub open spec fn m_block_embed(s: Seq<char>, i: int) -> Option<(int, Seq<char>)> {
    if at(s, i, "{{embed"@) && i + 7 < s.len() && is_ws(s[i + 7]) {
        let a = skip_ws_from(s, i + 7);
        if at(s, a, "(("@) {
            let e = find_from(s, ')', a + 2);
            if e > a + 2 && e + 1 < s.len() && s[e + 1] == ')' {
                let b = skip_ws_from(s, e + 2);
                if b + 1 < s.len() && s[b] == '}' && s[b + 1] == '}' {
                    Some((b + 2, "*Block embed - view in Logseq*"@))
                } else {
                    None
                }
            } else {
                None
            }
        } else {
            None
        }
    } else {
        None
    }
}

/// Match of the markdown-link collapse at `i`: `[text]([[Page]])`,
/// replaced by `[text](Page)`.
pub open spec fn m_md_link(s: Seq<char>, i: int) -> Option<(int, Seq<char>)> {
    if 0 <= i && i < s.len() && s[i] == '[' {
        let e1 = find_from(s, ']', i + 1);
        if e1 > i + 1 && e1 + 3 < s.len() && s[e1 + 1] == '(' && s[e1 + 2] == '[' && s[e1 + 3]
            == '[' {
            let e2 = find_from(s, ']', e1 + 4);
            if e2 > e1 + 4 && e2 + 2 < s.len() && s[e2 + 1] == ']' && s[e2 + 2] == ')' {
                Some(
                    (
                        e2 + 3,
                        "["@ + s.subrange(i + 1, e1) + "]("@ + s.subrange(e1 + 4, e2) + ")"@,
                    ),
                )
            } else {
                None
            }
        } else {
            None
        }
    } else {
        None
    }
}

/// Match of a media embed at `i`: `kw` + whitespace + target + `}}`,
/// replaced by image-link syntax for the target.
pub open spec fn m_media(s: Seq<char>, i: int, kw: Seq<char>) -> Option<(int, Seq<char>)> {
    if at(s, i, kw) && i + kw.len() < s.len() && is_ws(s[i + kw.len()]) {
        let a = skip_ws_from(s, i + kw.len() as int);
        let e = find_from(s, '}', a);
        if e > a && e + 1 < s.len() && s[e + 1] == '}' {
            Some((e + 2, "!["@ + s.subrange(a, e) + "]("@ + s.subrange(a, e) + ")"@))
        } else {
            None
        }
    } else {
        None
    }
}

/// Opening text of the inline frame a document embed becomes.
pub open spec fn iframe_pre() -> Seq<char> {
    "<iframe src=\""@
}

/// Closing text of the inline frame a document embed becomes.
pub open spec fn iframe_post() -> Seq<char> {
    "\" width=\"100%\" height=\"600px\" style=\"border: 1px solid #333; border-radius: 4px;\"></iframe>"@
}

/// Match of the document-frame directive at `i`: `{{pdf` + whitespace +
/// path + `}}`, replaced by an inline frame for the path.
pub open spec fn m_pdf(s: Seq<char>, i: int) -> Option<(int, Seq<char>)> {
    if at(s, i, "{{pdf"@) && i + 5 < s.len() && is_ws(s[i + 5]) {
        let a = skip_ws_from(s, i + 5);
        let e = find_from(s, '}', a);
        if e > a && e + 1 < s.len() && s[e + 1] == '}' {
            Some((e + 2, iframe_pre() + s.subrange(a, e) + iframe_post()))
        } else {
            None
        }
    } else {
        None
    }
}

/// Match of image syntax targeting a document file at `i`:
/// `![alt](path.pdf)`, replaced by an inline frame for the path.
pub open spec fn m_image_pdf(s: Seq<char>, i: int) -> Option<(int, Seq<char>)> {
    if 0 <= i && i + 1 < s.len() && s[i] == '!' && s[i + 1] == '[' {
        let e1 = find_from(s, ']', i + 2);
        if e1 + 1 < s.len() && s[e1 + 1] == '(' {
            let e2 = find_from(s, ')', e1 + 2);
            if e2 > e1 + 2 && e2 < s.len() && e2 - (e1 + 2) >= 4 && s.subrange(e2 - 4, e2)
                == ".pdf"@ {
                Some((e2 + 1, iframe_pre() + s.subrange(e1 + 2, e2) + iframe_post()))
            } else {
                None
            }
        } else {
            None
        }
    } else {
        None
    }
}

/// Match of the renderer directive at `i`: `{{renderer` + whitespace +
/// anything + `}}`, replaced by an inert code span.
pub open spec fn m_renderer(s: Seq<char>, i: int) -> Option<(int, Seq<char>)> {
    if at(s, i, "{{renderer"@) && i + 10 < s.len() && is_ws(s[i + 10]) {
        let a = skip_ws_from(s, i + 10);
        let e = find_from(s, '}', a);
        if e > a && e + 1 < s.len() && s[e + 1] == '}' {
            Some((e + 2, "`[renderer]`"@))
        } else {
            None
        }
    } else {
        None
    }
}

/// Match of an image size annotation at `i`:
/// `{:height N, :width M}`, removed outright.
pub open spec fn m_image_size(s: Seq<char>, i: int) -> Option<(int, Seq<char>)> {
    if at(s, i, "{:height"@) && i + 8 < s.len() && is_ws(s[i + 8]) {
        let a = skip_ws_from(s, i + 8);
        let d = scan_while(s, Cls::Digit, a);
        if d > a {
            let j = if d < s.len() && s[d] == ',' {
                d + 1
            } else {
                d
            };
            let b = skip_ws_from(s, j);
            if at(s, b, ":width"@) && b + 6 < s.len() && is_ws(s[b + 6]) {
                let c = skip_ws_from(s, b + 6);
                let e = scan_while(s, Cls::Digit, c);
                if e > c && e < s.len() && s[e] == '}' {
                    Some((e + 1, Seq::empty()))
                } else {
                    None
                }
            } else {
                None
            }
        } else {
            None
        }
    } else {
        None
    }
}

/// Match of the dollar rule at `i`.  A bracket link or embed span is copied
/// unchanged; a dollar sign not preceded by a backslash and starting an
/// all-caps token or an amount is backslash-escaped.
pub open spec fn m_dollar(s: Seq<char>, i: int) -> Option<(int, Seq<char>)> {
    if 0 <= i && i < s.len() && (s[i] == '!' && at(s, i + 1, "[["@) || at(s, i, "[["@)) {
        let w = if s[i] == '!' {
            i + 1
        } else {
            i
        };
        let e = find_from(s, ']', w + 2);
        if e > w + 2 && e + 1 < s.len() && s[e + 1] == ']' {
            Some((e + 2, s.subrange(i, e + 2)))
        } else {
            None
        }
    } else if 0 <= i && i < s.len() && s[i] == '$' && (i == 0 || s[i - 1] != '\\') {
        if i + 1 < s.len() && is_upper(s[i + 1]) {
            let e = scan_while(s, Cls::UpperDigit, i + 2);
            Some((e, "\\$"@ + s.subrange(i + 1, e)))
        } else if i + 1 < s.len() && is_digit(s[i + 1]) {
            let e0 = scan_while(s, Cls::Amount, i + 2);
            let e = if e0 < s.len() && (s[e0] == 'k' || s[e0] == 'K' || s[e0] == 'm' || s[e0]
                == 'M' || s[e0] == 'b' || s[e0] == 'B') {
                e0 + 1
            } else {
                e0
            };
            Some((e, "\\$"@ + s.subrange(i + 1, e)))
        } else {
            None
        }
    } else {
        None
    }
}

/// The text of `s` from position `i` on, with every match of `rule`
/// replaced and everything else copied, scanning left to right.
pub open spec fn rewrite_from(rule: Rule, s: Seq<char>, i: int) -> Seq<char>
    decreases s.len() - i when 0 <= i <= s.len()
{
    if i < 0 || i >= s.len() {
        Seq::empty()
    } else {
        match rule_match(rule, s, i) {
            Some((e, rep)) => {
                if i < e <= s.len() {
                    rep + rewrite_from(rule, s, e)
                } else {
                    seq![s[i]] + rewrite_from(rule, s, i + 1)
                }
            },
            None => seq![s[i]] + rewrite_from(rule, s, i + 1),
        }
    }
}

/// The whole text of `s` with every match of `rule` replaced.
pub open spec fn rewrite(rule: Rule, s: Seq<char>) -> Seq<char> {
    rewrite_from(rule, s, 0)
}

/// Executable matcher: agrees with `rule_match` at every position.
fn try_rule(rule: Rule, v: &Vec<char>, i: usize) -> (r: Option<(usize, Vec<char>)>)
    requires
        i < v.len(),
    ensures
        match r {
            Some(p) => rule_match(rule, v@, i as int) == Some((p.0 as int, p.1@)) && i < p.0
                && p.0 <= v.len(),
            None => rule_match(rule, v@, i as int) is None,
        },
{
    match rule {
        Rule::Cloze => try_cloze(v, i),
        Rule::BlockRef => try_block_ref(v, i),
        Rule::PriorityA => try_lit(v, i, "[#A]", "🔴"),
        Rule::PriorityB => try_lit(v, i, "[#B]", "🟡"),
        Rule::PriorityC => try_lit(v, i, "[#C]", "🟢"),
        Rule::Scheduled => try_stamp(v, i, "SCHEDULED:", "📅 Scheduled: "),
        Rule::Deadline => try_stamp(v, i, "DEADLINE:", "⏰ Deadline: "),
        Rule::Embed => try_embed(v, i),
        Rule::BlockEmbed => try_block_embed(v, i),
        Rule::MdLink => try_md_link(v, i),
        Rule::Youtube => try_media(v, i, "{{youtube"),
        Rule::Video => try_media(v, i, "{{video"),
        Rule::Pdf => try_pdf(v, i),
        Rule::ImagePdf => try_image_pdf(v, i),
        Rule::Renderer => try_renderer(v, i),
        Rule::ImageSize => try_image_size(v, i),
        Rule::Dollar => try_dollar(v, i),
    }
}

/// Executable cloze matcher.
fn try_cloze(v: &Vec<char>, i: usize) -> (r: Option<(usize, Vec<char>)>)
    requires
        i < v.len(),
    ensures
        match r {
            Some(p) => m_cloze(v@, i as int) == Some((p.0 as int, p.1@)) && i < p.0 && p.0
                <= v.len(),
            None => m_cloze(v@, i as int) is None,
        },
{
    let pat = str_to_chars("{{cloze");
    if !(at_x(v, i, &pat) && v.len() - i > 7 && is_ws_x(v[i + 7])) {
        return None;
    }
    let a = skip_ws_from_x(v, i + 7);
    let e = find_from_x(v, '}', a);
    if e > a && v.len() - e > 1 && v[e + 1] == '}' {
        let mut rep: Vec<char> = Vec::new();
        push_str_chars(&mut rep, "==");
        push_seg(&mut rep, v, a, e);
        push_str_chars(&mut rep, "==");
        assert(rep@ =~= "=="@ + v@.subrange(a as int, e as int) + "=="@);
        Some((e + 2, rep))
    } else {
        None
    }
}

/// Executable fixed-literal matcher.
fn try_lit(v: &Vec<char>, i: usize, pat: &str, rep: &str) -> (r: Option<(usize, Vec<char>)>)
    requires
        i < v.len(),
    ensures
        match r {
            Some(p) => m_lit(v@, i as int, pat@, rep@) == Some((p.0 as int, p.1@)) && i < p.0
                && p.0 <= v.len(),
            None => m_lit(v@, i as int, pat@, rep@) is None,
        },
{
    let pv = str_to_chars(pat);
    if pv.len() > 0 && at_x(v, i, &pv) {
        let rv = str_to_chars(rep);
        Some((i + pv.len(), rv))
    } else {
        None
    }
}

/// Executable block reference matcher.
fn try_block_ref(v: &Vec<char>, i: usize) -> (r: Option<(usize, Vec<char>)>)
    requires
        i < v.len(),
    ensures
        match r {
            Some(p) => m_block_ref(v@, i as int) == Some((p.0 as int, p.1@)) && i < p.0 && p.0
                <= v.len(),
            None => m_block_ref(v@, i as int) is None,
        },
{
    if !(v.len() - i >= 40 && v[i] == '(' && v[i + 1] == '(') {
        return None;
    }
    let h = scan_while_x(v, Cls::HexDash, i + 2);
    if h == i + 38 && v[i + 38] == ')' && v[i + 39] == ')' {
        let mut rep: Vec<char> = Vec::new();
        push_str_chars(&mut rep, "[→ block](#^");
        push_seg(&mut rep, v, i + 2, i + 38);
        push_str_chars(&mut rep, ")");
        assert(rep@ =~= "[→ block](#^"@ + v@.subrange(i + 2, i + 38) + ")"@);
        Some((i + 40, rep))
    } else {
        None
    }
}

/// Executable date stamp matcher.
fn try_stamp(v: &Vec<char>, i: usize, kw: &str, pre: &str) -> (r: Option<(usize, Vec<char>)>)
    requires
        i < v.len(),
    ensures
        match r {
            Some(p) => m_stamp(v@, i as int, kw@, pre@) == Some((p.0 as int, p.1@)) && i < p.0
                && p.0 <= v.len(),
            None => m_stamp(v@, i as int, kw@, pre@) is None,
        },
{
    let kv = str_to_chars(kw);
    if !at_x(v, i, &kv) {
        return None;
    }
    let b = skip_ws_from_x(v, i + kv.len());
    if b < v.len() && v[b] == '<' {
        let e = find_from_x(v, '>', b + 1);
        if e > b + 1 && e < v.len() {
            let mut rep = str_to_chars(pre);
            push_seg(&mut rep, v, b + 1, e);
            assert(rep@ =~= pre@ + v@.subrange(b + 1, e as int));
            Some((e + 1, rep))
        } else {
            None
        }
    } else {
        None
    }
}

/// Executable embed matcher.
fn try_embed(v: &Vec<char>, i: usize) -> (r: Option<(usize, Vec<char>)>)
    requires
        i < v.len(),
    ensures
        match r {
            Some(p) => m_embed(v@, i as int) == Some((p.0 as int, p.1@)) && i < p.0 && p.0
                <= v.len(),
            None => m_embed(v@, i as int) is None,
        },
{
    let pat = str_to_chars("{{embed");
    if !(at_x(v, i, &pat) && v.len() - i > 7 && is_ws_x(v[i + 7])) {
        return None;
    }
    let a = skip_ws_from_x(v, i + 7);
    let br = str_to_chars("[[");
    if !at_x(v, a, &br) {
        return None;
    }
    proof {
        reveal_strlit("[[");
    }
    let e = find_from_x(v, ']', a + 2);
    if e > a + 2 && v.len() - e > 1 && v[e + 1] == ']' {
        let b = skip_ws_from_x(v, e + 2);
        if v.len() - b > 1 && v[b] == '}' && v[b + 1] == '}' {
            let mut rep: Vec<char> = Vec::new();
            push_str_chars(&mut rep, "![[");
            push_seg(&mut rep, v, a + 2, e);
            push_str_chars(&mut rep, "]]");
            assert(rep@ =~= "![["@ + v@.subrange(a + 2, e as int) + "]]"@);
            Some((b + 2, rep))
        } else {
            None
        }
    } else {
        None
    }
}

/// Executable block embed matcher.
fn try_block_embed(v: &Vec<char>, i: usize) -> (r: Option<(usize, Vec<char>)>)
    requires
        i < v.len(),
    ensures
        match r {
            Some(p) => m_block_embed(v@, i as int) == Some((p.0 as int, p.1@)) && i < p.0 && p.0
                <= v.len(),
            None => m_block_embed(v@, i as int) is None,
        },
{
    let pat = str_to_chars("{{embed");
    if !(at_x(v, i, &pat) && v.len() - i > 7 && is_ws_x(v[i + 7])) {
        return None;
    }
    let a = skip_ws_from_x(v, i + 7);
    let br = str_to_chars("((");
    if !at_x(v, a, &br) {
        return None;
    }
    proof {
        reveal_strlit("((");
    }
    let e = find_from_x(v, ')', a + 2);
    if e > a + 2 && v.len() - e > 1 && v[e + 1] == ')' {
        let b = skip_ws_from_x(v, e + 2);
        if v.len() - b > 1 && v[b] == '}' && v[b + 1] == '}' {
            let rep = str_to_chars("*Block embed - view in Logseq*");
            Some((b + 2, rep))
        } else {
            None
        }
    } else {
        None
    }
}

/// Executable markdown-link collapse matcher.
fn try_md_link(v: &Vec<char>, i: usize) -> (r: Option<(usize, Vec<char>)>)
    requires
        i < v.len(),
    ensures
        match r {
            Some(p) => m_md_link(v@, i as int) == Some((p.0 as int, p.1@)) && i < p.0 && p.0
                <= v.len(),
            None => m_md_link(v@, i as int) is None,
        },
{
    if v[i] != '[' {
        return None;
    }
    let e1 = find_from_x(v, ']', i + 1);
    if e1 > i + 1 && v.len() - e1 > 3 && v[e1 + 1] == '(' && v[e1 + 2] == '[' && v[e1 + 3] == '[' {
        let e2 = find_from_x(v, ']', e1 + 4);
        if e2 > e1 + 4 && v.len() - e2 > 2 && v[e2 + 1] == ']' && v[e2 + 2] == ')' {
            let mut rep: Vec<char> = Vec::new();
            push_str_chars(&mut rep, "[");
            push_seg(&mut rep, v, i + 1, e1);
            push_str_chars(&mut rep, "](");
            push_seg(&mut rep, v, e1 + 4, e2);
            push_str_chars(&mut rep, ")");
            assert(rep@ =~= "["@ + v@.subrange(i + 1, e1 as int) + "]("@ + v@.subrange(
                e1 + 4,
                e2 as int,
            ) + ")"@);
            Some((e2 + 3, rep))
        } else {
            None
        }
    } else {
        None
    }
}

/// Executable media embed matcher.
fn try_media(v: &Vec<char>, i: usize, kw: &str) -> (r: Option<(usize, Vec<char>)>)
    requires
        i < v.len(),
    ensures
        match r {
            Some(p) => m_media(v@, i as int, kw@) == Some((p.0 as int, p.1@)) && i < p.0 && p.0
                <= v.len(),
            None => m_media(v@, i as int, kw@) is None,
        },
{
    let kv = str_to_chars(kw);
    if !(at_x(v, i, &kv) && v.len() - i > kv.len() && is_ws_x(v[i + kv.len()])) {
        return None;
    }
    let a = skip_ws_from_x(v, i + kv.len());
    let e = find_from_x(v, '}', a);
    if e > a && v.len() - e > 1 && v[e + 1] == '}' {
        let mut rep: Vec<char> = Vec::new();
        push_str_chars(&mut rep, "![");
        push_seg(&mut rep, v, a, e);
        push_str_chars(&mut rep, "](");
        push_seg(&mut rep, v, a, e);
        push_str_chars(&mut rep, ")");
        assert(rep@ =~= "!["@ + v@.subrange(a as int, e as int) + "]("@ + v@.subrange(
            a as int,
            e as int,
        ) + ")"@);
        Some((e + 2, rep))
    } else {
        None
    }
}

/// Executable document-frame matcher.
fn try_pdf(v: &Vec<char>, i: usize) -> (r: Option<(usize, Vec<char>)>)
    requires
        i < v.len(),
    ensures
        match r {
            Some(p) => m_pdf(v@, i as int) == Some((p.0 as int, p.1@)) && i < p.0 && p.0
                <= v.len(),
            None => m_pdf(v@, i as int) is None,
        },
{
    let kv = str_to_chars("{{pdf");
    if !(at_x(v, i, &kv) && v.len() - i > 5 && is_ws_x(v[i + 5])) {
        return None;
    }
    let a = skip_ws_from_x(v, i + 5);
    let e = find_from_x(v, '}', a);
    if e > a && v.len() - e > 1 && v[e + 1] == '}' {
        let mut rep = str_to_chars("<iframe src=\"");
        push_seg(&mut rep, v, a, e);
        push_str_chars(
            &mut rep,
            "\" width=\"100%\" height=\"600px\" style=\"border: 1px solid #333; border-radius: 4px;\"></iframe>",
        );
        assert(rep@ =~= iframe_pre() + v@.subrange(a as int, e as int) + iframe_post());
        Some((e + 2, rep))
    } else {
        None
    }
}

/// Executable matcher for image syntax targeting a document file.
fn try_image_pdf(v: &Vec<char>, i: usize) -> (r: Option<(usize, Vec<char>)>)
    requires
        i < v.len(),
    ensures
        match r {
            Some(p) => m_image_pdf(v@, i as int) == Some((p.0 as int, p.1@)) && i < p.0 && p.0
                <= v.len(),
            None => m_image_pdf(v@, i as int) is None,
        },
{
    if !(v.len() - i > 1 && v[i] == '!' && v[i + 1] == '[') {
        return None;
    }
    let e1 = find_from_x(v, ']', i + 2);
    if !(v.len() - e1 > 1 && v[e1 + 1] == '(') {
        return None;
    }
    let e2 = find_from_x(v, ')', e1 + 2);
    let ext = str_to_chars(".pdf");
    if e2 > e1 + 2 && e2 < v.len() && e2 - (e1 + 2) >= 4 && at_x(v, e2 - 4, &ext) {
        assert(v@.subrange(e2 - 4, e2 as int) =~= ".pdf"@) by {
            assert(at(v@, e2 - 4, ".pdf"@));
            assert(".pdf"@.len() == 4) by {
                reveal_strlit(".pdf");
            }
        }
        let mut rep = str_to_chars("<iframe src=\"");
        push_seg(&mut rep, v, e1 + 2, e2);
        push_str_chars(
            &mut rep,
            "\" width=\"100%\" height=\"600px\" style=\"border: 1px solid #333; border-radius: 4px;\"></iframe>",
        );
        assert(rep@ =~= iframe_pre() + v@.subrange(e1 + 2, e2 as int) + iframe_post());
        Some((e2 + 1, rep))
    } else {
        if e2 > e1 + 2 && e2 < v.len() && e2 - (e1 + 2) >= 4 {
            assert(".pdf"@.len() == 4) by {
                reveal_strlit(".pdf");
            }
            assert(v@.subrange(e2 - 4, e2 as int) != ".pdf"@);
        }
        None
    }
}

/// Executable renderer matcher.
fn try_renderer(v: &Vec<char>, i: usize) -> (r: Option<(usize, Vec<char>)>)
    requires
        i < v.len(),
    ensures
        match r {
            Some(p) => m_renderer(v@, i as int) == Some((p.0 as int, p.1@)) && i < p.0 && p.0
                <= v.len(),
            None => m_renderer(v@, i as int) is None,
        },
{
    let kv = str_to_chars("{{renderer");
    if !(at_x(v, i, &kv) && v.len() - i > 10 && is_ws_x(v[i + 10])) {
        return None;
    }
    let a = skip_ws_from_x(v, i + 10);
    let e = find_from_x(v, '}', a);
    if e > a && v.len() - e > 1 && v[e + 1] == '}' {
        Some((e + 2, str_to_chars("`[renderer]`")))
    } else {
        None
    }
}

/// Executable image size matcher.
fn try_image_size(v: &Vec<char>, i: usize) -> (r: Option<(usize, Vec<char>)>)
    requires
        i < v.len(),
    ensures
        match r {
            Some(p) => m_image_size(v@, i as int) == Some((p.0 as int, p.1@)) && i < p.0 && p.0
                <= v.len(),
            None => m_image_size(v@, i as int) is None,
        },
{
    let kv = str_to_chars("{:height");
    if !(at_x(v, i, &kv) && v.len() - i > 8 && is_ws_x(v[i + 8])) {
        return None;
    }
    let a = skip_ws_from_x(v, i + 8);
    let d = scan_while_x(v, Cls::Digit, a);
    if d <= a {
        return None;
    }
    let j = if d < v.len() && v[d] == ',' {
        d + 1
    } else {
        d
    };
    let b = skip_ws_from_x(v, j);
    let wv = str_to_chars(":width");
    if !(at_x(v, b, &wv) && v.len() - b > 6 && is_ws_x(v[b + 6])) {
        return None;
    }
    let c = skip_ws_from_x(v, b + 6);
    let e = scan_while_x(v, Cls::Digit, c);
    if e > c && e < v.len() && v[e] == '}' {
        Some((e + 1, Vec::new()))
    } else {
        None
    }
}

/// Executable dollar matcher.
fn try_dollar(v: &Vec<char>, i: usize) -> (r: Option<(usize, Vec<char>)>)
    requires
        i < v.len(),
    ensures
        match r {
            Some(p) => m_dollar(v@, i as int) == Some((p.0 as int, p.1@)) && i < p.0 && p.0
                <= v.len(),
            None => m_dollar(v@, i as int) is None,
        },
{
    let br = str_to_chars("[[");
    if (v[i] == '!' && at_x(v, i + 1, &br)) || at_x(v, i, &br) {
        let w = if v[i] == '!' {
            i + 1
        } else {
            i
        };
        let start = if v.len() - w >= 2 {
            w + 2
        } else {
            v.len()
        };
        assert(find_from(v@, ']', start as int) == find_from(v@, ']', w + 2));
        let e = find_from_x(v, ']', start);
        if e - w > 2 && v.len() - e > 1 && v[e + 1] == ']' {
            let rep = seg_vec(v, i, e + 2);
            return Some((e + 2, rep));
        } else {
            return None;
        }
    }
    if !(v[i] == '$' && (i == 0 || v[i - 1] != '\\')) {
        return None;
    }
    if i + 1 < v.len() && 'A' <= v[i + 1] && v[i + 1] <= 'Z' {
        let e = scan_while_x(v, Cls::UpperDigit, i + 2);
        let mut rep = str_to_chars("\\$");
        push_seg(&mut rep, v, i + 1, e);
        assert(rep@ =~= "\\$"@ + v@.subrange(i + 1, e as int));
        Some((e, rep))
    } else if i + 1 < v.len() && '0' <= v[i + 1] && v[i + 1] <= '9' {
        let e0 = scan_while_x(v, Cls::Amount, i + 2);
        let e = if e0 < v.len() && (v[e0] == 'k' || v[e0] == 'K' || v[e0] == 'm' || v[e0] == 'M'
            || v[e0] == 'b' || v[e0] == 'B') {
            e0 + 1
        } else {
            e0
        };
        let mut rep = str_to_chars("\\$");
        push_seg(&mut rep, v, i + 1, e);
        assert(rep@ =~= "\\$"@ + v@.subrange(i + 1, e as int));
        Some((e, rep))
    } else {
        None
    }
}

/// Applies one rule over the whole text: the result is exactly
/// `rewrite(rule, v)`.
pub fn apply_rule(rule: Rule, v: &Vec<char>) -> (r: Vec<char>)
    ensures
        r@ == rewrite(rule, v@),
{
    let mut out: Vec<char> = Vec::new();
    let mut i: usize = 0;
    while i < v.len()
        invariant
            i <= v.len(),
            rewrite(rule, v@) =~= out@ + rewrite_from(rule, v@, i as int),
        decreases v.len() - i,
    {
        let ghost i0 = i as int;
        match try_rule(rule, v, i) {
            Some((e, rep)) => {
                proof {
                    assert(rewrite_from(rule, v@, i0) =~= rep@ + rewrite_from(rule, v@, e as int));
                }
                push_all(&mut out, &rep);
                i = e;
            },
            None => {
                proof {
                    assert(rewrite_from(rule, v@, i0) =~= seq![v@[i0]] + rewrite_from(
                        rule,
                        v@,
                        i0 + 1,
                    ));
                }
                let c = v[i];
                out.push(c);
                i += 1;
            },
        }
    }
    assert(rewrite_from(rule, v@, i as int) =~= Seq::<char>::empty());
    assert(out@ =~= out@ + Seq::<char>::empty());
    out
}


/// A text that is exactly one bracket link comes through the dollar stage
/// byte for byte unchanged: the whole span is protected.
pub proof fn lemma_dollar_preserves_link(s: Seq<char>, inner: Seq<char>)
    requires
        s == "[["@ + inner + "]]"@,
        inner.len() > 0,
        forall|k: int| 0 <= k < inner.len() ==> inner[k] != ']',
    ensures
        rewrite(Rule::Dollar, s) == s,
{
    reveal_strlit("[[");
    reveal_strlit("]]");
    let w = 0int;
    let c0 = w + 2;
    assert(s.len() == inner.len() + 4);
    assert(s[0] == '[' && s[1] == '[');
    assert forall|k: int| 2 <= k < 2 + inner.len() implies s[k] != ']' by {
        assert(s[k] == inner[k - 2]);
    }
    assert(s[s.len() - 2] == ']' && s[s.len() - 1] == ']');
    let e = find_from(s, ']', 2);
    crate::text::lemma_find_from(s, ']', 2);
    assert(e == s.len() - 2) by {
        if e < s.len() - 2 {
            assert(s[e] == ']');
        } else if e > s.len() - 2 {
            assert(s[s.len() - 2] != ']');
        }
    }
    assert(at(s, 0, "[["@)) by {
        assert(s.subrange(0, 2) =~= "[["@);
    }
    assert(m_dollar(s, 0) == Some((s.len() as int, s.subrange(0, s.len() as int))));
    assert(rewrite_from(Rule::Dollar, s, 0) =~= s.subrange(0, s.len() as int) + rewrite_from(
        Rule::Dollar,
        s,
        s.len() as int,
    ));
    assert(rewrite_from(Rule::Dollar, s, s.len() as int) =~= Seq::<char>::empty());
    assert(rewrite(Rule::Dollar, s) =~= s);
}

} // verus!
