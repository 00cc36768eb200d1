//! The transform pipeline: the ordered rewrite stages one document's text
//! runs through, and the in-place execution of query directives.

use vstd::prelude::*;
use crate::page::Page;
use crate::lines::{map_lines, apply_line_rule, LineRule};
use crate::rewrite::{rewrite, apply_rule, Rule};
use crate::query::{
    execute_spec, render_spec, OptsV, props_opt, sort_by_opt, sort_desc_opt, table_opt,
};
use crate::text::{at, at_x, chars_to_string, contains_seq, contains_seq_x, find_from, join_lines, join_lines_x, push_all, push_str_chars, seg_vec, skip_ws_from, skip_ws_from_x, split_lines, split_lines_x, str_to_chars, trim_seq, trim_vec, vviews};
use crate::hiccup::rust_lines;

verus! {

/// Where a query directive stands on a line: the end of the indent, the
/// end of the optional bullet marker, and the position of the closing
/// braces.
pub open spec fn query_pos(l: Seq<char>) -> Option<(int, int, int)> {
    let j0 = skip_ws_from(l, 0);
    let j = if 0 <= j0 <= l.len() {
        j0
    } else {
        0
    };
    let j2 = if j < l.len() && l[j] == '-' {
        let w = skip_ws_from(l, j + 1);
        if j + 1 <= w <= l.len() {
            w
        } else {
            j + 1
        }
    } else {
        j
    };
    if at(l, j2, "{{query"@) {
        let e = find_from(l, '}', j2 + "{{query"@.len());
        if e + 1 < l.len() && l[e + 1] == '}' && 0 <= e {
            Some((j, j2, e))
        } else {
            None
        }
    } else {
        None
    }
}

/// A line holding a query directive.
pub open spec fn is_query_line(l: Seq<char>) -> bool {
    query_pos(l) is Some
}

/// A line that may carry query options for a following query.
pub open spec fn is_opt_line(l: Seq<char>) -> bool {
    contains_seq(l, "query-properties::"@) || contains_seq(l, "query-sort-by::"@) || contains_seq(
        l,
        "query-sort-desc::"@,
    ) || contains_seq(l, "query-table::"@)
}

/// First line of the option run that ends just before the query line:
/// scanning upward from `j`, a blank or non-option line ends the run.
pub open spec fn ctx_start(ls: Seq<Seq<char>>, j: int) -> int
    decreases j + 1,
{
    if j < 0 {
        0
    } else if j >= ls.len() {
        j + 1
    } else if trim_seq(ls[j]).len() == 0 {
        j + 1
    } else if is_opt_line(ls[j]) {
        ctx_start(ls, j - 1)
    } else {
        j + 1
    }
}

/// The option lines preceding the query, each with a newline.
pub open spec fn ctx_text(ls: Seq<Seq<char>>, k: int, i: int) -> Seq<char>
    decreases i - k,
{
    if k < 0 || k >= i || k >= ls.len() {
        Seq::empty()
    } else {
        ls[k] + "\n"@ + ctx_text(ls, k + 1, i)
    }
}

/// The options in effect at query line `i`.
pub open spec fn opts_at(ls: Seq<Seq<char>>, i: int) -> OptsV {
    let ctx = ctx_text(ls, ctx_start(ls, i - 1), i);
    OptsV {
        properties: props_opt(ctx),
        sort_by: sort_by_opt(ctx),
        sort_desc: sort_desc_opt(ctx),
        table: table_opt(ctx),
    }
}

/// The query text of a query line: the matched region cleaned of its
/// indent and bullet marker.
pub open spec fn query_str_of(l: Seq<char>, e: int) -> Seq<char> {
    crate::page::clean_line(l.take(e + 2))
}

/// A rendered line of table output gains the query line's indent.
pub open spec fn indent_lines(ols: Seq<Seq<char>>, ind: Seq<char>, k: int) -> Seq<Seq<char>>
    decreases ols.len() - k,
{
    if k < 0 || k >= ols.len() {
        Seq::empty()
    } else {
        seq![ind + ols[k]] + indent_lines(ols, ind, k + 1)
    }
}

/// A rendered line of list output: its own bullet marker is dropped and
/// the query line's prefix takes its place.
pub open spec fn prefix_lines(ols: Seq<Seq<char>>, pre: Seq<char>, k: int) -> Seq<Seq<char>>
    decreases ols.len() - k,
{
    if k < 0 || k >= ols.len() {
        Seq::empty()
    } else {
        let ol = ols[k];
        let body = if at(ol, 0, "- "@) {
            ol.skip("- "@.len() as int)
        } else {
            ol
        };
        seq![pre + body] + prefix_lines(ols, pre, k + 1)
    }
}

/// The lines that replace a query line: the query is run against the
/// index, rendered under the options in effect, and the output is spliced
/// back with the line's indentation; a table gets a blank line before it.
pub open spec fn splice(ls: Seq<Seq<char>>, i: int, index: Seq<Page>) -> Seq<Seq<char>>
    recommends
        0 <= i < ls.len(),
        is_query_line(ls[i]),
{
    let l = ls[i];
    let pos = query_pos(l)->0;
    let j = pos.0;
    let j2 = pos.1;
    let e = pos.2;
    let indent = l.take(j);
    let marker = l.subrange(j, j2);
    let q = query_str_of(l, e);
    let res = execute_spec(q, index);
    let output = render_spec(index, res, q, opts_at(ls, i));
    if find_from(output, '|', 0) < output.len() && contains_seq(output, "---"@) {
        seq![Seq::<char>::empty()] + indent_lines(rust_lines(output), indent, 0)
    } else {
        let pre = if marker.len() == 0 {
            indent + "- "@
        } else {
            indent + marker
        };
        prefix_lines(rust_lines(output), pre, 0)
    }
}

/// The lines of the text with every query line replaced by its output.
pub open spec fn pq_rec(ls: Seq<Seq<char>>, i: int, index: Seq<Page>, acc: Seq<Seq<char>>) -> Seq<
    Seq<char>,
>
    decreases ls.len() - i,
{
    if i < 0 || i >= ls.len() {
        acc
    } else if is_query_line(ls[i]) {
        pq_rec(ls, i + 1, index, acc + splice(ls, i, index))
    } else {
        pq_rec(ls, i + 1, index, acc.push(ls[i]))
    }
}

/// The whole text with every query executed in place.
pub open spec fn process_queries_spec(s: Seq<char>, index: Seq<Page>) -> Seq<char> {
    join_lines(pq_rec(rust_lines(s), 0, index, Seq::empty()))
}

/// Executable query-position parse matching `query_pos`.
fn query_pos_x(l: &Vec<char>) -> (r: Option<(usize, usize, usize)>)
    ensures
        match r {
            Some(p) => query_pos(l@) == Some((p.0 as int, p.1 as int, p.2 as int)) && p.0 <= p.1
                <= l.len() && p.2 + 1 < l.len(),
            None => query_pos(l@) is None,
        },
{
    let j = skip_ws_from_x(l, 0);
    let j2 = if j < l.len() && l[j] == '-' {
        skip_ws_from_x(l, j + 1)
    } else {
        j
    };
    let pat = str_to_chars("{{query");
    if at_x(l, j2, &pat) {
        let e = crate::text::find_from_x(l, '}', j2 + pat.len());
        if l.len() - e > 1 && l[e + 1] == '}' {
            Some((j, j2, e))
        } else {
            None
        }
    } else {
        None
    }
}

/// Executable option-line test matching `is_opt_line`.
fn is_opt_line_x(l: &Vec<char>) -> (r: bool)
    ensures
        r == is_opt_line(l@),
{
    contains_seq_x(l, &str_to_chars("query-properties::")) || contains_seq_x(
        l,
        &str_to_chars("query-sort-by::"),
    ) || contains_seq_x(l, &str_to_chars("query-sort-desc::")) || contains_seq_x(
        l,
        &str_to_chars("query-table::"),
    )
}

/// Executable backward scan matching `ctx_start`.
fn ctx_start_x(ls: &Vec<Vec<char>>, j: usize) -> (r: usize)
    requires
        j <= ls.len(),
    ensures
        r as int == ctx_start(vviews(ls@), j as int - 1),
        r <= j,
    decreases j,
{
    if j == 0 {
        0
    } else {
        let t = trim_vec(&ls[j - 1]);
        proof {
            assert(vviews(ls@)[j - 1] == ls@[j - 1]@);
        }
        if t.len() == 0 {
            j
        } else if is_opt_line_x(&ls[j - 1]) {
            ctx_start_x(ls, j - 1)
        } else {
            j
        }
    }
}

/// The replacement lines for one query line, executable: exactly
/// `splice`.
#[verifier::rlimit(100)]
#[verifier::spinoff_prover]
fn splice_x(ls: &Vec<Vec<char>>, i: usize, index: &Vec<Page>) -> (r: Vec<Vec<char>>)
    requires
        i < ls.len(),
        is_query_line(vviews(ls@)[i as int]),
    ensures
        vviews(r@) == splice(vviews(ls@), i as int, index@),
{
    let ghost lsv = vviews(ls@);
    proof {
        assert(lsv[i as int] == ls@[i as int]@);
    }
    let ghost i0 = i as int;
    let pos = query_pos_x(&ls[i]);
    let (j, j2, e) = match pos {
        Some(p) => p,
        None => {
            proof {
                assert(false);
            }
            (0, 0, 0)
        },
    };
    let cstart = ctx_start_x(ls, i);
    let mut ctx: Vec<char> = Vec::new();
    let mut k: usize = cstart;
    proof {
        assert(ctx@ =~= Seq::<char>::empty());
        assert(ctx_text(lsv, i0, i0) =~= Seq::<char>::empty());
    }
    while k < i
        invariant
            cstart <= k <= i,
            i < ls@.len(),
            vviews(ls@) == lsv,
            ctx_text(lsv, cstart as int, i as int) =~= ctx@ + ctx_text(lsv, k as int, i as int),
        decreases i - k,
    {
        let ghost k0 = k as int;
        proof {
            assert(lsv[k0] == ls@[k0]@);
            assert(ctx_text(lsv, k0, i as int) =~= lsv[k0] + "\n"@ + ctx_text(
                lsv,
                k0 + 1,
                i as int,
            ));
        }
        push_all(&mut ctx, &ls[k]);
        push_str_chars(&mut ctx, "\n");
        k += 1;
    }
    proof {
        assert(ctx_text(lsv, i as int, i as int) =~= Seq::<char>::empty());
        assert(ctx@ =~= ctx_text(lsv, cstart as int, i as int));
    }
    let ctx_s = chars_to_string(&ctx);
    let opts = crate::query::parse_query_options(ctx_s.as_str());

    let full = seg_vec(&ls[i], 0, e + 2);
    assert(full@ =~= lsv[i0].take(e + 2));
    let q = crate::page::clean_line_x(&full);
    assert(q@ == query_str_of(lsv[i0], e as int));
    let q_s = chars_to_string(&q);
    let results = crate::query::execute(q_s.as_str(), index);
    let output_s = crate::query::results_to_markdown_with_options(
        index,
        &results,
        q_s.as_str(),
        &opts,
    );
    let ghost outspec = render_spec(index@, execute_spec(q@, index@), q@, opts_at(lsv, i0));
    let ov = str_to_chars(output_s.as_str());
    proof {
        assert(ctx@ == ctx_text(lsv, ctx_start(lsv, i0 - 1), i0));
        assert(crate::query::opts_view(opts) == opts_at(lsv, i0));
        assert(ov@ == outspec);
    }

    let mut olines = split_lines_x(&ov);
    if ov.len() == 0 {
        olines = Vec::new();
    } else if ov[ov.len() - 1] == '\n' {
        let _ = olines.pop();
        proof {
            crate::text::lemma_split_join(ov@);
            assert(vviews(olines@) =~= split_lines(ov@).drop_last());
        }
    }
    proof {
        assert(vviews(olines@) =~= rust_lines(outspec));
    }
    let ghost olv = rust_lines(outspec);

    let indent = seg_vec(&ls[i], 0, j);
    assert(indent@ =~= lsv[i0].take(j as int));
    let marker = seg_vec(&ls[i], j, j2);
    assert(marker@ =~= lsv[i0].subrange(j as int, j2 as int));

    let mut out: Vec<Vec<char>> = Vec::new();
    let is_table = crate::text::find_from_x(&ov, '|', 0) < ov.len() && contains_seq_x(
        &ov,
        &str_to_chars("---"),
    );
    if is_table {
        out.push(Vec::new());
        proof {
            assert(out@[0]@ =~= Seq::<char>::empty());
        }
        let mut m: usize = 0;
        while m < olines.len()
            invariant
                m <= olines@.len(),
                vviews(olines@) == olv,
                out@.len() == m + 1,
                out@[0]@ == Seq::<char>::empty(),
                indent@ == lsv[i0].take(j as int),
                forall|t: int|
                    1 <= t < m + 1 ==> (#[trigger] out@[t])@ == indent@ + olv[t - 1],
            decreases olines@.len() - m,
        {
            let ghost m0 = m as int;
            proof {
                assert(olv[m0] == olines@[m0]@);
            }
            let mut nl = seg_vec(&indent, 0, indent.len());
            push_all(&mut nl, &olines[m]);
            assert(nl@ =~= indent@ + olv[m0]);
            out.push(nl);
            m += 1;
        }
        proof {
            lemma_indent_lines_shape(olv, indent@);
            assert forall|t: int| 0 <= t < vviews(out@).len() implies vviews(out@)[t] == splice(
                lsv,
                i0,
                index@,
            )[t] by {
                assert(vviews(out@)[t] == out@[t]@);
                if t >= 1 {
                    assert((seq![Seq::<char>::empty()] + indent_lines(olv, indent@, 0))[t]
                        == indent_lines(olv, indent@, 0)[t - 1]);
                }
            }
            assert(vviews(out@) =~= splice(lsv, i0, index@));
        }
    } else {
        let mut pre = seg_vec(&indent, 0, indent.len());
        if marker.len() == 0 {
            push_str_chars(&mut pre, "- ");
            assert(pre@ =~= indent@ + "- "@);
        } else {
            push_all(&mut pre, &marker);
            assert(pre@ =~= indent@ + marker@);
        }
        let dash = str_to_chars("- ");
        let mut m: usize = 0;
        while m < olines.len()
            invariant
                m <= olines@.len(),
                vviews(olines@) == olv,
                dash@ == "- "@,
                out@.len() == m,
                forall|t: int|
                    0 <= t < m ==> (#[trigger] out@[t])@ == pre@ + (if at(olv[t], 0, "- "@) {
                        olv[t].skip("- "@.len() as int)
                    } else {
                        olv[t]
                    }),
            decreases olines@.len() - m,
        {
            let ghost m0 = m as int;
            proof {
                assert(olv[m0] == olines@[m0]@);
            }
            let mut nl = seg_vec(&pre, 0, pre.len());
            assert(nl@ =~= pre@);
            if at_x(&olines[m], 0, &dash) {
                proof {
                    reveal_strlit("- ");
                }
                crate::text::push_seg(&mut nl, &olines[m], 2, olines[m].len());
                proof {
                    assert(nl@ =~= pre@ + olv[m0].skip("- "@.len() as int));
                }
            } else {
                push_all(&mut nl, &olines[m]);
                assert(nl@ =~= pre@ + olv[m0]);
            }
            out.push(nl);
            m += 1;
        }
        proof {
            lemma_prefix_lines_shape(olv, pre@);
            assert forall|t: int| 0 <= t < vviews(out@).len() implies vviews(out@)[t] == splice(
                lsv,
                i0,
                index@,
            )[t] by {
                assert(vviews(out@)[t] == out@[t]@);
            }
            assert(vviews(out@) =~= splice(lsv, i0, index@));
        }
    }
    out
}

/// The shape of indented output lines.
proof fn lemma_indent_lines_shape(ols: Seq<Seq<char>>, ind: Seq<char>)
    ensures
        indent_lines(ols, ind, 0).len() == ols.len(),
        forall|t: int| 0 <= t < ols.len() ==> indent_lines(ols, ind, 0)[t] == ind + ols[t],
{
    lemma_indent_lines_from(ols, ind, 0);
}

/// The shape of indented output lines from `k` on.
proof fn lemma_indent_lines_from(ols: Seq<Seq<char>>, ind: Seq<char>, k: int)
    requires
        0 <= k <= ols.len(),
    ensures
        indent_lines(ols, ind, k).len() == ols.len() - k,
        forall|t: int|
            k <= t < ols.len() ==> indent_lines(ols, ind, k)[t - k] == ind + ols[t],
    decreases ols.len() - k,
{
    if k < ols.len() {
        lemma_indent_lines_from(ols, ind, k + 1);
    }
}

/// The shape of re-prefixed output lines.
proof fn lemma_prefix_lines_shape(ols: Seq<Seq<char>>, pre: Seq<char>)
    ensures
        prefix_lines(ols, pre, 0).len() == ols.len(),
        forall|t: int|
            0 <= t < ols.len() ==> prefix_lines(ols, pre, 0)[t] == pre + (if at(ols[t], 0, "- "@) {
                ols[t].skip("- "@.len() as int)
            } else {
                ols[t]
            }),
{
    lemma_prefix_lines_from(ols, pre, 0);
}

/// The shape of re-prefixed output lines from `k` on.
proof fn lemma_prefix_lines_from(ols: Seq<Seq<char>>, pre: Seq<char>, k: int)
    requires
        0 <= k <= ols.len(),
    ensures
        prefix_lines(ols, pre, k).len() == ols.len() - k,
        forall|t: int|
            k <= t < ols.len() ==> prefix_lines(ols, pre, k)[t - k] == pre + (if at(
                ols[t],
                0,
                "- "@,
            ) {
                ols[t].skip("- "@.len() as int)
            } else {
                ols[t]
            }),
    decreases ols.len() - k,
{
    if k < ols.len() {
        lemma_prefix_lines_from(ols, pre, k + 1);
    }
}

/// Executes every query directive of the text in place: exactly
/// `process_queries_spec`.
pub fn process_queries_with_options(content: &str, index: &Vec<Page>) -> (r: String)
    ensures
        r@ == process_queries_spec(content@, index@),
{
    let cv = str_to_chars(content);
    let mut ls = split_lines_x(&cv);
    if cv.len() == 0 {
        ls = Vec::new();
    } else if cv[cv.len() - 1] == '\n' {
        let _ = ls.pop();
        proof {
            crate::text::lemma_split_join(cv@);
            assert(vviews(ls@) =~= split_lines(cv@).drop_last());
        }
    }
    proof {
        assert(vviews(ls@) =~= rust_lines(content@));
    }
    let ghost lsv = rust_lines(content@);
    let mut out: Vec<Vec<char>> = Vec::new();
    let mut i: usize = 0;
    proof {
        assert(vviews(out@) =~= Seq::<Seq<char>>::empty());
    }
    while i < ls.len()
        invariant
            i <= ls@.len(),
            vviews(ls@) == lsv,
            pq_rec(lsv, 0, index@, Seq::empty()) == pq_rec(lsv, i as int, index@, vviews(out@)),
        decreases ls@.len() - i,
    {
        let ghost i0 = i as int;
        proof {
            assert(lsv[i0] == ls@[i0]@);
        }
        let is_q = match query_pos_x(&ls[i]) {
            Some(_) => true,
            None => false,
        };
        if is_q {
            proof {
                assert(pq_rec(lsv, i0, index@, vviews(out@)) == pq_rec(
                    lsv,
                    i0 + 1,
                    index@,
                    vviews(out@) + splice(lsv, i0, index@),
                ));
            }
            let spliced = splice_x(&ls, i, index);
            let ghost before = vviews(out@);
            let ghost n0 = out@.len();
            let mut t: usize = 0;
            while t < spliced.len()
                invariant
                    t <= spliced@.len(),
                    out@.len() == n0 + t,
                    n0 == before.len(),
                    forall|m: int| 0 <= m < n0 ==> (#[trigger] out@[m])@ == before[m],
                    forall|m: int|
                        n0 <= m < n0 + t ==> (#[trigger] out@[m])@ == vviews(spliced@)[m - n0],
                decreases spliced@.len() - t,
            {
                let ghost t0 = t as int;
                let copied = seg_vec(&spliced[t], 0, spliced[t].len());
                assert(copied@ =~= spliced@[t0]@);
                assert(vviews(spliced@)[t0] == spliced@[t0]@);
                out.push(copied);
                t += 1;
            }
            proof {
                assert forall|m: int| 0 <= m < out@.len() implies #[trigger] vviews(out@)[m] == (
                before + vviews(spliced@))[m] by {
                    assert(vviews(out@)[m] == out@[m]@);
                }
                assert(vviews(out@) =~= before + vviews(spliced@));
            }
            i += 1;
        } else {
            proof {
                assert(pq_rec(lsv, i0, index@, vviews(out@)) == pq_rec(
                    lsv,
                    i0 + 1,
                    index@,
                    vviews(out@).push(lsv[i0]),
                ));
            }
            let ghost before = vviews(out@);
            let copied = seg_vec(&ls[i], 0, ls[i].len());
            assert(copied@ =~= lsv[i0]);
            out.push(copied);
            proof {
                assert(vviews(out@) =~= before.push(lsv[i0]));
            }
            i += 1;
        }
    }
    let joined = join_lines_x(&out);
    chars_to_string(&joined)
}

/// The whole transform pipeline: the ordered stages each document's text
/// runs through, in order.
pub open spec fn transform_spec(content: Seq<char>, index: Seq<Page>) -> Seq<char> {
    let s1 = map_lines(LineRule::SystemProps, content);
    let s2 = map_lines(LineRule::Logbook, s1);
    let s3 = process_queries_spec(s2, index);
    let s4 = map_lines(LineRule::UserProps, s3);
    let s5 = rewrite(Rule::ImageSize, s4);
    let s6 = map_lines(LineRule::EmptyBullet, s5);
    let s7 = crate::tables::fix_tables_spec(s6);
    let s8 = rewrite(Rule::Dollar, s7);
    let s9 = rewrite(Rule::Embed, s8);
    let s10 = rewrite(Rule::MdLink, s9);
    let s11 = crate::links::rewrite_links_from(index, s10, 0);
    let s12 = rewrite(Rule::BlockEmbed, s11);
    let s13 = rewrite(Rule::BlockRef, s12);
    let s14 = rewrite(Rule::Youtube, s13);
    let s15 = rewrite(Rule::Video, s14);
    let s16 = rewrite(Rule::Pdf, s15);
    let s17 = rewrite(Rule::ImagePdf, s16);
    let s18 = rewrite(Rule::Renderer, s17);
    let s19 = crate::hiccup::convert_hiccup_spec(s18);
    let s20 = rewrite(Rule::Cloze, s19);
    let s21 = map_lines(LineRule::Tasks, s20);
    let s22 = rewrite(Rule::PriorityA, s21);
    let s23 = rewrite(Rule::PriorityB, s22);
    let s24 = rewrite(Rule::PriorityC, s23);
    let s25 = rewrite(Rule::Scheduled, s24);
    rewrite(Rule::Deadline, s25)
}

/// Runs a document's text through the whole pipeline: exactly
/// `transform_spec`.
pub fn transform(content: &str, page_index: &Vec<Page>) -> (r: String)
    ensures
        r@ == transform_spec(content@, page_index@),
{
    let cv = str_to_chars(content);
    let v1 = apply_line_rule(LineRule::SystemProps, &cv);
    let v2 = apply_line_rule(LineRule::Logbook, &v1);
    let s2 = chars_to_string(&v2);
    let s3 = process_queries_with_options(s2.as_str(), page_index);
    let v3 = str_to_chars(s3.as_str());
    let v4 = apply_line_rule(LineRule::UserProps, &v3);
    let v5 = apply_rule(Rule::ImageSize, &v4);
    let v6 = apply_line_rule(LineRule::EmptyBullet, &v5);
    let s6 = chars_to_string(&v6);
    let s7 = crate::tables::fix_tables(s6.as_str());
    let v7 = str_to_chars(s7.as_str());
    let v8 = apply_rule(Rule::Dollar, &v7);
    let v9 = apply_rule(Rule::Embed, &v8);
    let v10 = apply_rule(Rule::MdLink, &v9);
    let v11 = crate::links::apply_links(page_index, &v10);
    let v12 = apply_rule(Rule::BlockEmbed, &v11);
    let v13 = apply_rule(Rule::BlockRef, &v12);
    let v14 = apply_rule(Rule::Youtube, &v13);
    let v15 = apply_rule(Rule::Video, &v14);
    let v16 = apply_rule(Rule::Pdf, &v15);
    let v17 = apply_rule(Rule::ImagePdf, &v16);
    let v18 = apply_rule(Rule::Renderer, &v17);
    let s18 = chars_to_string(&v18);
    let s19 = crate::hiccup::convert_hiccup_to_markdown(s18.as_str());
    let v19 = str_to_chars(s19.as_str());
    let v20 = apply_rule(Rule::Cloze, &v19);
    let v21 = apply_line_rule(LineRule::Tasks, &v20);
    let v22 = apply_rule(Rule::PriorityA, &v21);
    let v23 = apply_rule(Rule::PriorityB, &v22);
    let v24 = apply_rule(Rule::PriorityC, &v23);
    let v25 = apply_rule(Rule::Scheduled, &v24);
    let v26 = apply_rule(Rule::Deadline, &v25);
    chars_to_string(&v26)
}

} // verus!
