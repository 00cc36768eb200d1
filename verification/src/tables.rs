//! Table repair: a bulleted table block gets a correct separator row with
//! exactly the header's column count, and separator-shaped rows with the
//! wrong count are dropped as corrupt.

use vstd::prelude::*;
use crate::text::{at, count_char, count_char_from, count_char_from_x, find_from, find_from_x, join_lines, join_lines_x, push_str_chars, seg_vec, skip_ws_from, skip_ws_from_x, split_lines, split_lines_x, str_to_chars, trim_seq, trim_vec, vviews};

verus! {

/// The table part of a block's first line: trimmed, leading dashes and
/// the whitespace after them dropped.
pub open spec fn after_bullet(l: Seq<char>) -> Seq<char> {
    let t = trim_seq(l);
    let d = crate::page::dash_run(t, 0);
    let t2 = t.skip(if 0 <= d <= t.len() {
        d
    } else {
        0
    });
    let w = skip_ws_from(t2, 0);
    t2.skip(if 0 <= w <= t2.len() {
        w
    } else {
        0
    })
}

/// A line that opens a table block: its bullet-stripped content starts
/// with a pipe and holds at least two.
pub open spec fn is_table_start(l: Seq<char>) -> bool {
    let c = after_bullet(l);
    c.len() > 0 && c[0] == '|' && count_char(c, '|') >= 2
}

/// A continuation line of a table block: its trimmed content starts with
/// a pipe.
pub open spec fn is_cont(l: Seq<char>) -> bool {
    let t = trim_seq(l);
    t.len() > 0 && t[0] == '|'
}

/// A character a separator row may hold.
pub open spec fn sep_char(x: char) -> bool {
    x == '|' || x == '-' || x == ':' || x == ' '
}

/// A markdown separator row: pipes at both ends, only pipes, dashes,
/// colons and spaces inside, at least one dash.
pub open spec fn is_sep_row(c: Seq<char>) -> bool {
    let t = trim_seq(c);
    t.len() > 0 && t[0] == '|' && t[t.len() - 1] == '|' && (forall|k: int|
        0 <= k < t.len() ==> sep_char(#[trigger] t[k])) && count_char(t, '-') > 0
}

/// End of the run of continuation lines starting at `j`.
pub open spec fn cont_end(ls: Seq<Seq<char>>, j: int) -> int
    decreases ls.len() - j,
{
    if j < 0 || j >= ls.len() {
        ls.len() as int
    } else if is_cont(ls[j]) {
        cont_end(ls, j + 1)
    } else {
        j
    }
}

/// The table content of line `k` of a block: bullet-stripped for the
/// header line, trimmed for the others.
pub open spec fn block_content(lines: Seq<Seq<char>>, k: int) -> Seq<char> {
    if k == 0 && 0 < lines.len() {
        after_bullet(lines[0])
    } else if 0 <= k < lines.len() {
        trim_seq(lines[k])
    } else {
        Seq::empty()
    }
}

/// The header's column count: its pipe count less one, never negative.
pub open spec fn header_cols(lines: Seq<Seq<char>>) -> int {
    let n = count_char(block_content(lines, 0), '|') as int;
    if n == 0 {
        0
    } else {
        n - 1
    }
}

/// Some line of the block is a separator with the header's column count.
pub open spec fn has_valid_sep(lines: Seq<Seq<char>>, k: int) -> bool
    decreases lines.len() - k,
{
    if k < 0 || k >= lines.len() {
        false
    } else {
        (is_sep_row(block_content(lines, k)) && sep_cols(block_content(lines, k)) == header_cols(
            lines,
        )) || has_valid_sep(lines, k + 1)
    }
}

/// A row's column count: its pipe count less one, never negative.
pub open spec fn sep_cols(c: Seq<char>) -> int {
    let n = count_char(c, '|') as int;
    if n == 0 {
        0
    } else {
        n - 1
    }
}

/// `n` dash cells.
pub open spec fn dash_cells(n: int) -> Seq<char>
    decreases n,
{
    if n <= 0 {
        Seq::empty()
    } else {
        "---|"@ + dash_cells(n - 1)
    }
}

/// The prefix of a line up to its first pipe.
pub open spec fn line_prefix(l: Seq<char>) -> Seq<char> {
    let p = find_from(l, '|', 0);
    if 0 <= p < l.len() {
        l.take(p)
    } else {
        Seq::empty()
    }
}

/// Last position where `pat` occurs at or before `i`, or `-1`.
pub open spec fn rfind_at(s: Seq<char>, pat: Seq<char>, i: int) -> int
    decreases i + 1,
{
    if i < 0 {
        -1
    } else if at(s, i, pat) {
        i
    } else {
        rfind_at(s, pat, i - 1)
    }
}

/// A found position is a real occurrence.
pub proof fn lemma_rfind_at(s: Seq<char>, pat: Seq<char>, i: int)
    ensures
        rfind_at(s, pat, i) == -1 || at(s, rfind_at(s, pat, i), pat),
    decreases i + 1,
{
    if i >= 0 && !at(s, i, pat) {
        lemma_rfind_at(s, pat, i - 1);
    }
}

/// The prefix a continuation line gets: the last bullet marker replaced
/// by spaces, or a lone trailing dash by a space.
pub open spec fn cont_prefix(p: Seq<char>) -> Seq<char> {
    let r = rfind_at(p, "- "@, p.len() as int);
    if 0 <= r && r + 2 <= p.len() {
        p.take(r) + "  "@ + p.skip(r + 2)
    } else if p.len() > 0 && p[p.len() - 1] == '-' {
        p.take(p.len() - 1) + " "@
    } else {
        p
    }
}

/// The synthetic separator inserted after a header with `n` columns.
pub open spec fn synth_sep(lines: Seq<Seq<char>>) -> Seq<char> {
    cont_prefix(line_prefix(lines[0])) + "|"@ + dash_cells(header_cols(lines))
}

/// The rows of the block after the header, with wrong-count separator
/// rows dropped.
pub open spec fn kept_rows(lines: Seq<Seq<char>>, k: int) -> Seq<Seq<char>>
    decreases lines.len() - k,
{
    if k < 1 || k >= lines.len() {
        Seq::empty()
    } else {
        (if is_sep_row(block_content(lines, k)) && sep_cols(block_content(lines, k))
            != header_cols(lines) {
            Seq::empty()
        } else {
            seq![lines[k]]
        }) + kept_rows(lines, k + 1)
    }
}

/// One table block repaired: the header, a synthetic separator when no
/// valid one exists, then the kept rows.
pub open spec fn fix_block(lines: Seq<Seq<char>>) -> Seq<Seq<char>> {
    seq![lines[0]] + (if !has_valid_sep(lines, 0) && lines.len() > 1 && header_cols(lines) > 0 {
        seq![synth_sep(lines)]
    } else {
        Seq::empty()
    }) + kept_rows(lines, 1)
}

/// The lines of the text with every table block repaired.
pub open spec fn fix_lines(ls: Seq<Seq<char>>, i: int) -> Seq<Seq<char>>
    decreases ls.len() - i,
{
    if i < 0 || i >= ls.len() {
        Seq::empty()
    } else if is_table_start(ls[i]) {
        let j0 = cont_end(ls, i + 1);
        let j = if j0 < i + 1 {
            i + 1
        } else if j0 > ls.len() {
            ls.len() as int
        } else {
            j0
        };
        fix_block(ls.subrange(i, j)) + fix_lines(ls, j)
    } else {
        seq![ls[i]] + fix_lines(ls, i + 1)
    }
}

/// The whole text with every table block repaired.
pub open spec fn fix_tables_spec(s: Seq<char>) -> Seq<char> {
    join_lines(fix_lines(split_lines(s), 0))
}

/// Executable bullet stripping matching `after_bullet`.
fn after_bullet_x(l: &Vec<char>) -> (r: Vec<char>)
    ensures
        r@ == after_bullet(l@),
{
    let t = trim_vec(l);
    let d = crate::page::dash_run_x(&t, 0);
    let t2 = seg_vec(&t, d, t.len());
    assert(t2@ =~= trim_seq(l@).skip(crate::page::dash_run(trim_seq(l@), 0)));
    let w = skip_ws_from_x(&t2, 0);
    let r = seg_vec(&t2, w, t2.len());
    assert(r@ =~= t2@.skip(skip_ws_from(t2@, 0)));
    r
}

/// Executable table-start test matching `is_table_start`.
fn is_table_start_x(l: &Vec<char>) -> (r: bool)
    ensures
        r == is_table_start(l@),
{
    let c = after_bullet_x(l);
    c.len() > 0 && c[0] == '|' && count_char_from_x(&c, '|', 0) >= 2
}

/// Executable continuation test matching `is_cont`.
fn is_cont_x(l: &Vec<char>) -> (r: bool)
    ensures
        r == is_cont(l@),
{
    let t = trim_vec(l);
    t.len() > 0 && t[0] == '|'
}

/// Executable separator test matching `is_sep_row`.
pub fn is_separator_row(c: &Vec<char>) -> (r: bool)
    ensures
        r == is_sep_row(c@),
{
    let t = trim_vec(c);
    if t.len() == 0 || t[0] != '|' || t[t.len() - 1] != '|' {
        return false;
    }
    let mut k: usize = 0;
    while k < t.len()
        invariant
            k <= t.len(),
            t@ == trim_seq(c@),
            forall|m: int| 0 <= m < k ==> sep_char(#[trigger] t@[m]),
        decreases t.len() - k,
    {
        let ch = t[k];
        if !(ch == '|' || ch == '-' || ch == ':' || ch == ' ') {
            assert(!sep_char(t@[k as int]));
            assert(!is_sep_row(c@));
            return false;
        }
        k += 1;
    }
    count_char_from_x(&t, '-', 0) > 0
}

/// Executable column count matching `sep_cols`.
fn sep_cols_x(c: &Vec<char>) -> (r: usize)
    ensures
        r as int == sep_cols(c@),
{
    let n = count_char_from_x(c, '|', 0);
    if n == 0 {
        0
    } else {
        n - 1
    }
}

/// Executable last-occurrence search matching `rfind_at`.
fn rfind_at_x(p: &Vec<char>, pat: &Vec<char>, i: usize) -> (r: Option<usize>)
    requires
        i <= p.len() + 1,
    ensures
        match r {
            Some(x) => rfind_at(p@, pat@, i as int) == x as int,
            None => rfind_at(p@, pat@, i as int) == -1,
        },
    decreases i,
{
    if i == 0 {
        if crate::text::at_x(p, 0, pat) {
            assert(rfind_at(p@, pat@, 0) == 0);
            Some(0)
        } else {
            assert(rfind_at(p@, pat@, 0) == rfind_at(p@, pat@, -1));
            None
        }
    } else {
        if crate::text::at_x(p, i, pat) {
            assert(rfind_at(p@, pat@, i as int) == i as int);
            Some(i)
        } else {
            assert(rfind_at(p@, pat@, i as int) == rfind_at(p@, pat@, i - 1));
            rfind_at_x(p, pat, i - 1)
        }
    }
}

/// Executable continuation prefix matching `cont_prefix`.
fn cont_prefix_x(p: &Vec<char>) -> (r: Vec<char>)
    ensures
        r@ == cont_prefix(p@),
{
    let pat = str_to_chars("- ");
    match rfind_at_x(p, &pat, p.len()) {
        Some(rp) => {
            proof {
                lemma_rfind_at(p@, "- "@, p@.len() as int);
                assert(at(p@, rp as int, "- "@));
                reveal_strlit("- ");
            }
            let mut out = seg_vec(p, 0, rp);
            push_str_chars(&mut out, "  ");
            crate::text::push_seg(&mut out, p, rp + 2, p.len());
            assert(out@ =~= p@.take(rp as int) + "  "@ + p@.skip(rp + 2));
            out
        },
        None => {
            if p.len() > 0 && p[p.len() - 1] == '-' {
                let mut out = seg_vec(p, 0, p.len() - 1);
                push_str_chars(&mut out, " ");
                assert(out@ =~= p@.take(p@.len() - 1) + " "@);
                out
            } else {
                let out = seg_vec(p, 0, p.len());
                assert(out@ =~= p@);
                out
            }
        },
    }
}

/// Executable block repair matching `fix_block`.
fn fix_block_x(lines: &Vec<Vec<char>>) -> (r: Vec<Vec<char>>)
    requires
        lines.len() >= 1,
    ensures
        vviews(r@) == fix_block(vviews(lines@)),
{
    let ghost lv = vviews(lines@);
    let header = after_bullet_x(&lines[0]);
    proof {
        assert(lv[0] == lines@[0]@);
        assert(header@ == block_content(lv, 0));
    }
    let hn = count_char_from_x(&header, '|', 0);
    let hcols: usize = if hn == 0 {
        0
    } else {
        hn - 1
    };
    assert(hcols as int == header_cols(lv));

    let mut valid = false;
    let mut k: usize = 0;
    while k < lines.len()
        invariant
            k <= lines@.len(),
            lv == vviews(lines@),
            hcols as int == header_cols(lv),
            valid ==> has_valid_sep(lv, 0),
            !valid ==> has_valid_sep(lv, 0) == has_valid_sep(lv, k as int),
        decreases lines@.len() - k,
    {
        let ghost k0 = k as int;
        let content = if k == 0 {
            after_bullet_x(&lines[0])
        } else {
            trim_vec(&lines[k])
        };
        proof {
            assert(lv[k0] == lines@[k0]@);
            assert(content@ == block_content(lv, k0));
            assert(has_valid_sep(lv, k0) == ((is_sep_row(block_content(lv, k0)) && sep_cols(
                block_content(lv, k0),
            ) == header_cols(lv)) || has_valid_sep(lv, k0 + 1)));
        }
        if is_separator_row(&content) && sep_cols_x(&content) == hcols {
            valid = true;
        }
        k += 1;
    }
    proof {
        assert(!has_valid_sep(lv, lv.len() as int));
        assert(valid == has_valid_sep(lv, 0));
    }

    let mut out: Vec<Vec<char>> = Vec::new();
    out.push(seg_vec(&lines[0], 0, lines[0].len()));
    proof {
        assert(out@[0]@ =~= lv[0]);
    }
    let mut synth = false;
    if !valid && lines.len() > 1 && hcols > 0 {
        let prefix = cont_prefix_x(&line_prefix_x(&lines[0]));
        let mut sep = prefix;
        push_str_chars(&mut sep, "|");
        let mut n: usize = 0;
        let ghost sep0 = sep@;
        while n < hcols
            invariant
                n <= hcols,
                sep@ =~= sep0 + dash_prefix(n as int),
            decreases hcols - n,
        {
            push_str_chars(&mut sep, "---|");
            proof {
                lemma_dash_prefix(n as int);
            }
            n += 1;
        }
        proof {
            lemma_dash_prefix_all(hcols as int);
            assert(sep@ =~= cont_prefix(line_prefix(lv[0])) + "|"@ + dash_cells(hcols as int));
            assert(sep@ =~= synth_sep(lv));
        }
        out.push(sep);
        synth = true;
        proof {
            assert(out@[1]@ =~= synth_sep(lv));
        }
    }
    let ghost head_part = vviews(out@);
    proof {
        if synth {
            assert(head_part =~= seq![lv[0]] + seq![synth_sep(lv)]);
        } else {
            assert(head_part =~= seq![lv[0]]);
        }
    }
    let mut k: usize = 1;
    while k < lines.len()
        invariant
            1 <= k <= lines@.len(),
            lv == vviews(lines@),
            hcols as int == header_cols(lv),
            vviews(out@) =~= head_part + kept_prefix(lv, k as int),
        decreases lines@.len() - k,
    {
        let ghost k0 = k as int;
        let content = trim_vec(&lines[k]);
        proof {
            assert(lv[k0] == lines@[k0]@);
            assert(content@ == block_content(lv, k0));
        }
        let drop_row = is_separator_row(&content) && sep_cols_x(&content) != hcols;
        let ghost before = vviews(out@);
        if !drop_row {
            let copied = seg_vec(&lines[k], 0, lines[k].len());
            assert(copied@ =~= lv[k0]);
            out.push(copied);
            proof {
                assert(vviews(out@) =~= before.push(lv[k0]));
            }
        }
        proof {
            lemma_kept_prefix(lv, k0, hcols as int);
        }
        k += 1;
    }
    proof {
        lemma_kept_prefix_all(lv);
        assert(vviews(out@) =~= fix_block(lv));
    }
    out
}

/// The first `k - 1` kept rows.
pub open spec fn kept_prefix(lines: Seq<Seq<char>>, k: int) -> Seq<Seq<char>>
    decreases k,
{
    if k <= 1 {
        Seq::empty()
    } else if k - 1 < lines.len() && is_sep_row(block_content(lines, k - 1)) && sep_cols(
        block_content(lines, k - 1),
    ) != header_cols(lines) {
        kept_prefix(lines, k - 1)
    } else if k - 1 < lines.len() {
        kept_prefix(lines, k - 1).push(lines[k - 1])
    } else {
        kept_prefix(lines, k - 1)
    }
}

/// One more row extends the kept prefix as the row's fate dictates.
proof fn lemma_kept_prefix(lines: Seq<Seq<char>>, k: int, hc: int)
    requires
        1 <= k < lines.len(),
        hc == header_cols(lines),
    ensures
        (is_sep_row(block_content(lines, k)) && sep_cols(block_content(lines, k)) != hc)
            ==> kept_prefix(lines, k + 1) == kept_prefix(lines, k),
        !(is_sep_row(block_content(lines, k)) && sep_cols(block_content(lines, k)) != hc)
            ==> kept_prefix(lines, k + 1) == kept_prefix(lines, k).push(lines[k]),
{
}

/// The full kept prefix is the kept rows.
proof fn lemma_kept_prefix_all(lines: Seq<Seq<char>>)
    requires
        lines.len() >= 1,
    ensures
        kept_prefix(lines, lines.len() as int) =~= kept_rows(lines, 1),
{
    lemma_kept_agree(lines, lines.len() as int);
}

/// Prefix and suffix views of the kept rows agree.
proof fn lemma_kept_agree(lines: Seq<Seq<char>>, k: int)
    requires
        1 <= k <= lines.len(),
    ensures
        kept_prefix(lines, k) + kept_rows(lines, k) =~= kept_rows(lines, 1),
    decreases k,
{
    if k > 1 {
        lemma_kept_agree(lines, k - 1);
        assert(kept_rows(lines, k - 1) =~= (if is_sep_row(block_content(lines, k - 1)) && sep_cols(
            block_content(lines, k - 1),
        ) != header_cols(lines) {
            Seq::<Seq<char>>::empty()
        } else {
            seq![lines[k - 1]]
        }) + kept_rows(lines, k));
    }
}

/// The first `n` dash cells.
pub open spec fn dash_prefix(n: int) -> Seq<char>
    decreases n,
{
    if n <= 0 {
        Seq::empty()
    } else {
        dash_prefix(n - 1) + "---|"@
    }
}

/// One more dash cell extends the prefix.
proof fn lemma_dash_prefix(n: int)
    requires
        n >= 0,
    ensures
        dash_prefix(n + 1) =~= dash_prefix(n) + "---|"@,
{
}

/// Built from either end, the dash cells agree.
proof fn lemma_dash_prefix_all(n: int)
    requires
        n >= 0,
    ensures
        dash_prefix(n) =~= dash_cells(n),
    decreases n,
{
    if n > 0 {
        lemma_dash_prefix_all(n - 1);
        lemma_dash_swap(n - 1);
    }
}

/// A dash cell commutes over the built run.
proof fn lemma_dash_swap(n: int)
    requires
        n >= 0,
    ensures
        dash_cells(n) + "---|"@ =~= "---|"@ + dash_cells(n),
    decreases n,
{
    if n > 0 {
        lemma_dash_swap(n - 1);
        assert(dash_cells(n) + "---|"@ =~= "---|"@ + (dash_cells(n - 1) + "---|"@));
    }
}

/// Executable line prefix matching `line_prefix`.
fn line_prefix_x(l: &Vec<char>) -> (r: Vec<char>)
    ensures
        r@ == line_prefix(l@),
{
    let p = find_from_x(l, '|', 0);
    if p < l.len() {
        let r = seg_vec(l, 0, p);
        assert(r@ =~= l@.take(p as int));
        r
    } else {
        let r: Vec<char> = Vec::new();
        assert(r@ =~= Seq::<char>::empty());
        r
    }
}

/// Executable continuation scan matching `cont_end`.
fn cont_end_x(ls: &Vec<Vec<char>>, j: usize) -> (r: usize)
    requires
        j <= ls.len(),
    ensures
        r as int == cont_end(vviews(ls@), j as int),
        j <= r <= ls.len(),
    decreases ls.len() - j,
{
    if j >= ls.len() {
        ls.len()
    } else {
        let c = is_cont_x(&ls[j]);
        proof {
            assert(vviews(ls@)[j as int] == ls@[j as int]@);
        }
        if c {
            cont_end_x(ls, j + 1)
        } else {
            j
        }
    }
}

/// Repairs every table block of the text: exactly `fix_tables_spec`.
pub fn fix_tables(content: &str) -> (r: String)
    ensures
        r@ == fix_tables_spec(content@),
{
    let cv = str_to_chars(content);
    let ls = split_lines_x(&cv);
    let ghost lsv = split_lines(cv@);
    let mut out: Vec<Vec<char>> = Vec::new();
    let mut i: usize = 0;
    assert(vviews(out@) =~= Seq::<Seq<char>>::empty());
    while i < ls.len()
        invariant
            i <= ls@.len(),
            vviews(ls@) == lsv,
            fix_lines(lsv, 0) =~= vviews(out@) + fix_lines(lsv, i as int),
        decreases ls@.len() - i,
    {
        let ghost i0 = i as int;
        proof {
            assert(lsv[i0] == ls@[i0]@);
        }
        if is_table_start_x(&ls[i]) {
            let j = cont_end_x(&ls, i + 1);
            proof {
                assert(cont_end(lsv, i0 + 1) == j as int);
            }
            let mut block: Vec<Vec<char>> = Vec::new();
            let mut m: usize = i;
            while m < j
                invariant
                    i <= m <= j <= ls@.len(),
                    vviews(ls@) == lsv,
                    block@.len() == m - i,
                    forall|k: int| 0 <= k < m - i ==> (#[trigger] block@[k])@ == lsv[i + k],
                decreases j - m,
            {
                block.push(seg_vec(&ls[m], 0, ls[m].len()));
                proof {
                    assert(ls@[m as int]@ == lsv[m as int]);
                    assert(block@[m - i]@ =~= lsv[m as int]);
                }
                m += 1;
            }
            proof {
                assert(vviews(block@) =~= lsv.subrange(i0, j as int));
            }
            let fixed = fix_block_x(&block);
            let ghost before = vviews(out@);
            let ghost n0 = out@.len();
            let mut t: usize = 0;
            while t < fixed.len()
                invariant
                    t <= fixed@.len(),
                    out@.len() == n0 + t,
                    n0 == before.len(),
                    forall|k: int| 0 <= k < n0 ==> (#[trigger] out@[k])@ == before[k],
                    forall|k: int|
                        n0 <= k < n0 + t ==> (#[trigger] out@[k])@ == vviews(fixed@)[k - n0],
                decreases fixed@.len() - t,
            {
                let ghost t0 = t as int;
                let copied = seg_vec(&fixed[t], 0, fixed[t].len());
                assert(copied@ =~= fixed@[t0]@);
                assert(vviews(fixed@)[t0] == fixed@[t0]@);
                out.push(copied);
                t += 1;
            }
            proof {
                assert forall|k: int| 0 <= k < out@.len() implies #[trigger] vviews(out@)[k] == (
                before + vviews(fixed@))[k] by {
                    assert(vviews(out@)[k] == out@[k]@);
                }
                assert(vviews(out@) =~= before + vviews(fixed@));
                assert(fix_lines(lsv, i0) =~= fix_block(lsv.subrange(i0, j as int)) + fix_lines(
                    lsv,
                    j as int,
                ));
            }
            i = j;
        } else {
            proof {
                assert(fix_lines(lsv, i0) =~= seq![lsv[i0]] + fix_lines(lsv, i0 + 1));
            }
            let ghost before = vviews(out@);
            let copied = seg_vec(&ls[i], 0, ls[i].len());
            assert(copied@ =~= lsv[i0]);
            out.push(copied);
            proof {
                assert(vviews(out@) =~= before.push(lsv[i0]));
            }
            i += 1;
        }
    }
    proof {
        assert(fix_lines(lsv, lsv.len() as int) =~= Seq::<Seq<char>>::empty());
        assert(vviews(out@) =~= vviews(out@) + Seq::<Seq<char>>::empty());
        assert(vviews(out@) =~= fix_lines(lsv, 0));
    }
    let joined = join_lines_x(&out);
    crate::text::chars_to_string(&joined)
}


/// The pipe count of concatenated text splits over the parts.
proof fn lemma_count_concat(a: Seq<char>, b: Seq<char>, c: char)
    ensures
        count_char_from(a + b, c, 0) == count_char_from(a, c, 0) + count_char_from(b, c, 0),
    decreases a.len(),
{
    if a.len() == 0 {
        assert(a + b =~= b);
    } else {
        lemma_count_concat(a.drop_first(), b, c);
        assert((a + b).drop_first() =~= a.drop_first() + b);
        lemma_count_step(a + b, c);
        lemma_count_step(a, c);
    }
}

/// One scan step of the character count.
proof fn lemma_count_step(s: Seq<char>, c: char)
    requires
        s.len() > 0,
    ensures
        count_char_from(s, c, 0) == (if s[0] == c {
            1int
        } else {
            0int
        }) + count_char_from(s.drop_first(), c, 0),
    decreases s.len(),
{
    lemma_count_shift(s, c, 1);
}

/// Counting from position one equals counting the dropped sequence.
proof fn lemma_count_shift(s: Seq<char>, c: char, i: int)
    requires
        1 <= i <= s.len(),
    ensures
        count_char_from(s, c, i) == count_char_from(s.drop_first(), c, i - 1),
    decreases s.len() - i,
{
    if i < s.len() {
        lemma_count_shift(s, c, i + 1);
        assert(s.drop_first()[i - 1] == s[i]);
    }
}

/// A run of `n` dash cells holds exactly `n` pipes.
pub proof fn lemma_dash_cells_pipes(n: int)
    requires
        n >= 0,
    ensures
        count_char_from(dash_cells(n), '|', 0) == n,
    decreases n,
{
    if n == 0 {
    } else {
        lemma_dash_cells_pipes(n - 1);
        lemma_count_concat("---|"@, dash_cells(n - 1), '|');
        assert(count_char_from("---|"@, '|', 0) == 1) by {
            reveal_strlit("---|");
            assert(count_char_from("---|"@, '|', 4) == 0);
            assert(count_char_from("---|"@, '|', 3) == 1);
            assert(count_char_from("---|"@, '|', 2) == 1);
            assert(count_char_from("---|"@, '|', 1) == 1);
        }
    }
}

/// A kept row is a row of the block that is not a wrong-count separator.
pub proof fn lemma_kept_rows_clean(lines: Seq<Seq<char>>, k: int, t: int)
    requires
        1 <= k,
        0 <= t < kept_rows(lines, k).len(),
    ensures
        exists|m: int|
            k <= m < lines.len() && kept_rows(lines, k)[t] == lines[m] && !(is_sep_row(
                #[trigger] block_content(lines, m),
            ) && sep_cols(block_content(lines, m)) != header_cols(lines)),
    decreases lines.len() - k,
{
    if k < lines.len() {
        let dropped = is_sep_row(block_content(lines, k)) && sep_cols(block_content(lines, k))
            != header_cols(lines);
        if dropped {
            lemma_kept_rows_clean(lines, k + 1, t);
            assert(kept_rows(lines, k) =~= kept_rows(lines, k + 1));
        } else {
            if t == 0 {
                assert(kept_rows(lines, k)[0] == lines[k]);
            } else {
                lemma_kept_rows_clean(lines, k + 1, t - 1);
                assert(kept_rows(lines, k)[t] == kept_rows(lines, k + 1)[t - 1]);
            }
        }
    }
}

/// A row that stands in the block and is not a wrong-count separator.
pub open spec fn row_clean(lines: Seq<Seq<char>>, row: Seq<char>) -> bool {
    exists|m: int|
        1 <= m < lines.len() && row == lines[m] && !(is_sep_row(
            #[trigger] block_content(lines, m),
        ) && sep_cols(block_content(lines, m)) != header_cols(lines))
}

/// Table repair: when the block has no valid separator, more than one
/// line and a positive header column count, the repaired block starts with
/// the header, then a synthetic separator carrying exactly the header's
/// count of dash cells; and every later row comes from the block and is
/// not a separator-shaped row of the wrong count.
pub proof fn lemma_table_repair(lines: Seq<Seq<char>>)
    requires
        lines.len() > 1,
        !has_valid_sep(lines, 0),
        header_cols(lines) > 0,
    ensures
        fix_block(lines).len() >= 2,
        fix_block(lines)[0] == lines[0],
        fix_block(lines)[1] == synth_sep(lines),
        count_char_from(dash_cells(header_cols(lines)), '|', 0) == header_cols(lines),
        forall|t: int|
            2 <= t < fix_block(lines).len() ==> row_clean(lines, #[trigger] fix_block(lines)[t]),
{
    lemma_dash_cells_pipes(header_cols(lines));
    let fb = fix_block(lines);
    assert(fb =~= seq![lines[0]] + seq![synth_sep(lines)] + kept_rows(lines, 1));
    assert forall|t: int| 2 <= t < fb.len() implies row_clean(lines, #[trigger] fb[t]) by {
        assert(fb[t] == kept_rows(lines, 1)[t - 2]);
        lemma_kept_rows_clean(lines, 1, t - 2);
    }
}

} // verus!
