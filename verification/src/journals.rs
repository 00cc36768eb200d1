//! Journal handling: date-encoded filenames parsed to a date and a
//! display title, the journal frontmatter, and the journal index text.

use vstd::prelude::*;
use crate::text::{chars_to_string, plookup, plookup_x, push_all, push_str_chars, pviews, seg_vec, split_char, split_char_x, str_to_chars, strip_all_prefix_x, strip_all_suffix_x, trim_vec, vviews};
use crate::query::{all_digits, digits_val, seq_le};

verus! {

/// The character of one decimal digit.
pub open spec fn digit_char(n: int) -> char {
    ((48 + n) as u8) as char
}

/// A day number under a hundred written in decimal.
pub open spec fn dec2(d: int) -> Seq<char> {
    if d < 10 {
        seq![digit_char(d)]
    } else {
        seq![digit_char(d / 10), digit_char(d % 10)]
    }
}

/// The name of a month.
pub open spec fn month_name(m: int) -> Seq<char> {
    if m == 1 {
        "January"@
    } else if m == 2 {
        "February"@
    } else if m == 3 {
        "March"@
    } else if m == 4 {
        "April"@
    } else if m == 5 {
        "May"@
    } else if m == 6 {
        "June"@
    } else if m == 7 {
        "July"@
    } else if m == 8 {
        "August"@
    } else if m == 9 {
        "September"@
    } else if m == 10 {
        "October"@
    } else if m == 11 {
        "November"@
    } else {
        "December"@
    }
}

/// A journal filename parsed: four digit year, two digit month and day,
/// separated uniformly by underscores or dashes, month and day in range.
/// Yields the dashed date and the spelled-out title.
pub open spec fn jdate(f: Seq<char>) -> Option<(Seq<char>, Seq<char>)> {
    if f.len() == 10 && all_digits(f, 0, 4) && ((f[4] == '_' && f[7] == '_') || (f[4] == '-'
        && f[7] == '-')) && all_digits(f, 5, 7) && all_digits(f, 8, 10) {
        let m = digits_val(f, 5, 7);
        let d = digits_val(f, 8, 10);
        if 1 <= m <= 12 && 1 <= d <= 31 {
            let date = f.subrange(0, 4) + seq!['-'] + f.subrange(5, 7) + seq!['-'] + f.subrange(
                8,
                10,
            );
            let title = month_name(m) + seq![' '] + dec2(d) + ", "@ + f.subrange(0, 4);
            Some((date, title))
        } else {
            None
        }
    } else {
        None
    }
}

/// Executable month name lookup matching `month_name`.
fn month_name_x(m: u32) -> (r: &'static str)
    requires
        1 <= m <= 12,
    ensures
        r@ == month_name(m as int),
{
    if m == 1 {
        "January"
    } else if m == 2 {
        "February"
    } else if m == 3 {
        "March"
    } else if m == 4 {
        "April"
    } else if m == 5 {
        "May"
    } else if m == 6 {
        "June"
    } else if m == 7 {
        "July"
    } else if m == 8 {
        "August"
    } else if m == 9 {
        "September"
    } else if m == 10 {
        "October"
    } else if m == 11 {
        "November"
    } else {
        "December"
    }
}

/// Parses a journal filename into its dashed date and spelled-out title.
pub fn parse_journal_date(filename: &str) -> (r: Option<(String, String)>)
    ensures
        match r {
            Some(p) => jdate(filename@) == Some((p.0@, p.1@)),
            None => jdate(filename@) is None,
        },
{
    let f = str_to_chars(filename);
    if f.len() != 10 {
        return None;
    }
    let d1 = crate::query::all_digits_x(&f, 0, 4);
    let sep_ok = (f[4] == '_' && f[7] == '_') || (f[4] == '-' && f[7] == '-');
    let d2 = crate::query::all_digits_x(&f, 5, 7);
    let d3 = crate::query::all_digits_x(&f, 8, 10);
    if !(d1 && sep_ok && d2 && d3) {
        return None;
    }
    let m = crate::query::digits_val_x(&f, 5, 7);
    let d = crate::query::digits_val_x(&f, 8, 10);
    if !(1 <= m && m <= 12 && 1 <= d && d <= 31) {
        return None;
    }
    let mut date = seg_vec(&f, 0, 4);
    date.push('-');
    crate::text::push_seg(&mut date, &f, 5, 7);
    date.push('-');
    crate::text::push_seg(&mut date, &f, 8, 10);
    assert(date@ =~= f@.subrange(0, 4) + seq!['-'] + f@.subrange(5, 7) + seq!['-'] + f@.subrange(
        8,
        10,
    ));
    let mut title = str_to_chars(month_name_x(m));
    title.push(' ');
    if d < 10 {
        title.push((48 + (d as u8)) as char);
        proof {
            assert(digit_char(d as int) == (48 + (d as u8)) as char);
        }
    } else {
        title.push((48 + ((d / 10) as u8)) as char);
        title.push((48 + ((d % 10) as u8)) as char);
        proof {
            assert(digit_char(d as int / 10) == (48 + ((d / 10) as u8)) as char);
            assert(digit_char(d as int % 10) == (48 + ((d % 10) as u8)) as char);
        }
    }
    proof {
        assert(title@ =~= month_name(m as int) + seq![' '] + dec2(d as int));
    }
    push_str_chars(&mut title, ", ");
    crate::text::push_seg(&mut title, &f, 0, 4);
    proof {
        assert(title@ =~= month_name(m as int) + seq![' '] + dec2(d as int) + ", "@ + f@.subrange(
            0,
            4,
        ));
    }
    Some((chars_to_string(&date), chars_to_string(&title)))
}

/// Double quotes escaped with a backslash.
pub open spec fn esc_quotes_from(s: Seq<char>, i: int) -> Seq<char>
    decreases s.len() - i,
{
    if i < 0 || i >= s.len() {
        Seq::empty()
    } else {
        (if s[i] == '"' {
            seq!['\\', '"']
        } else {
            seq![s[i]]
        }) + esc_quotes_from(s, i + 1)
    }
}

/// Executable quote escaping matching `esc_quotes_from`.
fn esc_quotes_x(v: &Vec<char>) -> (r: Vec<char>)
    ensures
        r@ == esc_quotes_from(v@, 0),
{
    let mut out: Vec<char> = Vec::new();
    let mut i: usize = 0;
    while i < v.len()
        invariant
            i <= v.len(),
            esc_quotes_from(v@, 0) =~= out@ + esc_quotes_from(v@, i as int),
        decreases v.len() - i,
    {
        let ghost i0 = i as int;
        proof {
            assert(esc_quotes_from(v@, i0) == (if v@[i0] == '"' {
                seq!['\\', '"']
            } else {
                seq![v@[i0]]
            }) + esc_quotes_from(v@, i0 + 1));
        }
        let c = v[i];
        if c == '"' {
            out.push('\\');
            out.push('"');
        } else {
            out.push(c);
        }
        i += 1;
    }
    assert(esc_quotes_from(v@, v@.len() as int) =~= Seq::<char>::empty());
    assert(out@ =~= out@ + Seq::<char>::empty());
    out
}

/// The tag lines of a journal's frontmatter.
pub open spec fn jtag_items(parts: Seq<Seq<char>>, i: int) -> Seq<char>
    decreases parts.len() - i,
{
    if i < 0 || i >= parts.len() {
        Seq::empty()
    } else {
        (if crate::frontmatter::fm_tag_clean(parts[i]).len() > 0 {
            "  - "@ + crate::frontmatter::fm_tag_clean(parts[i]) + "\n"@
        } else {
            Seq::empty()
        }) + jtag_items(parts, i + 1)
    }
}

/// A journal's frontmatter: quoted title, date, and the tag list when the
/// tags property is present.
pub open spec fn journal_fm_spec(
    title: Seq<char>,
    date: Seq<char>,
    props: Seq<(Seq<char>, Seq<char>)>,
) -> Seq<char> {
    "---\ntitle: \""@ + esc_quotes_from(title, 0) + "\"\ndate: "@ + date + "\n"@ + (match plookup(
        props,
        "tags"@,
    ) {
        Some(tv) => "tags:\n"@ + jtag_items(split_char(tv, ','), 0),
        None => Seq::empty(),
    }) + "---\n"@
}

/// Builds a journal's frontmatter: exactly `journal_fm_spec`.
pub fn journal_frontmatter(title: &str, date: &str, properties: &Vec<(String, String)>) -> (r:
    String)
    ensures
        r@ == journal_fm_spec(title@, date@, pviews(properties@)),
{
    let mut out = str_to_chars("---\ntitle: \"");
    let tv = str_to_chars(title);
    let te = esc_quotes_x(&tv);
    push_all(&mut out, &te);
    push_str_chars(&mut out, "\"\ndate: ");
    push_str_chars(&mut out, date);
    push_str_chars(&mut out, "\n");
    let ghost head = out@;
    proof {
        assert(head =~= "---\ntitle: \""@ + esc_quotes_from(title@, 0) + "\"\ndate: "@ + date@
            + "\n"@);
    }
    let k_tags = str_to_chars("tags");
    match plookup_x(properties, &k_tags) {
        Some(tags_str) => {
            push_str_chars(&mut out, "tags:\n");
            let tvv = str_to_chars(tags_str.as_str());
            let parts = split_char_x(&tvv, ',');
            let ghost pv = split_char(tvv@, ',');
            let ob = str_to_chars("[[");
            let cb = str_to_chars("]]");
            let ghost mid = out@;
            let mut i: usize = 0;
            while i < parts.len()
                invariant
                    i <= parts@.len(),
                    vviews(parts@) == pv,
                    ob@ == "[["@,
                    cb@ == "]]"@,
                    jtag_items(pv, 0) =~= out@.skip(mid.len() as int) + jtag_items(pv, i as int),
                    out@.len() >= mid.len(),
                    out@.subrange(0, mid.len() as int) =~= mid,
                decreases parts@.len() - i,
            {
                let ghost i0 = i as int;
                proof {
                    assert(vviews(parts@)[i0] == parts@[i0]@);
                    assert(jtag_items(pv, i0) == (if crate::frontmatter::fm_tag_clean(
                        pv[i0],
                    ).len() > 0 {
                        "  - "@ + crate::frontmatter::fm_tag_clean(pv[i0]) + "\n"@
                    } else {
                        Seq::<char>::empty()
                    }) + jtag_items(pv, i0 + 1));
                }
                let t1 = trim_vec(&parts[i]);
                let t2 = strip_all_prefix_x(&t1, &ob);
                let t3 = strip_all_suffix_x(&t2, &cb);
                if t3.len() > 0 {
                    push_str_chars(&mut out, "  - ");
                    push_all(&mut out, &t3);
                    push_str_chars(&mut out, "\n");
                }
                i += 1;
            }
            proof {
                assert(jtag_items(pv, parts@.len() as int) =~= Seq::<char>::empty());
                assert(out@ =~= mid + jtag_items(pv, 0));
            }
        },
        None => {},
    }
    push_str_chars(&mut out, "---\n");
    assert(out@ =~= journal_fm_spec(title@, date@, pviews(properties@)));
    chars_to_string(&out)
}

/// One entry not after another in the index ordering: newest date first.
pub open spec fn le_entry(a: (Seq<char>, Seq<char>), b: (Seq<char>, Seq<char>)) -> bool {
    seq_le(b.0, a.0)
}

/// Stable insertion of one entry under the index ordering.
pub open spec fn insert_entry(
    x: (Seq<char>, Seq<char>),
    s: Seq<(Seq<char>, Seq<char>)>,
) -> Seq<(Seq<char>, Seq<char>)>
    decreases s.len(),
{
    if s.len() == 0 {
        seq![x]
    } else if le_entry(s[0], x) {
        seq![s[0]] + insert_entry(x, s.drop_first())
    } else {
        seq![x] + s
    }
}

/// The entries sorted newest first.
pub open spec fn sort_entries(
    es: Seq<(Seq<char>, Seq<char>)>,
    i: int,
    acc: Seq<(Seq<char>, Seq<char>)>,
) -> Seq<(Seq<char>, Seq<char>)>
    decreases es.len() - i,
{
    if i < 0 || i >= es.len() {
        acc
    } else {
        sort_entries(es, i + 1, insert_entry(es[i], acc))
    }
}

/// The body of the journal index: a heading link and an embed for every
/// entry, newest first.
pub open spec fn jindex_entries(es: Seq<(Seq<char>, Seq<char>)>, i: int) -> Seq<char>
    decreases es.len() - i,
{
    if i < 0 || i >= es.len() {
        Seq::empty()
    } else {
        "## [[journals/"@ + es[i].0 + "|"@ + es[i].0 + " - "@ + es[i].1 + "]]\n\n![[journals/"@
            + es[i].0 + "]]\n\n---\n\n"@ + jindex_entries(es, i + 1)
    }
}

/// The whole journal index text.
pub open spec fn jindex_spec(es: Seq<(Seq<char>, Seq<char>)>) -> Seq<char> {
    "---\ntitle: \"📅 Journals\"\n---\n\n"@ + jindex_entries(sort_entries(es, 0, Seq::empty()), 0)
}

/// The split point of a stable entry insertion.
fn entry_stop(s: &Vec<(String, String)>, x: &(String, String), i: usize) -> (r: usize)
    requires
        i <= s.len(),
        forall|k: int| 0 <= k < i ==> le_entry(pviews(s@)[k], (x.0@, x.1@)),
    ensures
        i <= r <= s@.len(),
        forall|k: int| 0 <= k < r ==> le_entry(pviews(s@)[k], (x.0@, x.1@)),
        r < s@.len() ==> !le_entry(pviews(s@)[r as int], (x.0@, x.1@)),
    decreases s.len() - i,
{
    if i == s.len() {
        i
    } else {
        let dv = str_to_chars(s[i].0.as_str());
        let xv = str_to_chars(x.0.as_str());
        let hit = crate::query::seq_le_x(&xv, &dv, 0);
        proof {
            assert(xv@.skip(0) =~= xv@);
            assert(dv@.skip(0) =~= dv@);
            assert(pviews(s@)[i as int] == (s@[i as int].0@, s@[i as int].1@));
        }
        if hit {
            entry_stop(s, x, i + 1)
        } else {
            i
        }
    }
}

/// The shape of a stable entry insertion.
proof fn lemma_insert_entry_shape(
    x: (Seq<char>, Seq<char>),
    s: Seq<(Seq<char>, Seq<char>)>,
    stop: int,
)
    requires
        0 <= stop <= s.len(),
        forall|k: int| 0 <= k < stop ==> le_entry(s[k], x),
        stop < s.len() ==> !le_entry(s[stop], x),
    ensures
        insert_entry(x, s).len() == s.len() + 1,
        forall|k: int| 0 <= k < stop ==> insert_entry(x, s)[k] == s[k],
        insert_entry(x, s)[stop] == x,
        forall|k: int| stop <= k < s.len() ==> insert_entry(x, s)[k + 1] == s[k],
    decreases s.len(),
{
    if s.len() == 0 {
    } else if le_entry(s[0], x) {
        assert(stop >= 1) by {
            if stop == 0 {
                assert(!le_entry(s[0], x));
            }
        }
        lemma_insert_entry_shape(x, s.drop_first(), stop - 1);
        assert forall|k: int| 1 <= k < stop implies insert_entry(x, s)[k] == s[k] by {
            assert(insert_entry(x, s)[k] == insert_entry(x, s.drop_first())[k - 1]);
            assert(s.drop_first()[k - 1] == s[k]);
        }
        assert forall|k: int| stop <= k < s.len() implies insert_entry(x, s)[k + 1] == s[k] by {
            assert(insert_entry(x, s)[k + 1] == insert_entry(x, s.drop_first())[k]);
            if k >= 1 {
                assert(s.drop_first()[k - 1] == s[k]);
            }
        }
    } else {
        assert(stop == 0);
    }
}

/// Executable stable entry insertion matching `insert_entry`.
fn insert_entry_x(x: (String, String), s: &Vec<(String, String)>) -> (r: Vec<(String, String)>)
    ensures
        pviews(r@) == insert_entry((x.0@, x.1@), pviews(s@)),
{
    let ghost xv = (x.0@, x.1@);
    let stop = entry_stop(s, &x, 0);
    let mut out: Vec<(String, String)> = Vec::new();
    let mut i: usize = 0;
    while i < stop
        invariant
            i <= stop <= s@.len(),
            out@.len() == i,
            forall|k: int|
                0 <= k < i ==> (#[trigger] out@[k]).0@ == s@[k].0@ && out@[k].1@ == s@[k].1@,
        decreases stop - i,
    {
        out.push((crate::page::clone_string(&s[i].0), crate::page::clone_string(&s[i].1)));
        i += 1;
    }
    out.push(x);
    let mut j: usize = stop;
    while j < s.len()
        invariant
            stop <= j <= s@.len(),
            out@.len() == j + 1,
            forall|k: int|
                0 <= k < stop ==> (#[trigger] out@[k]).0@ == s@[k].0@ && out@[k].1@ == s@[k].1@,
            out@[stop as int].0@ == xv.0 && out@[stop as int].1@ == xv.1,
            forall|k: int|
                stop <= k < j ==> (#[trigger] out@[k + 1]).0@ == s@[k].0@ && out@[k + 1].1@
                    == s@[k].1@,
        decreases s@.len() - j,
    {
        out.push((crate::page::clone_string(&s[j].0), crate::page::clone_string(&s[j].1)));
        j += 1;
    }
    proof {
        lemma_insert_entry_shape(xv, pviews(s@), stop as int);
        assert forall|k: int| 0 <= k < pviews(out@).len() implies pviews(out@)[k] == insert_entry(
            xv,
            pviews(s@),
        )[k] by {
            assert(pviews(out@)[k] == (out@[k].0@, out@[k].1@));
            if k < stop {
                assert(pviews(s@)[k] == (s@[k].0@, s@[k].1@));
            } else if k > stop {
                assert(pviews(s@)[k - 1] == (s@[k - 1].0@, s@[k - 1].1@));
            }
        }
        assert(pviews(out@) =~= insert_entry(xv, pviews(s@)));
    }
    out
}

/// Builds the journal index text, newest entry first: exactly
/// `jindex_spec`.
pub fn create_journal_index_content(entries: &Vec<(String, String)>) -> (r: String)
    ensures
        r@ == jindex_spec(pviews(entries@)),
{
    let ghost ev = pviews(entries@);
    let mut sorted: Vec<(String, String)> = Vec::new();
    let mut i: usize = 0;
    assert(pviews(sorted@) =~= Seq::<(Seq<char>, Seq<char>)>::empty());
    while i < entries.len()
        invariant
            i <= entries@.len(),
            ev == pviews(entries@),
            sort_entries(ev, 0, Seq::empty()) == sort_entries(ev, i as int, pviews(sorted@)),
        decreases entries@.len() - i,
    {
        let ghost i0 = i as int;
        proof {
            assert(ev[i0] == (entries@[i0].0@, entries@[i0].1@));
            assert(sort_entries(ev, i0, pviews(sorted@)) == sort_entries(
                ev,
                i0 + 1,
                insert_entry(ev[i0], pviews(sorted@)),
            ));
        }
        let x = (
            crate::page::clone_string(&entries[i].0),
            crate::page::clone_string(&entries[i].1),
        );
        sorted = insert_entry_x(x, &sorted);
        i += 1;
    }
    let ghost sv = pviews(sorted@);
    proof {
        assert(sv == sort_entries(ev, 0, Seq::empty()));
    }
    let mut out = str_to_chars("---\ntitle: \"📅 Journals\"\n---\n\n");
    let ghost head = out@;
    let mut k: usize = 0;
    while k < sorted.len()
        invariant
            k <= sorted@.len(),
            sv == pviews(sorted@),
            jindex_entries(sv, 0) =~= out@.skip(head.len() as int) + jindex_entries(sv, k as int),
            out@.len() >= head.len(),
            out@.subrange(0, head.len() as int) =~= head,
        decreases sorted@.len() - k,
    {
        let ghost k0 = k as int;
        proof {
            assert(sv[k0] == (sorted@[k0].0@, sorted@[k0].1@));
            assert(jindex_entries(sv, k0) == "## [[journals/"@ + sv[k0].0 + "|"@ + sv[k0].0
                + " - "@ + sv[k0].1 + "]]\n\n![[journals/"@ + sv[k0].0 + "]]\n\n---\n\n"@
                + jindex_entries(sv, k0 + 1));
        }
        push_str_chars(&mut out, "## [[journals/");
        push_str_chars(&mut out, sorted[k].0.as_str());
        push_str_chars(&mut out, "|");
        push_str_chars(&mut out, sorted[k].0.as_str());
        push_str_chars(&mut out, " - ");
        push_str_chars(&mut out, sorted[k].1.as_str());
        push_str_chars(&mut out, "]]\n\n![[journals/");
        push_str_chars(&mut out, sorted[k].0.as_str());
        push_str_chars(&mut out, "]]\n\n---\n\n");
        k += 1;
    }
    proof {
        assert(jindex_entries(sv, sv.len() as int) =~= Seq::<char>::empty());
        assert(out@ =~= head + jindex_entries(sv, 0));
    }
    chars_to_string(&out)
}

} // verus!
