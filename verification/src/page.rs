//! The document model: one `Page` per source file, and the parsing that
//! builds it from a filename and raw text.

use vstd::prelude::*;
use crate::text::{Cls, at, at_x, chars_to_string, find_from, find_from_x, find_seq_from, find_seq_from_x, is_lower_letter, is_upper, join_lines, join_lines_x, lower, lower_vec, plookup, plookup_x, push_all, push_seg, pviews, scan_while, scan_while_x, seg_vec, seq_contains_str, skip_ws_from, skip_ws_from_x, split_char, split_char_x, split_lines, split_lines_x, str_eq_chars, str_to_chars, strip_all_prefix, strip_all_prefix_x, strip_all_suffix, strip_all_suffix_x, sviews, trim_seq, trim_vec, vec_contains_str, vviews};

verus! {

/// One document of the knowledge base.
pub struct Page {
    /// Case-preserving name; slash-joined when the file encoded a namespace.
    pub name: String,
    /// Lowercase key derived from the name.
    pub name_lower: String,
    /// The raw text of the source file.
    pub content: String,
    /// Property map: lowercase key (hyphens kept) to value, keys unique.
    pub properties: Vec<(String, String)>,
    /// Lowercase, deduplicated tags.
    pub tags: Vec<String>,
    /// Case-preserving aliases.
    pub aliases: Vec<String>,
    /// Namespace prefix, when the filename encoded one.
    pub namespace: Option<String>,
    /// Last-modified date, `YYYY-MM-DD`, when known.
    pub modified: Option<String>,
    /// Creation date, `YYYY-MM-DD`, when known.
    pub created: Option<String>,
}

/// The index: every document of one run, in discovery order.
pub type PageIndex = Vec<Page>;

impl Page {
    /// Well-formedness: the name is non-empty and the lowercase key is
    /// derived from it.
    pub open spec fn wf(&self) -> bool {
        self.name@.len() > 0 && self.name_lower@ == lower(self.name@)
    }
}

/// Every page of the index is well formed.
pub open spec fn index_wf(index: Seq<Page>) -> bool {
    forall|i: int| 0 <= i < index.len() ==> (#[trigger] index[i]).wf()
}

/// A source line as the property parser sees it: leading dashes stripped,
/// then trimmed.
pub open spec fn clean_line(l: Seq<char>) -> Seq<char> {
    trim_seq(l.skip(dash_run(l, 0)))
}

/// Length of the run of dashes starting `l`.
pub open spec fn dash_run(l: Seq<char>, i: int) -> int
    decreases l.len() - i,
{
    if i < 0 || i >= l.len() {
        if i < 0 {
            0
        } else {
            i
        }
    } else if l[i] == '-' {
        dash_run(l, i + 1)
    } else {
        i
    }
}

/// Executable dash-run scan matching `dash_run`.
pub fn dash_run_x(l: &Vec<char>, i: usize) -> (r: usize)
    requires
        i <= l.len(),
    ensures
        r == dash_run(l@, i as int),
        i <= r <= l.len(),
    decreases l.len() - i,
{
    if i >= l.len() {
        i
    } else if l[i] == '-' {
        dash_run_x(l, i + 1)
    } else {
        i
    }
}

/// Executable cleaning matching `clean_line`.
pub fn clean_line_x(l: &Vec<char>) -> (r: Vec<char>)
    ensures
        r@ == clean_line(l@),
{
    let d = dash_run_x(l, 0);
    let rest = seg_vec(l, d, l.len());
    assert(rest@ =~= l@.skip(dash_run(l@, 0)));
    trim_vec(&rest)
}

/// A property line parsed from a cleaned line: an optional single dash,
/// whitespace, a key of letters, underscores and dashes, `::`, and a
/// non-empty remainder.  The key is lowercased, the value is the remainder
/// with surrounding whitespace dropped.
pub open spec fn prop_parse(clean: Seq<char>) -> Option<(Seq<char>, Seq<char>)> {
    let j = if clean.len() > 0 && clean[0] == '-' {
        1int
    } else {
        0int
    };
    let j2 = skip_ws_from(clean, j);
    let e = scan_while(clean, Cls::PropKey, j2);
    if e > j2 && at(clean, e, "::"@) && clean.len() > e + "::"@.len() {
        Some(
            (
                lower(clean.subrange(j2, e)),
                clean.subrange(skip_ws_from(clean, e + "::"@.len()), clean.len() as int),
            ),
        )
    } else {
        None
    }
}

/// Executable property-line parse matching `prop_parse`.
fn prop_parse_x(clean: &Vec<char>) -> (r: Option<(Vec<char>, Vec<char>)>)
    ensures
        match r {
            Some(p) => prop_parse(clean@) == Some((p.0@, p.1@)),
            None => prop_parse(clean@) is None,
        },
{
    let j: usize = if clean.len() > 0 && clean[0] == '-' {
        1
    } else {
        0
    };
    let j2 = skip_ws_from_x(clean, j);
    let e = scan_while_x(clean, Cls::PropKey, j2);
    let cc = str_to_chars("::");
    if e > j2 && at_x(clean, e, &cc) && clean.len() - e > cc.len() {
        let key = seg_vec(clean, j2, e);
        let keyl = lower_vec(&key);
        let v0 = skip_ws_from_x(clean, e + cc.len());
        let val = seg_vec(clean, v0, clean.len());
        Some((keyl, val))
    } else {
        None
    }
}

/// Replaces the value under `k`, or appends the pair when `k` is new.
pub open spec fn pupsert(
    ps: Seq<(Seq<char>, Seq<char>)>,
    k: Seq<char>,
    v: Seq<char>,
) -> Seq<(Seq<char>, Seq<char>)>
    decreases ps.len(),
{
    if ps.len() == 0 {
        seq![(k, v)]
    } else if ps[0].0 == k {
        seq![(k, v)] + ps.drop_first()
    } else {
        seq![ps[0]] + pupsert(ps.drop_first(), k, v)
    }
}

/// Executable upsert matching `pupsert` on the views, from index `i` on.
fn pupsert_x(ps: &Vec<(String, String)>, i: usize, k: &Vec<char>, v: &Vec<char>) -> (r: Vec<
    (String, String),
>)
    requires
        i <= ps.len(),
    ensures
        pviews(r@) == pupsert(pviews(ps@).skip(i as int), k@, v@),
    decreases ps.len() - i,
{
    let ghost tail = pviews(ps@).skip(i as int);
    if i == ps.len() {
        let mut r: Vec<(String, String)> = Vec::new();
        r.push((chars_to_string(k), chars_to_string(v)));
        assert(pviews(r@) =~= pupsert(tail, k@, v@));
        r
    } else if str_eq_chars(&ps[i].0, k) {
        let mut r: Vec<(String, String)> = Vec::new();
        r.push((chars_to_string(k), chars_to_string(v)));
        let mut j: usize = i + 1;
        while j < ps.len()
            invariant
                i + 1 <= j <= ps.len(),
                r@.len() == j - i,
                r@[0].0@ == k@ && r@[0].1@ == v@,
                forall|m: int|
                    1 <= m < j - i ==> (#[trigger] r@[m]).0@ == ps@[i + m].0@ && r@[m].1@ == ps@[i
                        + m].1@,
            decreases ps.len() - j,
        {
            let name = clone_string(&ps[j].0);
            let value = clone_string(&ps[j].1);
            r.push((name, value));
            j += 1;
        }
        proof {
            assert(tail.drop_first() =~= pviews(ps@).subrange(i + 1, ps@.len() as int));
            assert forall|m: int| 0 <= m < r@.len() implies pviews(r@)[m] == (seq![(k@, v@)]
                + tail.drop_first())[m] by {
                assert(pviews(r@)[m] == (r@[m].0@, r@[m].1@));
                if m >= 1 {
                    assert(pviews(ps@)[i + m] == (ps@[i + m].0@, ps@[i + m].1@));
                }
            }
            assert(pviews(r@) =~= seq![(k@, v@)] + tail.drop_first());
            assert(pviews(r@) =~= pupsert(tail, k@, v@));
        }
        r
    } else {
        let rest = pupsert_x(ps, i + 1, k, v);
        let mut r: Vec<(String, String)> = Vec::new();
        r.push((clone_string(&ps[i].0), clone_string(&ps[i].1)));
        let mut j: usize = 0;
        while j < rest.len()
            invariant
                j <= rest.len(),
                i < ps.len(),
                r@.len() == j + 1,
                r@[0].0@ == ps@[i as int].0@ && r@[0].1@ == ps@[i as int].1@,
                forall|m: int|
                    1 <= m < j + 1 ==> (#[trigger] r@[m]).0@ == rest@[m - 1].0@ && r@[m].1@
                        == rest@[m - 1].1@,
            decreases rest.len() - j,
        {
            let name = clone_string(&rest[j].0);
            let value = clone_string(&rest[j].1);
            r.push((name, value));
            j += 1;
        }
        proof {
            assert(tail.drop_first() =~= pviews(ps@).skip(i + 1));
            assert forall|m: int| 0 <= m < r@.len() implies pviews(r@)[m] == (seq![tail[0]]
                + pupsert(tail.drop_first(), k@, v@))[m] by {
                assert(pviews(r@)[m] == (r@[m].0@, r@[m].1@));
                if m >= 1 {
                    assert(pviews(rest@)[m - 1] == (rest@[m - 1].0@, rest@[m - 1].1@));
                }
            }
            assert(pviews(r@) =~= seq![tail[0]] + pupsert(tail.drop_first(), k@, v@));
            assert(pviews(r@) =~= pupsert(tail, k@, v@));
        }
        r
    }
}

/// A copy of a string with the same characters.
pub fn clone_string(s: &String) -> (r: String)
    ensures
        r@ == s@,
{
    let v = str_to_chars(s.as_str());
    chars_to_string(&v)
}

/// The property block parsed from the lines of a document, with the index
/// of the first body line.  Contiguous property lines at the top form the
/// block; a blank line inside it extends it; the first other line ends it.
pub open spec fn parse_props_rec(
    lines: Seq<Seq<char>>,
    i: int,
    props: Seq<(Seq<char>, Seq<char>)>,
    end: int,
) -> (Seq<(Seq<char>, Seq<char>)>, int)
    decreases lines.len() - i,
{
    if i < 0 || i >= lines.len() {
        (props, end)
    } else {
        let clean = clean_line(lines[i]);
        match prop_parse(clean) {
            Some((k, v)) => parse_props_rec(lines, i + 1, pupsert(props, k, v), i + 1),
            None => {
                if clean.len() == 0 && props.len() > 0 {
                    parse_props_rec(lines, i + 1, props, i + 1)
                } else if props.len() > 0 {
                    (props, end)
                } else if clean.len() > 0 && clean[0] != '-' {
                    (props, end)
                } else {
                    parse_props_rec(lines, i + 1, props, end)
                }
            },
        }
    }
}

/// The parsed property block of a document's text.
pub open spec fn parse_properties_spec(s: Seq<char>) -> Seq<(Seq<char>, Seq<char>)> {
    parse_props_rec(split_lines(s), 0, Seq::empty(), 0).0
}

/// The body of a document's text: the lines after the property block.
pub open spec fn remaining_spec(s: Seq<char>) -> Seq<char> {
    let end = parse_props_rec(split_lines(s), 0, Seq::empty(), 0).1;
    if 0 <= end <= split_lines(s).len() {
        join_lines(split_lines(s).skip(end))
    } else {
        Seq::empty()
    }
}

/// Parses the leading property block of a document.  Returns the properties
/// (lowercase unique keys, in first-seen order) and the remaining body.
pub fn parse_properties(content: &str) -> (r: (Vec<(String, String)>, String))
    ensures
        pviews(r.0@) == parse_properties_spec(content@),
        r.1@ == remaining_spec(content@),
{
    let cv = str_to_chars(content);
    let ls = split_lines_x(&cv);
    let ghost lsv = split_lines(cv@);
    let mut props: Vec<(String, String)> = Vec::new();
    let mut end: usize = 0;
    let mut i: usize = 0;
    let mut done = false;
    proof {
        assert(pviews(props@) =~= Seq::<(Seq<char>, Seq<char>)>::empty());
    }
    while i < ls.len() && !done
        invariant
            i <= ls.len(),
            end <= i,
            vviews(ls@) == lsv,
            parse_props_rec(lsv, 0, Seq::empty(), 0) == parse_props_rec(
                lsv,
                i as int,
                pviews(props@),
                end as int,
            ),
            done ==> parse_props_rec(lsv, i as int, pviews(props@), end as int) == (
            pviews(props@),
            end as int,
            ),
        decreases ls.len() - i, (if done { 0int } else { 1int }),
    {
        let clean = clean_line_x(&ls[i]);
        proof {
            assert(vviews(ls@)[i as int] == ls@[i as int]@);
            assert(clean@ == clean_line(lsv[i as int]));
        }
        match prop_parse_x(&clean) {
            Some((k, v)) => {
                let np = pupsert_x(&props, 0, &k, &v);
                proof {
                    assert(pviews(props@).skip(0) =~= pviews(props@));
                    assert(parse_props_rec(lsv, i as int, pviews(props@), end as int)
                        == parse_props_rec(lsv, i + 1, pupsert(pviews(props@), k@, v@), i + 1));
                }
                props = np;
                end = i + 1;
                i += 1;
            },
            None => {
                if clean.len() == 0 && props.len() > 0 {
                    proof {
                        assert(parse_props_rec(lsv, i as int, pviews(props@), end as int)
                            == parse_props_rec(lsv, i + 1, pviews(props@), i + 1));
                    }
                    end = i + 1;
                    i += 1;
                } else if props.len() > 0 {
                    proof {
                        assert(parse_props_rec(lsv, i as int, pviews(props@), end as int) == (
                        pviews(props@),
                        end as int,
                        ));
                    }
                    done = true;
                } else if clean.len() > 0 && clean[0] != '-' {
                    proof {
                        assert(pviews(props@).len() == 0);
                        assert(parse_props_rec(lsv, i as int, pviews(props@), end as int) == (
                        pviews(props@),
                        end as int,
                        ));
                    }
                    done = true;
                } else {
                    proof {
                        assert(parse_props_rec(lsv, i as int, pviews(props@), end as int)
                            == parse_props_rec(lsv, i + 1, pviews(props@), end as int));
                    }
                    i += 1;
                }
            },
        }
    }
    proof {
        assert(parse_props_rec(lsv, i as int, pviews(props@), end as int) == (
        pviews(props@),
        end as int,
        ));
    }
    let mut rest_lines: Vec<Vec<char>> = Vec::new();
    let mut j: usize = end;
    while j < ls.len()
        invariant
            end <= j <= ls.len(),
            vviews(ls@) == lsv,
            rest_lines@.len() == j - end,
            forall|m: int| 0 <= m < j - end ==> (#[trigger] rest_lines@[m])@ == lsv[end + m],
        decreases ls.len() - j,
    {
        let line = seg_vec(&ls[j], 0, ls[j].len());
        proof {
            assert(vviews(ls@)[j as int] == ls@[j as int]@);
            assert(line@ =~= lsv[j as int]);
        }
        rest_lines.push(line);
        j += 1;
    }
    proof {
        assert forall|m: int| 0 <= m < rest_lines@.len() implies vviews(rest_lines@)[m]
            == lsv.skip(end as int)[m] by {
            assert(vviews(rest_lines@)[m] == rest_lines@[m]@);
        }
        assert(vviews(rest_lines@) =~= lsv.skip(end as int));
    }
    let body = join_lines_x(&rest_lines);
    let out = chars_to_string(&body);
    (props, out)
}


/// One comma-separated tag entry cleaned: trimmed, bracket-link syntax
/// stripped, lowercased.
pub open spec fn clean_tag(t: Seq<char>) -> Seq<char> {
    lower(strip_all_suffix(strip_all_prefix(trim_seq(t), "[["@), "]]"@))
}

/// The non-empty cleaned entries of a comma-split tags property.
pub open spec fn prop_tags(parts: Seq<Seq<char>>, i: int) -> Seq<Seq<char>>
    decreases parts.len() - i,
{
    if i < 0 || i >= parts.len() {
        Seq::empty()
    } else {
        let t = clean_tag(parts[i]);
        (if t.len() > 0 {
            seq![t]
        } else {
            Seq::empty()
        }) + prop_tags(parts, i + 1)
    }
}

/// Inline `#tag` tokens of the body appended to `acc`, lowercased,
/// skipping any already present.
pub open spec fn content_tags(s: Seq<char>, i: int, acc: Seq<Seq<char>>) -> Seq<Seq<char>>
    decreases s.len() - i,
{
    if i < 0 || i >= s.len() {
        acc
    } else if s[i] == '#' && i + 1 < s.len() && (is_upper(s[i + 1]) || is_lower_letter(
        s[i + 1],
    )) {
        let e0 = scan_while(s, Cls::TagTail, i + 2);
        let e = if e0 < i + 2 {
            i + 2
        } else if e0 > s.len() {
            s.len() as int
        } else {
            e0
        };
        let tag = lower(s.subrange(i + 1, e));
        content_tags(
            s,
            e,
            if seq_contains_str(acc, tag) {
                acc
            } else {
                acc.push(tag)
            },
        )
    } else {
        content_tags(s, i + 1, acc)
    }
}

/// The tag set of a document: the tags property union the body's inline
/// tags, lowercased; inline tags are deduplicated against what is there.
pub open spec fn extract_tags_spec(
    props: Seq<(Seq<char>, Seq<char>)>,
    content: Seq<char>,
) -> Seq<Seq<char>> {
    let base = match plookup(props, "tags"@) {
        Some(v) => prop_tags(split_char(v, ','), 0),
        None => Seq::empty(),
    };
    content_tags(content, 0, base)
}

/// Executable tag cleaning matching `clean_tag`.
fn clean_tag_x(t: &Vec<char>) -> (r: Vec<char>)
    ensures
        r@ == clean_tag(t@),
{
    let ob = str_to_chars("[[");
    let cb = str_to_chars("]]");
    let t1 = trim_vec(t);
    let t2 = strip_all_prefix_x(&t1, &ob);
    let t3 = strip_all_suffix_x(&t2, &cb);
    lower_vec(&t3)
}

/// Executable tag extraction matching `extract_tags_spec`.
#[verifier::rlimit(60)]
pub fn extract_tags(props: &Vec<(String, String)>, content: &Vec<char>) -> (r: Vec<String>)
    ensures
        sviews(r@) == extract_tags_spec(pviews(props@), content@),
{
    let key = str_to_chars("tags");
    let mut acc: Vec<String> = Vec::new();
    let ghost base: Seq<Seq<char>>;
    match plookup_x(props, &key) {
        Some(tags_str) => {
            let tv = str_to_chars(tags_str.as_str());
            let parts = split_char_x(&tv, ',');
            let ghost pv = split_char(tv@, ',');
            proof {
                base = prop_tags(pv, 0);
            }
            let mut i: usize = 0;
            while i < parts.len()
                invariant
                    i <= parts.len(),
                    vviews(parts@) == pv,
                    prop_tags(pv, 0) =~= sviews(acc@) + prop_tags(pv, i as int),
                decreases parts.len() - i,
            {
                let ghost i0 = i as int;
                let t = clean_tag_x(&parts[i]);
                proof {
                    assert(vviews(parts@)[i0] == parts@[i0]@);
                    assert(prop_tags(pv, i0) =~= (if clean_tag(pv[i0]).len() > 0 {
                        seq![clean_tag(pv[i0])]
                    } else {
                        Seq::<Seq<char>>::empty()
                    }) + prop_tags(pv, i0 + 1));
                }
                if t.len() > 0 {
                    acc.push(chars_to_string(&t));
                    proof {
                        assert(sviews(acc@) =~= sviews(acc@.drop_last()) + seq![t@]);
                    }
                }
                i += 1;
            }
            proof {
                assert(prop_tags(pv, parts@.len() as int) =~= Seq::<Seq<char>>::empty());
                assert(sviews(acc@) =~= base);
            }
        },
        None => {
            proof {
                base = Seq::empty();
                assert(sviews(acc@) =~= base);
            }
        },
    }
    let mut i: usize = 0;
    while i < content.len()
        invariant
            i <= content.len(),
            content_tags(content@, 0, base) == content_tags(content@, i as int, sviews(acc@)),
        decreases content.len() - i,
    {
        let ghost i0 = i as int;
        let c = content[i];
        if c == '#' && content.len() - i > 1 && {
            let d = content[i + 1];
            ('A' <= d && d <= 'Z') || ('a' <= d && d <= 'z')
        } {
            let e = scan_while_x(content, Cls::TagTail, i + 2);
            let seg = seg_vec(content, i + 1, e);
            let tag = lower_vec(&seg);
            let dup = vec_contains_str(&acc, &tag);
            let ghost oldv = sviews(acc@);
            proof {
                assert(content_tags(content@, i0, oldv) == content_tags(
                    content@,
                    e as int,
                    if seq_contains_str(oldv, tag@) {
                        oldv
                    } else {
                        oldv.push(tag@)
                    },
                ));
            }
            if !dup {
                acc.push(chars_to_string(&tag));
                proof {
                    assert(sviews(acc@) =~= oldv.push(tag@));
                }
            } else {
                proof {
                    assert(sviews(acc@) == oldv);
                }
            }
            proof {
                assert(content_tags(content@, 0, base) == content_tags(
                    content@,
                    e as int,
                    sviews(acc@),
                ));
            }
            i = e;
        } else {
            proof {
                assert(content_tags(content@, i0, sviews(acc@)) == content_tags(
                    content@,
                    i0 + 1,
                    sviews(acc@),
                ));
            }
            i += 1;
        }
    }
    acc
}

/// The name and namespace a filename encodes: at the first namespace
/// separator the filename splits into prefix and suffix, joined by a slash.
pub open spec fn split_ns(f: Seq<char>) -> (Seq<char>, Option<Seq<char>>) {
    let p = find_seq_from(f, "___"@, 0);
    if 0 <= p < f.len() {
        (
            f.subrange(0, p) + seq!['/'] + f.subrange(p + "___"@.len(), f.len() as int),
            Some(f.subrange(0, p)),
        )
    } else {
        (f, None)
    }
}

/// Builds the `Page` for one source file from its stem, raw text, and the
/// dates a history lookup supplied.  Every field is pinned: the name comes
/// from the filename with any namespace separator turned into a slash, the
/// lowercase key is derived, and properties, tags and aliases are parsed
/// from the text.
pub fn parse_page(
    filename: &str,
    content: &str,
    modified: Option<String>,
    created: Option<String>,
) -> (r: Page)
    requires
        filename@.len() > 0,
    ensures
        r.wf(),
        r.name@ == split_ns(filename@).0,
        match split_ns(filename@).1 {
            Some(ns) => r.namespace is Some && r.namespace->0@ == ns,
            None => r.namespace is None,
        },
        r.name_lower@ == lower(r.name@),
        r.content@ == content@,
        pviews(r.properties@) == parse_properties_spec(content@),
        sviews(r.tags@) == extract_tags_spec(parse_properties_spec(content@), content@),
        sviews(r.aliases@) == aliases_of(parse_properties_spec(content@)),
        r.modified == modified,
        r.created == created,
{
    let fv = str_to_chars(filename);
    let sep = str_to_chars("___");
    let p = find_seq_from_x(&fv, &sep, 0);
    proof {
        crate::text::lemma_find_seq_from(fv@, sep@, 0);
    }
    let (name_v, namespace) = if p < fv.len() {
        let mut nm = seg_vec(&fv, 0, p);
        let ns = chars_to_string(&nm);
        nm.push('/');
        push_seg(&mut nm, &fv, p + sep.len(), fv.len());
        assert(nm@ =~= fv@.subrange(0, p as int) + seq!['/'] + fv@.subrange(
            p + sep@.len(),
            fv@.len() as int,
        ));
        (nm, Some(ns))
    } else {
        (seg_vec(&fv, 0, fv.len()), None)
    };
    assert(name_v@ =~= split_ns(filename@).0);
    let name = chars_to_string(&name_v);
    let name_lower = chars_to_string(&lower_vec(&name_v));
    let (properties, _body) = parse_properties(content);
    let cv = str_to_chars(content);
    let tags = extract_tags(&properties, &cv);
    let aliases = parse_page_aliases(&properties);
    Page {
        name,
        name_lower,
        content: clone_string_of_str(content),
        properties,
        tags,
        aliases,
        namespace,
        modified,
        created,
    }
}

/// A `String` holding the characters of a string slice.
pub fn clone_string_of_str(s: &str) -> (r: String)
    ensures
        r@ == s@,
{
    let v = str_to_chars(s);
    chars_to_string(&v)
}

/// The alias list a property map yields: the `alias` property, or failing
/// that the `aliases` property, comma-split outside bracket-link spans.
pub open spec fn aliases_of(props: Seq<(Seq<char>, Seq<char>)>) -> Seq<Seq<char>> {
    match plookup(props, "alias"@) {
        Some(v) => crate::frontmatter::parse_aliases_spec(v),
        None => match plookup(props, "aliases"@) {
            Some(v) => crate::frontmatter::parse_aliases_spec(v),
            None => Seq::empty(),
        },
    }
}

/// Executable alias extraction matching `aliases_of`.
fn parse_page_aliases(props: &Vec<(String, String)>) -> (r: Vec<String>)
    ensures
        sviews(r@) == aliases_of(pviews(props@)),
{
    let k1 = str_to_chars("alias");
    match plookup_x(props, &k1) {
        Some(v) => crate::frontmatter::parse_aliases(v.as_str()),
        None => {
            let k2 = str_to_chars("aliases");
            match plookup_x(props, &k2) {
                Some(v) => crate::frontmatter::parse_aliases(v.as_str()),
                None => {
                    let r: Vec<String> = Vec::new();
                    assert(sviews(r@) =~= Seq::<Seq<char>>::empty());
                    r
                },
            }
        },
    }
}

/// The page renamed under a prefix; everything else is kept.
pub fn prefix_name(page: Page, prefix: &str) -> (r: Page)
    requires
        page.wf(),
    ensures
        r.wf(),
        r.name@ == prefix@ + page.name@,
        r.name_lower@ == lower(r.name@),
        r.content == page.content,
        r.properties == page.properties,
        r.tags == page.tags,
        r.aliases == page.aliases,
        r.namespace == page.namespace,
        r.modified == page.modified,
        r.created == page.created,
{
    let mut nv = str_to_chars(prefix);
    let ov = str_to_chars(page.name.as_str());
    push_all(&mut nv, &ov);
    let name = chars_to_string(&nv);
    let name_lower = chars_to_string(&lower_vec(&nv));
    Page {
        name,
        name_lower,
        content: page.content,
        properties: page.properties,
        tags: page.tags,
        aliases: page.aliases,
        namespace: page.namespace,
        modified: page.modified,
        created: page.created,
    }
}

/// The value stored under `key` in a property map, if any.
pub fn props_get(props: &Vec<(String, String)>, key: &str) -> (r: Option<String>)
    ensures
        match r {
            Some(v) => plookup(pviews(props@), key@) == Some(v@),
            None => plookup(pviews(props@), key@) is None,
        },
{
    let kv = str_to_chars(key);
    plookup_x(props, &kv)
}

/// The distinct lowercased bracket-link targets of a text, in order of
/// first appearance, skipping web, anchor and embed targets, appended to
/// `acc`.
pub open spec fn wikilinks_rec(s: Seq<char>, i: int, acc: Seq<Seq<char>>) -> Seq<Seq<char>>
    decreases s.len() - i,
{
    if i < 0 || i >= s.len() {
        acc
    } else if at(s, i, "[["@) {
        let c0 = i + "[["@.len();
        let e0 = scan_while(s, Cls::LinkText, c0);
        let e = if e0 < c0 {
            c0
        } else {
            e0
        };
        if e > c0 && e < s.len() && s[e] == '|' {
            let a = find_from(s, ']', e + 1);
            if a > e + 1 && a + 1 < s.len() && s[a + 1] == ']' {
                wikilinks_rec(s, a + 2, wikilink_add(acc, s.subrange(c0, e)))
            } else {
                wikilinks_rec(s, i + 1, acc)
            }
        } else if e > c0 && e + 1 < s.len() && s[e] == ']' && s[e + 1] == ']' {
            wikilinks_rec(s, e + 2, wikilink_add(acc, s.subrange(c0, e)))
        } else {
            wikilinks_rec(s, i + 1, acc)
        }
    } else {
        wikilinks_rec(s, i + 1, acc)
    }
}

/// One found link target added to the accumulator: trimmed, lowercased,
/// skipped when it is a web, anchor or embed target or already present.
pub open spec fn wikilink_add(acc: Seq<Seq<char>>, raw: Seq<char>) -> Seq<Seq<char>> {
    let t = trim_seq(raw);
    if at(t, 0, "http"@) || (t.len() > 0 && (t[0] == '#' || t[0] == '!')) {
        acc
    } else {
        let l = lower(t);
        if seq_contains_str(acc, l) {
            acc
        } else {
            acc.push(l)
        }
    }
}

/// The distinct lowercased bracket-link targets of a text.
pub fn extract_wikilinks(content: &str) -> (r: Vec<String>)
    ensures
        sviews(r@) == wikilinks_rec(content@, 0, Seq::empty()),
{
    let v = str_to_chars(content);
    let br = str_to_chars("[[");
    let ht = str_to_chars("http");
    let mut acc: Vec<String> = Vec::new();
    let ghost s = v@;
    assert(sviews(acc@) =~= Seq::<Seq<char>>::empty());
    let mut i: usize = 0;
    while i < v.len()
        invariant
            i <= v.len(),
            s == v@,
            br@ == "[["@,
            ht@ == "http"@,
            wikilinks_rec(s, 0, Seq::empty()) == wikilinks_rec(s, i as int, sviews(acc@)),
        decreases v.len() - i,
    {
        let ghost i0 = i as int;
        if at_x(&v, i, &br) {
            let c0 = i + br.len();
            let e = scan_while_x(&v, Cls::LinkText, c0);
            if e > c0 && e < v.len() && v[e] == '|' {
                let a = find_from_x(&v, ']', e + 1);
                if a > e + 1 && v.len() - a > 1 && v[a + 1] == ']' {
                    let raw = seg_vec(&v, c0, e);
                    let ghost av = sviews(acc@);
                    acc = wikilink_add_x(acc, &raw, &ht);
                    proof {
                        assert(wikilinks_rec(s, i0, av) == wikilinks_rec(
                            s,
                            a + 2,
                            wikilink_add(av, s.subrange(c0 as int, e as int)),
                        ));
                    }
                    i = a + 2;
                } else {
                    proof {
                        assert(wikilinks_rec(s, i0, sviews(acc@)) == wikilinks_rec(
                            s,
                            i0 + 1,
                            sviews(acc@),
                        ));
                    }
                    i += 1;
                }
            } else if e > c0 && v.len() - e > 1 && v[e] == ']' && v[e + 1] == ']' {
                let raw = seg_vec(&v, c0, e);
                let ghost av = sviews(acc@);
                acc = wikilink_add_x(acc, &raw, &ht);
                proof {
                    assert(wikilinks_rec(s, i0, av) == wikilinks_rec(
                        s,
                        e + 2,
                        wikilink_add(av, s.subrange(c0 as int, e as int)),
                    ));
                }
                i = e + 2;
            } else {
                proof {
                    assert(wikilinks_rec(s, i0, sviews(acc@)) == wikilinks_rec(
                        s,
                        i0 + 1,
                        sviews(acc@),
                    ));
                }
                i += 1;
            }
        } else {
            proof {
                assert(wikilinks_rec(s, i0, sviews(acc@)) == wikilinks_rec(
                    s,
                    i0 + 1,
                    sviews(acc@),
                ));
            }
            i += 1;
        }
    }
    acc
}

/// Executable link accumulation matching `wikilink_add`.
fn wikilink_add_x(acc: Vec<String>, raw: &Vec<char>, ht: &Vec<char>) -> (r: Vec<String>)
    requires
        ht@ == "http"@,
    ensures
        sviews(r@) == wikilink_add(sviews(acc@), raw@),
{
    let t = trim_vec(raw);
    if at_x(&t, 0, ht) || (t.len() > 0 && (t[0] == '#' || t[0] == '!')) {
        acc
    } else {
        let l = lower_vec(&t);
        if vec_contains_str(&acc, &l) {
            acc
        } else {
            let mut acc2 = acc;
            acc2.push(chars_to_string(&l));
            proof {
                assert(sviews(acc2@) =~= sviews(acc2@.drop_last()).push(l@));
            }
            acc2
        }
    }
}

} // verus!
