//! Site-configuration extraction: the favorites list, the default home
//! page and the site title, read out of the workspace configuration text.

use vstd::prelude::*;
use crate::text::{at, at_x, chars_to_string, find_from, find_from_x, find_seq_from, find_seq_from_x, is_ws, is_ws_x, lower, lower_char_x, seg_vec, skip_ws_from, skip_ws_from_x, split_lines, split_lines_x, str_to_chars, sviews, trim_seq, trim_vec, upper_char_x, vviews};

verus! {

/// The body of the first well-formed favorites list at or after `i`:
/// the key, whitespace, an opening bracket, and the text up to the first
/// closing bracket.
pub open spec fn fav_content(s: Seq<char>, i: int) -> Option<Seq<char>>
    decreases s.len() - i,
{
    if i < 0 || i > s.len() {
        None
    } else {
        let f0 = find_seq_from(s, ":favorites"@, i);
        let f = if f0 < i {
            i
        } else if f0 > s.len() {
            s.len() as int
        } else {
            f0
        };
        if f >= s.len() {
            None
        } else {
            let a = f + ":favorites"@.len();
            if a < s.len() && is_ws(s[a]) {
                let j = skip_ws_from(s, a);
                if j < s.len() && s[j] == '[' {
                    let e = find_from(s, ']', j + 1);
                    if e < s.len() {
                        Some(s.subrange(j + 1, e))
                    } else {
                        fav_content(s, f + 1)
                    }
                } else {
                    fav_content(s, f + 1)
                }
            } else {
                fav_content(s, f + 1)
            }
        }
    }
}

/// The quoted entries of a favorites list, in order.
pub open spec fn fav_items(c: Seq<char>, i: int, acc: Seq<Seq<char>>) -> Seq<Seq<char>>
    decreases c.len() - i,
{
    if i < 0 || i >= c.len() {
        acc
    } else if c[i] == '"' {
        let q = find_from(c, '"', i + 1);
        if q > i + 1 && q < c.len() {
            fav_items(c, q + 1, acc.push(c.subrange(i + 1, q)))
        } else {
            fav_items(c, i + 1, acc)
        }
    } else {
        fav_items(c, i + 1, acc)
    }
}

/// The favorites the configuration text names, in order; empty when no
/// list is present.
pub open spec fn extract_favorites_spec(s: Seq<char>) -> Seq<Seq<char>> {
    match fav_content(s, 0) {
        Some(c) => fav_items(c, 0, Seq::empty()),
        None => Seq::empty(),
    }
}

/// Executable favorites-list search matching `fav_content`.
fn fav_content_x(s: &Vec<char>, i: usize) -> (r: Option<Vec<char>>)
    requires
        i <= s.len(),
    ensures
        match r {
            Some(c) => fav_content(s@, i as int) == Some(c@),
            None => fav_content(s@, i as int) is None,
        },
    decreases s.len() - i,
{
    let kw = str_to_chars(":favorites");
    let f = find_seq_from_x(s, &kw, i);
    if f >= s.len() {
        return None;
    }
    proof {
        crate::text::lemma_find_seq_from(s@, kw@, i as int);
    }
    let a = f + kw.len();
    if a < s.len() && is_ws_x(s[a]) {
        let j = skip_ws_from_x(s, a);
        if j < s.len() && s[j] == '[' {
            let e = find_from_x(s, ']', j + 1);
            if e < s.len() {
                Some(seg_vec(s, j + 1, e))
            } else {
                fav_content_x(s, f + 1)
            }
        } else {
            fav_content_x(s, f + 1)
        }
    } else {
        fav_content_x(s, f + 1)
    }
}

/// The favorites named in the configuration text, in order.
pub fn extract_favorites(content: &str) -> (r: Vec<String>)
    ensures
        sviews(r@) == extract_favorites_spec(content@),
{
    let s = str_to_chars(content);
    let mut acc: Vec<String> = Vec::new();
    assert(sviews(acc@) =~= Seq::<Seq<char>>::empty());
    match fav_content_x(&s, 0) {
        Some(c) => {
            let ghost cv = c@;
            let mut i: usize = 0;
            while i < c.len()
                invariant
                    i <= c.len(),
                    cv == c@,
                    fav_items(cv, 0, Seq::empty()) == fav_items(cv, i as int, sviews(acc@)),
                decreases c.len() - i,
            {
                let ghost i0 = i as int;
                if c[i] == '"' {
                    let q = find_from_x(&c, '"', i + 1);
                    if q > i + 1 && q < c.len() {
                        proof {
                            assert(fav_items(cv, i0, sviews(acc@)) == fav_items(
                                cv,
                                q + 1,
                                sviews(acc@).push(cv.subrange(i0 + 1, q as int)),
                            ));
                        }
                        let item = seg_vec(&c, i + 1, q);
                        let ghost before = sviews(acc@);
                        acc.push(chars_to_string(&item));
                        proof {
                            assert(sviews(acc@) =~= before.push(cv.subrange(i0 + 1, q as int)));
                        }
                        i = q + 1;
                    } else {
                        proof {
                            assert(fav_items(cv, i0, sviews(acc@)) == fav_items(
                                cv,
                                i0 + 1,
                                sviews(acc@),
                            ));
                        }
                        i += 1;
                    }
                } else {
                    proof {
                        assert(fav_items(cv, i0, sviews(acc@)) == fav_items(
                            cv,
                            i0 + 1,
                            sviews(acc@),
                        ));
                    }
                    i += 1;
                }
            }
        },
        None => {},
    }
    acc
}

/// A document name as a file slug: lowercased, spaces and slashes as
/// dashes, everything but letters, digits, dashes, underscores and full
/// stops dropped.
pub open spec fn slugify_spec(s: Seq<char>) -> Seq<char> {
    lower(s).map_values(
        |c: char|
            if c == ' ' || c == '/' {
                '-'
            } else {
                c
            },
    ).filter(|c: char| crate::text::is_word(c) || c == '-' || c == '.')
}

/// Turns a document name into a file slug.
pub fn slugify(name: &str) -> (r: String)
    ensures
        r@ == slugify_spec(name@),
{
    let v = str_to_chars(name);
    let ghost mapped = lower(v@).map_values(
        |c: char|
            if c == ' ' || c == '/' {
                '-'
            } else {
                c
            },
    );
    let mut out: Vec<char> = Vec::new();
    let mut i: usize = 0;
    while i < v.len()
        invariant
            i <= v.len(),
            mapped == lower(v@).map_values(
                |c: char|
                    if c == ' ' || c == '/' {
                        '-'
                    } else {
                        c
                    },
            ),
            mapped.len() == v@.len(),
            out@ =~= mapped.subrange(0, i as int).filter(
                |c: char| crate::text::is_word(c) || c == '-' || c == '.',
            ),
        decreases v.len() - i,
    {
        let ghost pre = mapped.subrange(0, i as int);
        let lc = lower_char_x(v[i]);
        let mc: char = if lc == ' ' || lc == '/' {
            '-'
        } else {
            lc
        };
        proof {
            assert(mapped[i as int] == mc);
        }
        let keep = ('0' <= mc && mc <= '9') || ('A' <= mc && mc <= 'Z') || ('a' <= mc && mc
            <= 'z') || mc == '_' || mc == '-' || mc == '.';
        if keep {
            out.push(mc);
        }
        proof {
            reveal(Seq::filter);
            assert(mapped.subrange(0, i + 1) =~= pre.push(mapped[i as int]));
            assert(pre.push(mapped[i as int]).drop_last() =~= pre);
            assert(pre.push(mapped[i as int]).last() == mapped[i as int]);
            assert(pre.push(mapped[i as int]).filter(
                |c: char| crate::text::is_word(c) || c == '-' || c == '.',
            ) == if crate::text::is_word(mapped[i as int]) || mapped[i as int] == '-'
                || mapped[i as int] == '.' {
                pre.filter(|c: char| crate::text::is_word(c) || c == '-' || c == '.').push(
                    mapped[i as int],
                )
            } else {
                pre.filter(|c: char| crate::text::is_word(c) || c == '-' || c == '.')
            });
            assert(out@ =~= mapped.subrange(0, i + 1).filter(
                |c: char| crate::text::is_word(c) || c == '-' || c == '.',
            ));
        }
        i += 1;
    }
    assert(mapped.subrange(0, mapped.len() as int) =~= mapped);
    chars_to_string(&out)
}

/// A comment line of the configuration: its trimmed form starts with a
/// semicolon.
pub open spec fn is_comment_line(l: Seq<char>) -> bool {
    let t = trim_seq(l);
    t.len() > 0 && t[0] == ';'
}

/// The value a keyed single-line directive carries on one line: the key,
/// found anywhere, followed by the given shape.
pub open spec fn home_of_line(l: Seq<char>, i: int) -> Option<Seq<char>>
    decreases l.len() - i,
{
    if i < 0 || i > l.len() {
        None
    } else {
        let f0 = find_seq_from(l, ":default-home"@, i);
        let f = if f0 < i {
            i
        } else if f0 > l.len() {
            l.len() as int
        } else {
            f0
        };
        if f >= l.len() {
            None
        } else {
            let a = f + ":default-home"@.len();
            if a < l.len() && is_ws(l[a]) {
                let j = skip_ws_from(l, a);
                if j < l.len() && l[j] == '{' {
                    let p = find_seq_from(l, ":page"@, j + 1);
                    let close = find_from(l, '}', j + 1);
                    if 0 <= p < l.len() && p < close {
                        let b = p + ":page"@.len();
                        if b < l.len() && is_ws(l[b]) {
                            let qs = skip_ws_from(l, b);
                            if qs < l.len() && l[qs] == '"' {
                                let qe = find_from(l, '"', qs + 1);
                                if qe > qs + 1 && qe < l.len() {
                                    Some(l.subrange(qs + 1, qe))
                                } else {
                                    home_of_line(l, f + 1)
                                }
                            } else {
                                home_of_line(l, f + 1)
                            }
                        } else {
                            home_of_line(l, f + 1)
                        }
                    } else {
                        home_of_line(l, f + 1)
                    }
                } else {
                    home_of_line(l, f + 1)
                }
            } else {
                home_of_line(l, f + 1)
            }
        }
    }
}

/// The default home page of the configuration text: the first
/// non-comment line carrying the directive yields its page name.
pub open spec fn default_home_spec(ls: Seq<Seq<char>>, i: int) -> Option<Seq<char>>
    decreases ls.len() - i,
{
    if i < 0 || i >= ls.len() {
        None
    } else if !is_comment_line(ls[i]) && home_of_line(ls[i], 0) is Some {
        home_of_line(ls[i], 0)
    } else {
        default_home_spec(ls, i + 1)
    }
}

/// The value a site-title directive carries on one line.
pub open spec fn title_of_line(l: Seq<char>, i: int) -> Option<Seq<char>>
    decreases l.len() - i,
{
    if i < 0 || i > l.len() {
        None
    } else {
        let f0 = find_seq_from(l, ":meta/title"@, i);
        let f = if f0 < i {
            i
        } else if f0 > l.len() {
            l.len() as int
        } else {
            f0
        };
        if f >= l.len() {
            None
        } else {
            let a = f + ":meta/title"@.len();
            if a < l.len() && is_ws(l[a]) {
                let qs = skip_ws_from(l, a);
                if qs < l.len() && l[qs] == '"' {
                    let qe = find_from(l, '"', qs + 1);
                    if qe > qs + 1 && qe < l.len() {
                        Some(l.subrange(qs + 1, qe))
                    } else {
                        title_of_line(l, f + 1)
                    }
                } else {
                    title_of_line(l, f + 1)
                }
            } else {
                title_of_line(l, f + 1)
            }
        }
    }
}

/// The site title of the configuration text: the first non-comment line
/// carrying the title directive, or failing that the default home page.
pub open spec fn site_title_lines(ls: Seq<Seq<char>>, i: int) -> Option<Seq<char>>
    decreases ls.len() - i,
{
    if i < 0 || i >= ls.len() {
        None
    } else if !is_comment_line(ls[i]) && title_of_line(ls[i], 0) is Some {
        title_of_line(ls[i], 0)
    } else {
        site_title_lines(ls, i + 1)
    }
}

/// The site title of the configuration text.
pub open spec fn site_title_spec(s: Seq<char>) -> Option<Seq<char>> {
    match site_title_lines(split_lines(s), 0) {
        Some(t) => Some(t),
        None => default_home_spec(split_lines(s), 0),
    }
}

/// Executable home directive parse matching `home_of_line`.
fn home_of_line_x(l: &Vec<char>, i: usize) -> (r: Option<Vec<char>>)
    requires
        i <= l.len(),
    ensures
        match r {
            Some(v) => home_of_line(l@, i as int) == Some(v@),
            None => home_of_line(l@, i as int) is None,
        },
    decreases l.len() - i,
{
    let kw = str_to_chars(":default-home");
    let f = find_seq_from_x(l, &kw, i);
    if f >= l.len() {
        return None;
    }
    proof {
        crate::text::lemma_find_seq_from(l@, kw@, i as int);
    }
    let a = f + kw.len();
    if a < l.len() && is_ws_x(l[a]) {
        let j = skip_ws_from_x(l, a);
        if j < l.len() && l[j] == '{' {
            let pg = str_to_chars(":page");
            let p = find_seq_from_x(l, &pg, j + 1);
            let close = find_from_x(l, '}', j + 1);
            if p < l.len() && p < close {
                proof {
                    crate::text::lemma_find_seq_from(l@, pg@, j + 1);
                }
                let b = p + pg.len();
                if b < l.len() && is_ws_x(l[b]) {
                    let qs = skip_ws_from_x(l, b);
                    if qs < l.len() && l[qs] == '"' {
                        let qe = find_from_x(l, '"', qs + 1);
                        if qe > qs + 1 && qe < l.len() {
                            Some(seg_vec(l, qs + 1, qe))
                        } else {
                            home_of_line_x(l, f + 1)
                        }
                    } else {
                        home_of_line_x(l, f + 1)
                    }
                } else {
                    home_of_line_x(l, f + 1)
                }
            } else {
                home_of_line_x(l, f + 1)
            }
        } else {
            home_of_line_x(l, f + 1)
        }
    } else {
        home_of_line_x(l, f + 1)
    }
}

/// Executable title directive parse matching `title_of_line`.
fn title_of_line_x(l: &Vec<char>, i: usize) -> (r: Option<Vec<char>>)
    requires
        i <= l.len(),
    ensures
        match r {
            Some(v) => title_of_line(l@, i as int) == Some(v@),
            None => title_of_line(l@, i as int) is None,
        },
    decreases l.len() - i,
{
    let kw = str_to_chars(":meta/title");
    let f = find_seq_from_x(l, &kw, i);
    if f >= l.len() {
        return None;
    }
    proof {
        crate::text::lemma_find_seq_from(l@, kw@, i as int);
    }
    let a = f + kw.len();
    if a < l.len() && is_ws_x(l[a]) {
        let qs = skip_ws_from_x(l, a);
        if qs < l.len() && l[qs] == '"' {
            let qe = find_from_x(l, '"', qs + 1);
            if qe > qs + 1 && qe < l.len() {
                Some(seg_vec(l, qs + 1, qe))
            } else {
                title_of_line_x(l, f + 1)
            }
        } else {
            title_of_line_x(l, f + 1)
        }
    } else {
        title_of_line_x(l, f + 1)
    }
}

/// The default home page the configuration text names, skipping comment
/// lines.
pub fn get_default_home(content: &str) -> (r: Option<String>)
    ensures
        match r {
            Some(v) => default_home_spec(split_lines(content@), 0) == Some(v@),
            None => default_home_spec(split_lines(content@), 0) is None,
        },
{
    let cv = str_to_chars(content);
    let ls = split_lines_x(&cv);
    let ghost lsv = split_lines(content@);
    let mut i: usize = 0;
    while i < ls.len()
        invariant
            i <= ls@.len(),
            vviews(ls@) == lsv,
            lsv == split_lines(content@),
            default_home_spec(lsv, 0) == default_home_spec(lsv, i as int),
        decreases ls@.len() - i,
    {
        let ghost i0 = i as int;
        proof {
            assert(lsv[i0] == ls@[i0]@);
        }
        let t = trim_vec(&ls[i]);
        let comment = t.len() > 0 && t[0] == ';';
        if !comment {
            match home_of_line_x(&ls[i], 0) {
                Some(v) => {
                    proof {
                        assert(default_home_spec(lsv, i0) == home_of_line(lsv[i0], 0));
                    }
                    return Some(chars_to_string(&v));
                },
                None => {
                    proof {
                        assert(default_home_spec(lsv, i0) == default_home_spec(lsv, i0 + 1));
                    }
                },
            }
        } else {
            proof {
                assert(default_home_spec(lsv, i0) == default_home_spec(lsv, i0 + 1));
            }
        }
        i += 1;
    }
    None
}

/// The site title the configuration text names: the title directive, or
/// failing that the default home page.
pub fn get_site_title(content: &str) -> (r: Option<String>)
    ensures
        match r {
            Some(v) => site_title_spec(content@) == Some(v@),
            None => site_title_spec(content@) is None,
        },
{
    let cv = str_to_chars(content);
    let ls = split_lines_x(&cv);
    let ghost lsv = split_lines(content@);
    let mut i: usize = 0;
    while i < ls.len()
        invariant
            i <= ls@.len(),
            vviews(ls@) == lsv,
            lsv == split_lines(content@),
            site_title_lines(lsv, 0) == site_title_lines(lsv, i as int),
        decreases ls@.len() - i,
    {
        let ghost i0 = i as int;
        proof {
            assert(lsv[i0] == ls@[i0]@);
        }
        let t = trim_vec(&ls[i]);
        let comment = t.len() > 0 && t[0] == ';';
        if !comment {
            match title_of_line_x(&ls[i], 0) {
                Some(v) => {
                    proof {
                        assert(site_title_lines(lsv, i0) == title_of_line(lsv[i0], 0));
                    }
                    return Some(chars_to_string(&v));
                },
                None => {
                    proof {
                        assert(site_title_lines(lsv, i0) == site_title_lines(lsv, i0 + 1));
                    }
                },
            }
        } else {
            proof {
                assert(site_title_lines(lsv, i0) == site_title_lines(lsv, i0 + 1));
            }
        }
        i += 1;
    }
    assert(site_title_lines(lsv, 0) is None);
    get_default_home(content)
}

/// Site settings derived from the workspace configuration.
pub struct SiteConfig {
    /// The site's display title, capitalized.
    pub page_title: String,
    /// The home page's document name.
    pub home_page: String,
}

/// A string with its first character uppercased.
pub fn capitalize_first(s: &str) -> (r: String)
    ensures
        r@ == crate::lines::cap_word(s@),
{
    let v = str_to_chars(s);
    if v.len() == 0 {
        chars_to_string(&Vec::new())
    } else {
        let mut out: Vec<char> = Vec::new();
        out.push(upper_char_x(v[0]));
        crate::text::push_seg(&mut out, &v, 1, v.len());
        assert(out@ =~= crate::lines::cap_word(s@));
        chars_to_string(&out)
    }
}

/// The site settings the configuration text yields: the home page or a
/// fixed fallback, the title or the home page, capitalized.
pub fn build_site_config(content: &str) -> (r: SiteConfig)
    ensures
        r.home_page@ == (match default_home_spec(split_lines(content@), 0) {
            Some(h) => h,
            None => "index"@,
        }),
        r.page_title@ == crate::lines::cap_word(
            match site_title_spec(content@) {
                Some(t) => t,
                None => match default_home_spec(split_lines(content@), 0) {
                    Some(h) => h,
                    None => "index"@,
                },
            },
        ),
{
    let home: String = match get_default_home(content) {
        Some(h) => h,
        None => crate::page::clone_string_of_str("index"),
    };
    let title: String = match get_site_title(content) {
        Some(t) => t,
        None => crate::page::clone_string(&home),
    };
    SiteConfig { page_title: capitalize_first(title.as_str()), home_page: home }
}

/// The icon a document's text names, when one of its first twenty lines
/// carries an icon property or field.
pub open spec fn icon_lines(ls: Seq<Seq<char>>, i: int) -> Option<Seq<char>>
    decreases ls.len() - i,
{
    if i < 0 || i >= ls.len() || i >= 20 {
        None
    } else {
        let c = crate::page::clean_line(ls[i]);
        if at(c, 0, "icon::"@) {
            Some(trim_seq(c.skip("icon::"@.len() as int)))
        } else if at(c, 0, "icon:"@) {
            Some(
                crate::text::strip_all_suffix(
                    crate::text::strip_all_prefix(trim_seq(c.skip("icon:"@.len() as int)), "\""@),
                    "\""@,
                ),
            )
        } else {
            icon_lines(ls, i + 1)
        }
    }
}

/// The icon a document's text names, searching its first twenty lines.
pub fn get_page_icon(content: &str) -> (r: Option<String>)
    ensures
        match r {
            Some(v) => icon_lines(split_lines(content@), 0) == Some(v@),
            None => icon_lines(split_lines(content@), 0) is None,
        },
{
    let cv = str_to_chars(content);
    let ls = split_lines_x(&cv);
    let ghost lsv = split_lines(content@);
    let p1 = str_to_chars("icon::");
    let p2 = str_to_chars("icon:");
    let qq = str_to_chars("\"");
    let mut i: usize = 0;
    while i < ls.len() && i < 20
        invariant
            i <= ls@.len(),
            i <= 20,
            vviews(ls@) == lsv,
            lsv == split_lines(content@),
            p1@ == "icon::"@,
            p2@ == "icon:"@,
            qq@ == "\""@,
            icon_lines(lsv, 0) == icon_lines(lsv, i as int),
        decreases ls@.len() - i,
    {
        let ghost i0 = i as int;
        proof {
            assert(lsv[i0] == ls@[i0]@);
        }
        let c = crate::page::clean_line_x(&ls[i]);
        if at_x(&c, 0, &p1) {
            let rest = seg_vec(&c, p1.len(), c.len());
            assert(rest@ =~= crate::page::clean_line(lsv[i0]).skip("icon::"@.len() as int));
            let v = trim_vec(&rest);
            proof {
                assert(icon_lines(lsv, i0) == Some(v@));
            }
            return Some(chars_to_string(&v));
        } else if at_x(&c, 0, &p2) {
            let rest = seg_vec(&c, p2.len(), c.len());
            assert(rest@ =~= crate::page::clean_line(lsv[i0]).skip("icon:"@.len() as int));
            let t = trim_vec(&rest);
            let v = crate::text::strip_all_suffix_x(&crate::text::strip_all_prefix_x(&t, &qq), &qq);
            proof {
                assert(icon_lines(lsv, i0) == Some(v@));
            }
            return Some(chars_to_string(&v));
        } else {
            proof {
                assert(icon_lines(lsv, i0) == icon_lines(lsv, i0 + 1));
            }
        }
        i += 1;
    }
    proof {
        if i < ls.len() {
            assert(icon_lines(lsv, i as int) is None);
        }
    }
    None
}

} // verus!
