//! The link resolver: maps the written text of a cross-reference to the
//! canonical name of the document it points at, trying exact name match,
//! alias match, namespace-alias expansion and longest-prefix match in that
//! order, and the rewrite pass that applies it to every bracket link of a
//! text.

use vstd::prelude::*;
use crate::page::Page;
use crate::text::{Cls, at, at_x, chars_to_string, eq_vecs, find_from, find_from_x, lower, lower_vec, push_all, push_str_chars, scan_while, scan_while_x, seg_vec, str_to_chars};

verus! {

/// Spaces and underscores turned into dashes: the normalized form names
/// are compared in.
pub open spec fn dashify(s: Seq<char>) -> Seq<char> {
    s.map_values(
        |c: char|
            if c == ' ' || c == '_' {
                '-'
            } else {
                c
            },
    )
}

/// Dashes and underscores turned into spaces: the word form prefix
/// matching runs on.
pub open spec fn spacify(s: Seq<char>) -> Seq<char> {
    s.map_values(
        |c: char|
            if c == '-' || c == '_' {
                ' '
            } else {
                c
            },
    )
}

/// A page's name matches the link: equal lowercased, or equal after
/// normalizing spaces and underscores to dashes.
pub open spec fn name_matches(p: Page, link: Seq<char>) -> bool {
    lower(p.name@) == lower(link) || dashify(lower(p.name@)) == dashify(lower(link))
}

/// Some page of the index matches the link by name.
pub open spec fn some_name_matches(index: Seq<Page>, link: Seq<char>) -> bool {
    exists|i: int| 0 <= i < index.len() && name_matches(#[trigger] index[i], link)
}

/// Some alias of the page matches the link, lowercased or normalized.
pub open spec fn has_alias(p: Page, link: Seq<char>) -> bool {
    exists|j: int|
        0 <= j < p.aliases@.len() && (lower((#[trigger] p.aliases@[j])@) == lower(link) || dashify(
            lower(p.aliases@[j]@),
        ) == dashify(lower(link)))
}

/// The name of the first page, from `i` on, one of whose aliases matches
/// the link.
pub open spec fn alias_owner(index: Seq<Page>, link: Seq<char>, i: int) -> Option<Seq<char>>
    decreases index.len() - i,
{
    if i < 0 || i >= index.len() {
        None
    } else if has_alias(index[i], link) {
        Some(index[i].name@)
    } else {
        alias_owner(index, link, i + 1)
    }
}

/// Some alias of the page equals the prefix, lowercased.
pub open spec fn has_ns_alias(p: Page, prefix: Seq<char>) -> bool {
    exists|j: int| 0 <= j < p.aliases@.len() && lower((#[trigger] p.aliases@[j])@) == lower(prefix)
}

/// Some alias of the page equals the whole link, lowercased.
pub open spec fn has_link_alias(p: Page, link: Seq<char>) -> bool {
    exists|j: int| 0 <= j < p.aliases@.len() && lower((#[trigger] p.aliases@[j])@) == lower(link)
}

/// The name of the first page, from `t` on, whose name equals the expanded
/// link or one of whose aliases equals the original link.
pub open spec fn ns_target(
    index: Seq<Page>,
    expanded: Seq<char>,
    link: Seq<char>,
    t: int,
) -> Option<Seq<char>>
    decreases index.len() - t,
{
    if t < 0 || t >= index.len() {
        None
    } else if lower(index[t].name@) == lower(expanded) || has_link_alias(index[t], link) {
        Some(index[t].name@)
    } else {
        ns_target(index, expanded, link, t + 1)
    }
}

/// Namespace-alias expansion: for the first page, from `i` on, with an
/// alias equal to the link's prefix, look for a page matching that page's
/// name joined with the link's suffix; keep looking when none matches.
pub open spec fn ns_scan(
    index: Seq<Page>,
    prefix: Seq<char>,
    suffix: Seq<char>,
    link: Seq<char>,
    i: int,
) -> Option<Seq<char>>
    decreases index.len() - i,
{
    if i < 0 || i >= index.len() {
        None
    } else if has_ns_alias(index[i], prefix) {
        match ns_target(index, index[i].name@ + seq!['/'] + suffix, link, 0) {
            Some(n) => Some(n),
            None => ns_scan(index, prefix, suffix, link, i + 1),
        }
    } else {
        ns_scan(index, prefix, suffix, link, i + 1)
    }
}

/// The page name, in word form, is a strict prefix of the link's word form
/// followed by a space.
pub open spec fn word_prefix(words: Seq<char>, pw: Seq<char>) -> bool {
    words.len() > pw.len() && words.subrange(0, pw.len() as int) == pw && words[pw.len() as int]
        == ' '
}

/// The name of the page with the longest word-form prefix of the link's
/// word form; the first such page wins a tie.
pub open spec fn best_prefix(
    index: Seq<Page>,
    words: Seq<char>,
    i: int,
    best_len: int,
    best: Option<Seq<char>>,
) -> Option<Seq<char>>
    decreases index.len() - i,
{
    if i < 0 || i >= index.len() {
        best
    } else {
        let pw = spacify(lower(index[i].name@));
        if word_prefix(words, pw) && pw.len() > best_len {
            best_prefix(index, words, i + 1, pw.len() as int, Some(index[i].name@))
        } else {
            best_prefix(index, words, i + 1, best_len, best)
        }
    }
}

/// The canonical name the resolver maps a link to.  Strategies in order,
/// first hit wins: exact name match returns the link unchanged; an alias
/// match returns the owner's name; a namespace-alias expansion returns the
/// expanded target's name; a longest-prefix match returns the longest
/// matching name; otherwise the link comes back unchanged.
pub open spec fn resolve_spec(index: Seq<Page>, link: Seq<char>) -> Seq<char> {
    if some_name_matches(index, link) {
        link
    } else {
        match alias_owner(index, link, 0) {
            Some(n) => n,
            None => {
                let slash = find_from(link, '/', 0);
                let ns_res = if 0 <= slash < link.len() {
                    ns_scan(
                        index,
                        link.subrange(0, slash),
                        link.subrange(slash + 1, link.len() as int),
                        link,
                        0,
                    )
                } else {
                    None
                };
                match ns_res {
                    Some(n) => n,
                    None => match best_prefix(index, spacify(lower(link)), 0, 0, None) {
                        Some(n) => n,
                        None => link,
                    },
                }
            },
        }
    }
}

/// Executable dash normalization matching `dashify` after lowercasing.
fn norm_vec(v: &Vec<char>) -> (r: Vec<char>)
    ensures
        r@ == dashify(lower(v@)),
{
    let lv = lower_vec(v);
    let mut r: Vec<char> = Vec::new();
    let mut i: usize = 0;
    while i < lv.len()
        invariant
            i <= lv.len(),
            lv@ == lower(v@),
            r@ =~= dashify(lv@).subrange(0, i as int),
        decreases lv.len() - i,
    {
        let c = lv[i];
        if c == ' ' || c == '_' {
            r.push('-');
        } else {
            r.push(c);
        }
        i += 1;
        assert(r@ =~= dashify(lv@).subrange(0, i as int));
    }
    assert(r@ =~= dashify(lower(v@)));
    r
}

/// Executable word-form conversion matching `spacify` after lowercasing.
fn words_vec(v: &Vec<char>) -> (r: Vec<char>)
    ensures
        r@ == spacify(lower(v@)),
{
    let lv = lower_vec(v);
    let mut r: Vec<char> = Vec::new();
    let mut i: usize = 0;
    while i < lv.len()
        invariant
            i <= lv.len(),
            lv@ == lower(v@),
            r@ =~= spacify(lv@).subrange(0, i as int),
        decreases lv.len() - i,
    {
        let c = lv[i];
        if c == '-' || c == '_' {
            r.push(' ');
        } else {
            r.push(c);
        }
        i += 1;
        assert(r@ =~= spacify(lv@).subrange(0, i as int));
    }
    assert(r@ =~= spacify(lower(v@)));
    r
}

/// Executable name match test matching `name_matches`.
fn name_matches_x(p: &Page, link_l: &Vec<char>, link_n: &Vec<char>, link: &Vec<char>) -> (r: bool)
    requires
        link_l@ == lower(link@),
        link_n@ == dashify(lower(link@)),
    ensures
        r == name_matches(*p, link@),
{
    let nv = str_to_chars(p.name.as_str());
    let nl = lower_vec(&nv);
    if eq_vecs(&nl, link_l) {
        return true;
    }
    let nn = norm_vec(&nv);
    eq_vecs(&nn, link_n)
}

/// Executable alias match test matching `has_alias`.
fn has_alias_x(p: &Page, link_l: &Vec<char>, link_n: &Vec<char>, link: &Vec<char>) -> (r: bool)
    requires
        link_l@ == lower(link@),
        link_n@ == dashify(lower(link@)),
    ensures
        r == has_alias(*p, link@),
{
    let mut j: usize = 0;
    while j < p.aliases.len()
        invariant
            j <= p.aliases@.len(),
            link_l@ == lower(link@),
            link_n@ == dashify(lower(link@)),
            forall|k: int|
                0 <= k < j ==> !(lower((#[trigger] p.aliases@[k])@) == lower(link@) || dashify(
                    lower(p.aliases@[k]@),
                ) == dashify(lower(link@))),
        decreases p.aliases@.len() - j,
    {
        let av = str_to_chars(p.aliases[j].as_str());
        let al = lower_vec(&av);
        if eq_vecs(&al, link_l) {
            return true;
        }
        let an = norm_vec(&av);
        if eq_vecs(&an, link_n) {
            return true;
        }
        j += 1;
    }
    false
}

/// Executable lowercase-only alias test matching `has_ns_alias`.
fn has_ns_alias_x(p: &Page, prefix_l: &Vec<char>, prefix: &Vec<char>) -> (r: bool)
    requires
        prefix_l@ == lower(prefix@),
    ensures
        r == has_ns_alias(*p, prefix@),
{
    let mut j: usize = 0;
    while j < p.aliases.len()
        invariant
            j <= p.aliases@.len(),
            prefix_l@ == lower(prefix@),
            forall|k: int| 0 <= k < j ==> lower((#[trigger] p.aliases@[k])@) != lower(prefix@),
        decreases p.aliases@.len() - j,
    {
        let av = str_to_chars(p.aliases[j].as_str());
        let al = lower_vec(&av);
        if eq_vecs(&al, prefix_l) {
            return true;
        }
        j += 1;
    }
    false
}

/// Executable target scan matching `ns_target`.
fn ns_target_x(
    index: &Vec<Page>,
    expanded_l: &Vec<char>,
    link_l: &Vec<char>,
    expanded: &Vec<char>,
    link: &Vec<char>,
) -> (r: Option<String>)
    requires
        expanded_l@ == lower(expanded@),
        link_l@ == lower(link@),
    ensures
        match r {
            Some(n) => ns_target(index@, expanded@, link@, 0) == Some(n@),
            None => ns_target(index@, expanded@, link@, 0) is None,
        },
{
    let mut t: usize = 0;
    while t < index.len()
        invariant
            t <= index@.len(),
            expanded_l@ == lower(expanded@),
            link_l@ == lower(link@),
            ns_target(index@, expanded@, link@, 0) == ns_target(index@, expanded@, link@, t as int),
        decreases index@.len() - t,
    {
        let ghost t0 = t as int;
        let p = &index[t];
        let nv = str_to_chars(p.name.as_str());
        let nl = lower_vec(&nv);
        let name_hit = eq_vecs(&nl, expanded_l);
        let alias_hit = if name_hit {
            false
        } else {
            has_link_alias_x(p, link_l, link)
        };
        if name_hit || alias_hit {
            proof {
                assert(ns_target(index@, expanded@, link@, t0) == Some(index@[t0].name@));
            }
            return Some(crate::page::clone_string(&p.name));
        }
        proof {
            assert(ns_target(index@, expanded@, link@, t0) == ns_target(
                index@,
                expanded@,
                link@,
                t0 + 1,
            ));
        }
        t += 1;
    }
    None
}

/// Executable whole-link alias test matching `has_link_alias`.
fn has_link_alias_x(p: &Page, link_l: &Vec<char>, link: &Vec<char>) -> (r: bool)
    requires
        link_l@ == lower(link@),
    ensures
        r == has_link_alias(*p, link@),
{
    let mut j: usize = 0;
    while j < p.aliases.len()
        invariant
            j <= p.aliases@.len(),
            link_l@ == lower(link@),
            forall|k: int| 0 <= k < j ==> lower((#[trigger] p.aliases@[k])@) != lower(link@),
        decreases p.aliases@.len() - j,
    {
        let av = str_to_chars(p.aliases[j].as_str());
        let al = lower_vec(&av);
        if eq_vecs(&al, link_l) {
            return true;
        }
        j += 1;
    }
    false
}

/// Resolves a written link to the canonical page name, exactly as
/// `resolve_spec` states.
pub fn find_best_page_match(link: &str, index: &Vec<Page>) -> (r: String)
    ensures
        r@ == resolve_spec(index@, link@),
{
    let lv = str_to_chars(link);
    let link_l = lower_vec(&lv);
    let link_n = norm_vec(&lv);

    let mut i: usize = 0;
    while i < index.len()
        invariant
            i <= index@.len(),
            link_l@ == lower(lv@),
            link_n@ == dashify(lower(lv@)),
            lv@ == link@,
            forall|k: int| 0 <= k < i ==> !name_matches(#[trigger] index@[k], link@),
        decreases index@.len() - i,
    {
        if name_matches_x(&index[i], &link_l, &link_n, &lv) {
            assert(some_name_matches(index@, link@));
            return chars_to_string(&lv);
        }
        i += 1;
    }
    assert(!some_name_matches(index@, link@));

    let mut i: usize = 0;
    while i < index.len()
        invariant
            i <= index@.len(),
            link_l@ == lower(lv@),
            link_n@ == dashify(lower(lv@)),
            lv@ == link@,
            !some_name_matches(index@, link@),
            alias_owner(index@, link@, 0) == alias_owner(index@, link@, i as int),
        decreases index@.len() - i,
    {
        let ghost i0 = i as int;
        if has_alias_x(&index[i], &link_l, &link_n, &lv) {
            proof {
                assert(alias_owner(index@, link@, i0) == Some(index@[i0].name@));
                assert(resolve_spec(index@, link@) == index@[i0].name@);
            }
            return crate::page::clone_string(&index[i].name);
        }
        proof {
            assert(alias_owner(index@, link@, i0) == alias_owner(index@, link@, i0 + 1));
        }
        i += 1;
    }
    assert(alias_owner(index@, link@, 0) is None);

    let slash = find_from_x(&lv, '/', 0);
    if slash < lv.len() {
        let prefix = seg_vec(&lv, 0, slash);
        let suffix = seg_vec(&lv, slash + 1, lv.len());
        let prefix_l = lower_vec(&prefix);
        let mut i: usize = 0;
        while i < index.len()
            invariant
                i <= index@.len(),
                lv@ == link@,
                link_l@ == lower(lv@),
                !some_name_matches(index@, link@),
                alias_owner(index@, link@, 0) is None,
                slash == find_from(link@, '/', 0),
                slash < link@.len(),
                prefix@ == link@.subrange(0, slash as int),
                suffix@ == link@.subrange(slash + 1, link@.len() as int),
                prefix_l@ == lower(prefix@),
                ns_scan(index@, prefix@, suffix@, link@, 0) == ns_scan(
                    index@,
                    prefix@,
                    suffix@,
                    link@,
                    i as int,
                ),
            decreases index@.len() - i,
        {
            let ghost i0 = i as int;
            if has_ns_alias_x(&index[i], &prefix_l, &prefix) {
                let mut expanded = str_to_chars(index[i].name.as_str());
                expanded.push('/');
                push_all(&mut expanded, &suffix);
                assert(expanded@ =~= index@[i0].name@ + seq!['/'] + suffix@);
                let expanded_l = lower_vec(&expanded);
                match ns_target_x(index, &expanded_l, &link_l, &expanded, &lv) {
                    Some(n) => {
                        proof {
                            assert(ns_scan(index@, prefix@, suffix@, link@, i0) == Some(n@));
                            assert(ns_scan(index@, prefix@, suffix@, link@, 0) == Some(n@));
                            assert(resolve_spec(index@, link@) == n@);
                        }
                        return n;
                    },
                    None => {
                        proof {
                            assert(ns_scan(index@, prefix@, suffix@, link@, i0) == ns_scan(
                                index@,
                                prefix@,
                                suffix@,
                                link@,
                                i0 + 1,
                            ));
                        }
                    },
                }
            } else {
                proof {
                    assert(ns_scan(index@, prefix@, suffix@, link@, i0) == ns_scan(
                        index@,
                        prefix@,
                        suffix@,
                        link@,
                        i0 + 1,
                    ));
                }
            }
            i += 1;
        }
        assert(ns_scan(index@, prefix@, suffix@, link@, 0) is None);
    }

    let words = words_vec(&lv);
    let mut best: Option<String> = None;
    let mut best_len: usize = 0;
    let ghost mut best_v: Option<Seq<char>> = None;
    let mut i: usize = 0;
    while i < index.len()
        invariant
            i <= index@.len(),
            lv@ == link@,
            words@ == spacify(lower(link@)),
            best_prefix(index@, words@, 0, 0, None) == best_prefix(
                index@,
                words@,
                i as int,
                best_len as int,
                best_v,
            ),
            match best {
                Some(ref b) => best_v is Some && best_v->0 == b@,
                None => best_v is None,
            },
        decreases index@.len() - i,
    {
        let ghost i0 = i as int;
        let p = &index[i];
        let nv = str_to_chars(p.name.as_str());
        let pw = words_vec(&nv);
        let hit = if words.len() > pw.len() && pw.len() > best_len {
            let head = seg_vec(&words, 0, pw.len());
            eq_vecs(&head, &pw) && words[pw.len()] == ' '
        } else {
            false
        };
        if hit {
            proof {
                assert(word_prefix(words@, spacify(lower(index@[i0].name@))));
                assert(best_prefix(index@, words@, i0, best_len as int, best_v) == best_prefix(
                    index@,
                    words@,
                    i0 + 1,
                    spacify(lower(index@[i0].name@)).len() as int,
                    Some(index@[i0].name@),
                ));
            }
            best = Some(crate::page::clone_string(&p.name));
            best_len = pw.len();
            proof {
                best_v = Some(index@[i0].name@);
            }
        } else {
            proof {
                assert(!(word_prefix(words@, spacify(lower(index@[i0].name@))) && spacify(
                    lower(index@[i0].name@),
                ).len() > best_len));
                assert(best_prefix(index@, words@, i0, best_len as int, best_v) == best_prefix(
                    index@,
                    words@,
                    i0 + 1,
                    best_len as int,
                    best_v,
                ));
            }
        }
        i += 1;
    }
    match best {
        Some(b) => b,
        None => chars_to_string(&lv),
    }
}


/// The rewritten form of one bracket link: a redundant root prefix is
/// stripped, the resolver maps the text to a canonical name, and when that
/// changed the text and no display alias was written, the original text
/// becomes the display alias.
pub open spec fn link_out(index: Seq<Page>, link: Seq<char>, alias: Seq<char>) -> Seq<char> {
    let clean = if at(link, 0, "pages/"@) {
        link.skip("pages/"@.len() as int)
    } else {
        link
    };
    let fin = resolve_spec(index, clean);
    if fin != clean && alias.len() == 0 {
        "[["@ + fin + "|"@ + clean + "]]"@
    } else {
        "[["@ + fin + alias + "]]"@
    }
}

/// Where a bracket link stands at `i` of `s`: the first position after it
/// and its rewritten form.  The alias part, when present, is kept with its
/// pipe.
pub open spec fn wikilink_match(index: Seq<Page>, s: Seq<char>, i: int) -> Option<
    (int, Seq<char>),
> {
    if at(s, i, "[["@) {
        let c0 = i + "[["@.len();
        let e0 = scan_while(s, Cls::LinkText, c0);
        let e = if e0 < c0 {
            c0
        } else if e0 > s.len() {
            s.len() as int
        } else {
            e0
        };
        if e > c0 && e < s.len() && s[e] == '|' {
            let a = find_from(s, ']', e + 1);
            if a + 1 < s.len() && s[a + 1] == ']' {
                Some((a + 2, link_out(index, s.subrange(c0, e), s.subrange(e, a))))
            } else {
                None
            }
        } else if e > c0 && e + 1 < s.len() && s[e] == ']' && s[e + 1] == ']' {
            Some((e + 2, link_out(index, s.subrange(c0, e), Seq::empty())))
        } else {
            None
        }
    } else {
        None
    }
}

/// The text of `s` from `i` on with every bracket link rewritten through
/// the resolver.
pub open spec fn rewrite_links_from(index: Seq<Page>, s: Seq<char>, i: int) -> Seq<char>
    decreases s.len() - i when 0 <= i <= s.len()
{
    if i < 0 || i >= s.len() {
        Seq::empty()
    } else {
        match wikilink_match(index, s, i) {
            Some((e, rep)) => {
                if i < e <= s.len() {
                    rep + rewrite_links_from(index, s, e)
                } else {
                    seq![s[i]] + rewrite_links_from(index, s, i + 1)
                }
            },
            None => seq![s[i]] + rewrite_links_from(index, s, i + 1),
        }
    }
}

/// Executable link rewriting matching `link_out`.
fn link_out_x(index: &Vec<Page>, link: &Vec<char>, alias: &Vec<char>) -> (r: Vec<char>)
    ensures
        r@ == link_out(index@, link@, alias@),
{
    let pp = str_to_chars("pages/");
    let clean: Vec<char> = if at_x(link, 0, &pp) {
        let c = seg_vec(link, pp.len(), link.len());
        assert(c@ =~= link@.skip("pages/"@.len() as int));
        c
    } else {
        let c = seg_vec(link, 0, link.len());
        assert(c@ =~= link@);
        c
    };
    let cs = chars_to_string(&clean);
    let fin_s = find_best_page_match(cs.as_str(), index);
    let fin = str_to_chars(fin_s.as_str());
    let changed = !eq_vecs(&fin, &clean);
    let mut r = str_to_chars("[[");
    push_all(&mut r, &fin);
    if changed && alias.len() == 0 {
        push_str_chars(&mut r, "|");
        push_all(&mut r, &clean);
        push_str_chars(&mut r, "]]");
        assert(r@ =~= "[["@ + fin@ + "|"@ + clean@ + "]]"@);
    } else {
        push_all(&mut r, alias);
        push_str_chars(&mut r, "]]");
        assert(r@ =~= "[["@ + fin@ + alias@ + "]]"@);
    }
    r
}

/// Executable bracket-link matcher matching `wikilink_match`.
fn try_wikilink(index: &Vec<Page>, v: &Vec<char>, i: usize) -> (r: Option<(usize, Vec<char>)>)
    requires
        i < v.len(),
    ensures
        match r {
            Some(p) => wikilink_match(index@, v@, i as int) == Some((p.0 as int, p.1@)) && i < p.0
                && p.0 <= v.len(),
            None => wikilink_match(index@, v@, i as int) is None,
        },
{
    let br = str_to_chars("[[");
    if !at_x(v, i, &br) {
        return None;
    }
    proof {
        reveal_strlit("[[");
    }
    let c0 = i + 2;
    let e = scan_while_x(v, Cls::LinkText, c0);
    if e > c0 && e < v.len() && v[e] == '|' {
        let a = find_from_x(v, ']', e + 1);
        if v.len() - a > 1 && v[a + 1] == ']' {
            let link = seg_vec(v, c0, e);
            let alias = seg_vec(v, e, a);
            let rep = link_out_x(index, &link, &alias);
            Some((a + 2, rep))
        } else {
            None
        }
    } else if e > c0 && v.len() - e > 1 && v[e] == ']' && v[e + 1] == ']' {
        let link = seg_vec(v, c0, e);
        let alias: Vec<char> = Vec::new();
        let rep = link_out_x(index, &link, &alias);
        assert(alias@ =~= Seq::<char>::empty());
        Some((e + 2, rep))
    } else {
        None
    }
}

/// Rewrites every bracket link of the text through the resolver: the
/// result is exactly `rewrite_links_from` over the whole text.
pub fn apply_links(index: &Vec<Page>, v: &Vec<char>) -> (r: Vec<char>)
    ensures
        r@ == rewrite_links_from(index@, v@, 0),
{
    let mut out: Vec<char> = Vec::new();
    let mut i: usize = 0;
    while i < v.len()
        invariant
            i <= v.len(),
            rewrite_links_from(index@, v@, 0) =~= out@ + rewrite_links_from(index@, v@, i as int),
        decreases v.len() - i,
    {
        let ghost i0 = i as int;
        match try_wikilink(index, v, i) {
            Some((e, rep)) => {
                proof {
                    assert(rewrite_links_from(index@, v@, i0) =~= rep@ + rewrite_links_from(
                        index@,
                        v@,
                        e as int,
                    ));
                }
                push_all(&mut out, &rep);
                i = e;
            },
            None => {
                proof {
                    assert(rewrite_links_from(index@, v@, i0) =~= seq![v@[i0]]
                        + rewrite_links_from(index@, v@, i0 + 1));
                }
                let c = v[i];
                out.push(c);
                i += 1;
            },
        }
    }
    assert(rewrite_links_from(index@, v@, i as int) =~= Seq::<char>::empty());
    assert(out@ =~= out@ + Seq::<char>::empty());
    out
}


/// A document's own name always resolves to itself, never through an
/// alias: the exact-name strategy fires first and returns the written
/// text unchanged.
pub proof fn lemma_resolve_own_name(index: Seq<Page>, i: int)
    requires
        0 <= i < index.len(),
    ensures
        resolve_spec(index, index[i].name@) == index[i].name@,
{
    assert(name_matches(index[i], index[i].name@));
    assert(some_name_matches(index, index[i].name@));
}

/// Alias resolution is case-insensitive: two links with the same
/// lowercase form find the same alias owner.
pub proof fn lemma_alias_case_insensitive(index: Seq<Page>, l1: Seq<char>, l2: Seq<char>, k: int)
    requires
        lower(l1) == lower(l2),
    ensures
        alias_owner(index, l1, k) == alias_owner(index, l2, k),
    decreases index.len() - k,
{
    if 0 <= k < index.len() {
        assert(has_alias(index[k], l1) == has_alias(index[k], l2)) by {
            if has_alias(index[k], l1) {
                let j = choose|j: int|
                    0 <= j < index[k].aliases@.len() && (lower(
                        (#[trigger] index[k].aliases@[j])@,
                    ) == lower(l1) || dashify(lower(index[k].aliases@[j]@)) == dashify(lower(l1)));
                assert(lower(index[k].aliases@[j]@) == lower(l2) || dashify(
                    lower(index[k].aliases@[j]@),
                ) == dashify(lower(l2)));
            }
            if has_alias(index[k], l2) {
                let j = choose|j: int|
                    0 <= j < index[k].aliases@.len() && (lower(
                        (#[trigger] index[k].aliases@[j])@,
                    ) == lower(l2) || dashify(lower(index[k].aliases@[j]@)) == dashify(lower(l2)));
                assert(lower(index[k].aliases@[j]@) == lower(l1) || dashify(
                    lower(index[k].aliases@[j]@),
                ) == dashify(lower(l1)));
            }
        }
        lemma_alias_case_insensitive(index, l1, l2, k + 1);
    }
}

/// The final best length of the prefix scan.
pub open spec fn bp_final_len(index: Seq<Page>, words: Seq<char>, i: int, best_len: int) -> int
    decreases index.len() - i,
{
    if i < 0 || i >= index.len() {
        best_len
    } else {
        let pw = spacify(lower(index[i].name@));
        if word_prefix(words, pw) && pw.len() > best_len {
            bp_final_len(index, words, i + 1, pw.len() as int)
        } else {
            bp_final_len(index, words, i + 1, best_len)
        }
    }
}

/// The final best length never shrinks below the running one.
pub proof fn lemma_bp_final_len_ge(index: Seq<Page>, words: Seq<char>, i: int, best_len: int)
    ensures
        bp_final_len(index, words, i, best_len) >= best_len,
    decreases index.len() - i,
{
    if 0 <= i < index.len() {
        let pw = spacify(lower(index[i].name@));
        if word_prefix(words, pw) && pw.len() > best_len {
            lemma_bp_final_len_ge(index, words, i + 1, pw.len() as int);
        } else {
            lemma_bp_final_len_ge(index, words, i + 1, best_len);
        }
    }
}

/// The final best length dominates every matching page not yet scanned.
pub proof fn lemma_bp_final_len_dominates(
    index: Seq<Page>,
    words: Seq<char>,
    i: int,
    best_len: int,
    k: int,
)
    requires
        0 <= i <= k < index.len(),
        word_prefix(words, spacify(lower(index[k].name@))),
    ensures
        bp_final_len(index, words, i, best_len) >= spacify(lower(index[k].name@)).len(),
    decreases index.len() - i,
{
    let pw = spacify(lower(index[i].name@));
    if i == k {
        if word_prefix(words, pw) && pw.len() > best_len {
            lemma_bp_final_len_ge(index, words, i + 1, pw.len() as int);
        } else {
            lemma_bp_final_len_ge(index, words, i + 1, best_len);
        }
    } else {
        if word_prefix(words, pw) && pw.len() > best_len {
            lemma_bp_final_len_dominates(index, words, i + 1, pw.len() as int, k);
        } else {
            lemma_bp_final_len_dominates(index, words, i + 1, best_len, k);
        }
    }
}

/// The chosen name's word form has exactly the final best length, and it
/// is a true prefix match once any match was taken.
pub proof fn lemma_bp_result(
    index: Seq<Page>,
    words: Seq<char>,
    i: int,
    best_len: int,
    best: Option<Seq<char>>,
)
    requires
        0 <= i <= index.len(),
        match best {
            Some(nb) => spacify(lower(nb)).len() == best_len && word_prefix(
                words,
                spacify(lower(nb)),
            ),
            None => best_len == 0,
        },
    ensures
        match best_prefix(index, words, i, best_len, best) {
            Some(nr) => spacify(lower(nr)).len() == bp_final_len(index, words, i, best_len)
                && word_prefix(words, spacify(lower(nr))),
            None => bp_final_len(index, words, i, best_len) == best_len && best is None,
        },
    decreases index.len() - i,
{
    if i < index.len() {
        let pw = spacify(lower(index[i].name@));
        if word_prefix(words, pw) && pw.len() > best_len {
            lemma_bp_result(index, words, i + 1, pw.len() as int, Some(index[i].name@));
            assert(best_prefix(index, words, i, best_len, best) == best_prefix(
                index,
                words,
                i + 1,
                pw.len() as int,
                Some(index[i].name@),
            ));
            assert(bp_final_len(index, words, i, best_len) == bp_final_len(
                index,
                words,
                i + 1,
                pw.len() as int,
            ));
        } else {
            lemma_bp_result(index, words, i + 1, best_len, best);
            assert(best_prefix(index, words, i, best_len, best) == best_prefix(
                index,
                words,
                i + 1,
                best_len,
                best,
            ));
            assert(bp_final_len(index, words, i, best_len) == bp_final_len(
                index,
                words,
                i + 1,
                best_len,
            ));
        }
    }
}

/// Longest prefix wins: when any page's name, in word form, is a strict
/// prefix of the link's word form, the prefix-matching stage yields a
/// name at least as long in word form as every such page's.
pub proof fn lemma_longest_prefix_wins(index: Seq<Page>, words: Seq<char>, k: int)
    requires
        0 <= k < index.len(),
        index[k].wf(),
        word_prefix(words, spacify(lower(index[k].name@))),
    ensures
        best_prefix(index, words, 0, 0, None) is Some,
        spacify(lower(best_prefix(index, words, 0, 0, None)->0)).len() >= spacify(
            lower(index[k].name@),
        ).len(),
{
    lemma_bp_result(index, words, 0, 0, None);
    lemma_bp_final_len_dominates(index, words, 0, 0, k);
    if best_prefix(index, words, 0, 0, None) is None {
        assert(bp_final_len(index, words, 0, 0) == 0);
        assert(spacify(lower(index[k].name@)).len() == index[k].name@.len());
        assert(index[k].name@.len() > 0);
        assert(false);
    }
}

} // verus!
