//! Frontmatter generation: the YAML block an output document starts with,
//! built from a document's parsed properties.

use vstd::prelude::*;
use crate::text::{chars_to_string, plookup, plookup_x, push_all, push_str_chars, pviews, split_char, split_char_x, str_to_chars, strip_all_prefix, strip_all_prefix_x, strip_all_suffix, strip_all_suffix_x, sviews, trim_seq, trim_vec, vviews};

verus! {

/// Alias splitting: commas separate aliases, except inside a bracket-link
/// span; the bracket pairs themselves are dropped; each alias is trimmed
/// and empty ones are skipped.
pub open spec fn alias_rec(
    s: Seq<char>,
    i: int,
    inw: bool,
    cur: Seq<char>,
    acc: Seq<Seq<char>>,
) -> Seq<Seq<char>>
    decreases s.len() - i,
{
    if i < 0 || i >= s.len() {
        if trim_seq(cur).len() > 0 {
            acc.push(trim_seq(cur))
        } else {
            acc
        }
    } else if s[i] == '[' && i + 1 < s.len() && s[i + 1] == '[' {
        alias_rec(s, i + 2, true, cur, acc)
    } else if s[i] == ']' && i + 1 < s.len() && s[i + 1] == ']' {
        alias_rec(s, i + 2, false, cur, acc)
    } else if s[i] == ',' && !inw {
        alias_rec(
            s,
            i + 1,
            inw,
            Seq::empty(),
            if trim_seq(cur).len() > 0 {
                acc.push(trim_seq(cur))
            } else {
                acc
            },
        )
    } else {
        alias_rec(s, i + 1, inw, cur.push(s[i]), acc)
    }
}

/// The aliases of an alias property value.
pub open spec fn parse_aliases_spec(s: Seq<char>) -> Seq<Seq<char>> {
    alias_rec(s, 0, false, Seq::empty(), Seq::empty())
}

/// Splits an alias property value into aliases, respecting bracket-link
/// spans.
pub fn parse_aliases(alias_str: &str) -> (r: Vec<String>)
    ensures
        sviews(r@) == parse_aliases_spec(alias_str@),
{
    let v = str_to_chars(alias_str);
    let ghost s = v@;
    let mut acc: Vec<String> = Vec::new();
    let mut cur: Vec<char> = Vec::new();
    let mut inw = false;
    let mut i: usize = 0;
    assert(sviews(acc@) =~= Seq::<Seq<char>>::empty());
    assert(cur@ =~= Seq::<char>::empty());
    while i < v.len()
        invariant
            i <= v.len(),
            s == v@,
            parse_aliases_spec(s) == alias_rec(s, i as int, inw, cur@, sviews(acc@)),
        decreases v.len() - i,
    {
        let ghost i0 = i as int;
        let c = v[i];
        if c == '[' && v.len() - i > 1 && v[i + 1] == '[' {
            proof {
                assert(alias_rec(s, i0, inw, cur@, sviews(acc@)) == alias_rec(
                    s,
                    i0 + 2,
                    true,
                    cur@,
                    sviews(acc@),
                ));
            }
            inw = true;
            i += 2;
        } else if c == ']' && v.len() - i > 1 && v[i + 1] == ']' {
            proof {
                assert(alias_rec(s, i0, inw, cur@, sviews(acc@)) == alias_rec(
                    s,
                    i0 + 2,
                    false,
                    cur@,
                    sviews(acc@),
                ));
            }
            inw = false;
            i += 2;
        } else if c == ',' && !inw {
            let t = trim_vec(&cur);
            let ghost av = sviews(acc@);
            proof {
                assert(alias_rec(s, i0, inw, cur@, av) == alias_rec(
                    s,
                    i0 + 1,
                    inw,
                    Seq::empty(),
                    if trim_seq(cur@).len() > 0 {
                        av.push(trim_seq(cur@))
                    } else {
                        av
                    },
                ));
            }
            if t.len() > 0 {
                acc.push(chars_to_string(&t));
                proof {
                    assert(sviews(acc@) =~= av.push(trim_seq(cur@)));
                }
            }
            cur = Vec::new();
            assert(cur@ =~= Seq::<char>::empty());
            i += 1;
        } else {
            proof {
                assert(alias_rec(s, i0, inw, cur@, sviews(acc@)) == alias_rec(
                    s,
                    i0 + 1,
                    inw,
                    cur@.push(s[i0]),
                    sviews(acc@),
                ));
            }
            cur.push(c);
            i += 1;
        }
    }
    let t = trim_vec(&cur);
    let ghost av = sviews(acc@);
    if t.len() > 0 {
        acc.push(chars_to_string(&t));
        proof {
            assert(sviews(acc@) =~= av.push(trim_seq(cur@)));
        }
    }
    acc
}

/// YAML string escaping: backslashes and double quotes get a backslash.
pub open spec fn escape_yaml_from(s: Seq<char>, i: int) -> Seq<char>
    decreases s.len() - i,
{
    if i < 0 || i >= s.len() {
        Seq::empty()
    } else {
        (if s[i] == '\\' {
            seq!['\\', '\\']
        } else if s[i] == '"' {
            seq!['\\', '"']
        } else {
            seq![s[i]]
        }) + escape_yaml_from(s, i + 1)
    }
}

/// The whole string YAML-escaped.
pub open spec fn escape_yaml_spec(s: Seq<char>) -> Seq<char> {
    escape_yaml_from(s, 0)
}

/// Escapes backslashes and double quotes for a YAML string.
pub fn escape_yaml(s: &str) -> (r: String)
    ensures
        r@ == escape_yaml_spec(s@),
{
    let v = str_to_chars(s);
    let ev = escape_yaml_vec(&v);
    chars_to_string(&ev)
}

/// Escapes backslashes and double quotes, on character vectors.
pub fn escape_yaml_vec(v: &Vec<char>) -> (r: Vec<char>)
    ensures
        r@ == escape_yaml_spec(v@),
{
    let mut out: Vec<char> = Vec::new();
    let mut i: usize = 0;
    while i < v.len()
        invariant
            i <= v.len(),
            escape_yaml_spec(v@) =~= out@ + escape_yaml_from(v@, i as int),
        decreases v.len() - i,
    {
        let ghost i0 = i as int;
        proof {
            assert(escape_yaml_from(v@, i0) == (if v@[i0] == '\\' {
                seq!['\\', '\\']
            } else if v@[i0] == '"' {
                seq!['\\', '"']
            } else {
                seq![v@[i0]]
            }) + escape_yaml_from(v@, i0 + 1));
        }
        let c = v[i];
        if c == '\\' {
            out.push('\\');
            out.push('\\');
        } else if c == '"' {
            out.push('\\');
            out.push('"');
        } else {
            out.push(c);
        }
        i += 1;
    }
    assert(escape_yaml_from(v@, v@.len() as int) =~= Seq::<char>::empty());
    assert(out@ =~= out@ + Seq::<char>::empty());
    out
}

/// Underscores replaced by spaces.
pub open spec fn underscores_to_spaces(s: Seq<char>) -> Seq<char> {
    s.map_values(
        |c: char|
            if c == '_' {
                ' '
            } else {
                c
            },
    )
}

/// Executable underscore replacement matching `underscores_to_spaces`.
pub fn underscores_to_spaces_x(v: &Vec<char>) -> (r: Vec<char>)
    ensures
        r@ == underscores_to_spaces(v@),
{
    let mut out: Vec<char> = Vec::new();
    let mut i: usize = 0;
    while i < v.len()
        invariant
            i <= v.len(),
            out@ =~= underscores_to_spaces(v@).subrange(0, i as int),
        decreases v.len() - i,
    {
        let c = v[i];
        if c == '_' {
            out.push(' ');
        } else {
            out.push(c);
        }
        i += 1;
        assert(out@ =~= underscores_to_spaces(v@).subrange(0, i as int));
    }
    assert(out@ =~= underscores_to_spaces(v@));
    out
}

/// One frontmatter tag entry cleaned: trimmed, bracket-link syntax
/// stripped, case kept.
pub open spec fn fm_tag_clean(t: Seq<char>) -> Seq<char> {
    strip_all_suffix(strip_all_prefix(trim_seq(t), "[["@), "]]"@)
}

/// The tag list lines of the frontmatter, one `  - tag` line per non-empty
/// cleaned entry.
pub open spec fn tags_items(parts: Seq<Seq<char>>, i: int) -> Seq<char>
    decreases parts.len() - i,
{
    if i < 0 || i >= parts.len() {
        Seq::empty()
    } else {
        (if fm_tag_clean(parts[i]).len() > 0 {
            "  - "@ + fm_tag_clean(parts[i]) + "\n"@
        } else {
            Seq::empty()
        }) + tags_items(parts, i + 1)
    }
}

/// Whether any entry survives cleaning.
pub open spec fn has_tag_item(parts: Seq<Seq<char>>, i: int) -> bool
    decreases parts.len() - i,
{
    if i < 0 || i >= parts.len() {
        false
    } else {
        fm_tag_clean(parts[i]).len() > 0 || has_tag_item(parts, i + 1)
    }
}

/// The tags block of the frontmatter, or nothing.
pub open spec fn tags_block(tv: Seq<char>) -> Seq<char> {
    let parts = split_char(tv, ',');
    if has_tag_item(parts, 0) {
        "tags:\n"@ + tags_items(parts, 0)
    } else {
        Seq::empty()
    }
}

/// The alias list lines of the frontmatter.
pub open spec fn alias_items(al: Seq<Seq<char>>, i: int) -> Seq<char>
    decreases al.len() - i,
{
    if i < 0 || i >= al.len() {
        Seq::empty()
    } else {
        "  - "@ + al[i] + "\n"@ + alias_items(al, i + 1)
    }
}

/// The aliases block of the frontmatter, or nothing.
pub open spec fn aliases_block(av: Seq<char>) -> Seq<char> {
    let al = parse_aliases_spec(av);
    if al.len() > 0 {
        "aliases:\n"@ + alias_items(al, 0)
    } else {
        Seq::empty()
    }
}

/// The title of a document: the title property, or the filename with
/// underscores as spaces; icon-prefixed when an icon property exists.
pub open spec fn title_of(filename: Seq<char>, props: Seq<(Seq<char>, Seq<char>)>) -> Seq<char> {
    let base = match plookup(props, "title"@) {
        Some(t) => t,
        None => underscores_to_spaces(filename),
    };
    match plookup(props, "icon"@) {
        Some(ic) => ic + seq![' '] + base,
        None => base,
    }
}

/// The whole YAML frontmatter of a document: title, optional icon, tags,
/// aliases and description from the properties, and the dates a history
/// lookup supplied.
pub open spec fn generate_spec(
    filename: Seq<char>,
    props: Seq<(Seq<char>, Seq<char>)>,
    dates: Option<(Seq<char>, Seq<char>)>,
) -> Seq<char> {
    "---\n"@ + "title: \""@ + escape_yaml_spec(title_of(filename, props)) + "\"\n"@ + (match
        plookup(props, "icon"@) {
        Some(ic) => "icon: \""@ + escape_yaml_spec(ic) + "\"\n"@,
        None => Seq::empty(),
    }) + (match plookup(props, "tags"@) {
        Some(tv) => tags_block(tv),
        None => Seq::empty(),
    }) + (match plookup(props, "alias"@) {
        Some(av) => aliases_block(av),
        None => Seq::empty(),
    }) + (match plookup(props, "description"@) {
        Some(d) => "description: \""@ + escape_yaml_spec(d) + "\"\n"@,
        None => Seq::empty(),
    }) + (match dates {
        Some((m, c)) => "modified: "@ + m + "\n"@ + "created: "@ + c + "\n"@,
        None => Seq::empty(),
    }) + "---\n"@
}

/// Builds the tags block of the frontmatter.
fn tags_block_x(tvv: &Vec<char>) -> (r: Vec<char>)
    ensures
        r@ == tags_block(tvv@),
{
    let parts = split_char_x(tvv, ',');
    let ghost pv = split_char(tvv@, ',');
    let ob = str_to_chars("[[");
    let cb = str_to_chars("]]");
    let mut items: Vec<char> = Vec::new();
    let mut any = false;
    let mut i: usize = 0;
    while i < parts.len()
        invariant
            i <= parts.len(),
            vviews(parts@) == pv,
            ob@ == "[["@,
            cb@ == "]]"@,
            tags_items(pv, 0) =~= items@ + tags_items(pv, i as int),
            any ==> has_tag_item(pv, 0),
            !any ==> has_tag_item(pv, 0) == has_tag_item(pv, i as int),
        decreases parts.len() - i,
    {
        let ghost i0 = i as int;
        proof {
            assert(vviews(parts@)[i0] == parts@[i0]@);
            assert(tags_items(pv, i0) == (if fm_tag_clean(pv[i0]).len() > 0 {
                "  - "@ + fm_tag_clean(pv[i0]) + "\n"@
            } else {
                Seq::<char>::empty()
            }) + tags_items(pv, i0 + 1));
            assert(has_tag_item(pv, i0) == (fm_tag_clean(pv[i0]).len() > 0 || has_tag_item(
                pv,
                i0 + 1,
            )));
        }
        let t1 = trim_vec(&parts[i]);
        let t2 = strip_all_prefix_x(&t1, &ob);
        let t3 = strip_all_suffix_x(&t2, &cb);
        if t3.len() > 0 {
            push_str_chars(&mut items, "  - ");
            push_all(&mut items, &t3);
            push_str_chars(&mut items, "\n");
            any = true;
        }
        i += 1;
    }
    proof {
        assert(tags_items(pv, parts@.len() as int) =~= Seq::<char>::empty());
        assert(items@ =~= tags_items(pv, 0));
        assert(!has_tag_item(pv, parts@.len() as int));
        assert(any == has_tag_item(pv, 0));
    }
    if any {
        let mut r = str_to_chars("tags:\n");
        push_all(&mut r, &items);
        assert(r@ =~= tags_block(tvv@));
        r
    } else {
        let r: Vec<char> = Vec::new();
        assert(r@ =~= tags_block(tvv@));
        r
    }
}

/// Builds the aliases block of the frontmatter.
fn aliases_block_x(avv: &Vec<char>) -> (r: Vec<char>)
    ensures
        r@ == aliases_block(avv@),
{
    let avs = chars_to_string(avv);
    let al = parse_aliases(avs.as_str());
    let ghost alv = parse_aliases_spec(avv@);
    if al.len() > 0 {
        let mut r = str_to_chars("aliases:\n");
        let mut i: usize = 0;
        while i < al.len()
            invariant
                i <= al.len(),
                sviews(al@) == alv,
                r@ =~= "aliases:\n"@ + alias_items_prefix(alv, i as int),
            decreases al.len() - i,
        {
            let ghost i0 = i as int;
            proof {
                assert(sviews(al@)[i0] == al@[i0]@);
            }
            push_str_chars(&mut r, "  - ");
            let a = str_to_chars(al[i].as_str());
            push_all(&mut r, &a);
            push_str_chars(&mut r, "\n");
            proof {
                lemma_alias_items_prefix(alv, i0 + 1);
                assert(r@ =~= "aliases:\n"@ + alias_items_prefix(alv, i0 + 1));
            }
            i += 1;
        }
        proof {
            lemma_alias_items_prefix_all(alv);
            assert(r@ =~= aliases_block(avv@));
        }
        r
    } else {
        let r: Vec<char> = Vec::new();
        assert(r@ =~= aliases_block(avv@));
        r
    }
}

/// Builds the YAML frontmatter for one document.
pub fn generate(
    filename: &str,
    properties: &Vec<(String, String)>,
    git_dates: Option<(&str, &str)>,
) -> (r: String)
    ensures
        r@ == generate_spec(
            filename@,
            pviews(properties@),
            match git_dates {
                Some(d) => Some((d.0@, d.1@)),
                None => None,
            },
        ),
{
    let ghost props = pviews(properties@);
    let k_title = str_to_chars("title");
    let k_icon = str_to_chars("icon");
    let fv = str_to_chars(filename);
    let icon_opt = plookup_x(properties, &k_icon);
    let base: Vec<char> = match plookup_x(properties, &k_title) {
        Some(t) => str_to_chars(t.as_str()),
        None => underscores_to_spaces_x(&fv),
    };
    let title: Vec<char> = match &icon_opt {
        Some(ic) => {
            let mut t = str_to_chars(ic.as_str());
            t.push(' ');
            push_all(&mut t, &base);
            assert(t@ =~= title_of(filename@, props));
            t
        },
        None => base,
    };

    let mut head: Vec<char> = str_to_chars("---\n");
    push_str_chars(&mut head, "title: \"");
    let esc = escape_yaml_vec(&title);
    push_all(&mut head, &esc);
    push_str_chars(&mut head, "\"\n");
    assert(head@ =~= "---\n"@ + "title: \""@ + escape_yaml_spec(title_of(filename@, props))
        + "\"\n"@);

    let icon_part: Vec<char> = match &icon_opt {
        Some(ic) => {
            let mut p = str_to_chars("icon: \"");
            let iv = str_to_chars(ic.as_str());
            let ie = escape_yaml_vec(&iv);
            push_all(&mut p, &ie);
            push_str_chars(&mut p, "\"\n");
            assert(p@ =~= "icon: \""@ + escape_yaml_spec(ic@) + "\"\n"@);
            p
        },
        None => Vec::new(),
    };
    let ghost icon_spec = match plookup(props, "icon"@) {
        Some(ic) => "icon: \""@ + escape_yaml_spec(ic) + "\"\n"@,
        None => Seq::<char>::empty(),
    };
    assert(icon_part@ =~= icon_spec);

    let k_tags = str_to_chars("tags");
    let tags_part: Vec<char> = match plookup_x(properties, &k_tags) {
        Some(tv) => {
            let tvv = str_to_chars(tv.as_str());
            tags_block_x(&tvv)
        },
        None => Vec::new(),
    };
    let ghost tags_spec = match plookup(props, "tags"@) {
        Some(tv) => tags_block(tv),
        None => Seq::<char>::empty(),
    };
    assert(tags_part@ =~= tags_spec);

    let k_alias = str_to_chars("alias");
    let alias_part: Vec<char> = match plookup_x(properties, &k_alias) {
        Some(av) => {
            let avv = str_to_chars(av.as_str());
            aliases_block_x(&avv)
        },
        None => Vec::new(),
    };
    let ghost alias_spec = match plookup(props, "alias"@) {
        Some(av) => aliases_block(av),
        None => Seq::<char>::empty(),
    };
    assert(alias_part@ =~= alias_spec);

    let k_desc = str_to_chars("description");
    let desc_part: Vec<char> = match plookup_x(properties, &k_desc) {
        Some(d) => {
            let mut p = str_to_chars("description: \"");
            let dv = str_to_chars(d.as_str());
            let de = escape_yaml_vec(&dv);
            push_all(&mut p, &de);
            push_str_chars(&mut p, "\"\n");
            assert(p@ =~= "description: \""@ + escape_yaml_spec(d@) + "\"\n"@);
            p
        },
        None => Vec::new(),
    };
    let ghost desc_spec = match plookup(props, "description"@) {
        Some(d) => "description: \""@ + escape_yaml_spec(d) + "\"\n"@,
        None => Seq::<char>::empty(),
    };
    assert(desc_part@ =~= desc_spec);

    let dates_part: Vec<char> = match git_dates {
        Some((m, c)) => {
            let mut p = str_to_chars("modified: ");
            push_str_chars(&mut p, m);
            push_str_chars(&mut p, "\n");
            push_str_chars(&mut p, "created: ");
            push_str_chars(&mut p, c);
            push_str_chars(&mut p, "\n");
            assert(p@ =~= "modified: "@ + m@ + "\n"@ + "created: "@ + c@ + "\n"@);
            p
        },
        None => Vec::new(),
    };
    let ghost dates_spec = match git_dates {
        Some(d) => "modified: "@ + d.0@ + "\n"@ + "created: "@ + d.1@ + "\n"@,
        None => Seq::<char>::empty(),
    };
    assert(dates_part@ =~= dates_spec);

    let mut out = head;
    push_all(&mut out, &icon_part);
    push_all(&mut out, &tags_part);
    push_all(&mut out, &alias_part);
    push_all(&mut out, &desc_part);
    push_all(&mut out, &dates_part);
    push_str_chars(&mut out, "---\n");
    assert(out@ =~= generate_spec(
        filename@,
        props,
        match git_dates {
            Some(d) => Some((d.0@, d.1@)),
            None => None,
        },
    ));
    chars_to_string(&out)
}

/// The first `i` alias lines.
pub open spec fn alias_items_prefix(al: Seq<Seq<char>>, i: int) -> Seq<char>
    decreases i,
{
    if i <= 0 {
        Seq::empty()
    } else {
        alias_items_prefix(al, i - 1) + "  - "@ + al[i - 1] + "\n"@
    }
}

/// A prefix of alias lines followed by the remaining lines is all of them.
pub proof fn lemma_alias_items_prefix(al: Seq<Seq<char>>, i: int)
    requires
        0 <= i <= al.len(),
    ensures
        alias_items_prefix(al, i) + alias_items(al, i) =~= alias_items(al, 0),
    decreases i,
{
    if i > 0 {
        lemma_alias_items_prefix(al, i - 1);
        assert(alias_items(al, i - 1) =~= "  - "@ + al[i - 1] + "\n"@ + alias_items(al, i));
        assert(alias_items_prefix(al, i) + alias_items(al, i) =~= alias_items_prefix(al, i - 1)
            + alias_items(al, i - 1));
    }
}

/// All alias lines as a prefix.
pub proof fn lemma_alias_items_prefix_all(al: Seq<Seq<char>>)
    ensures
        alias_items_prefix(al, al.len() as int) =~= alias_items(al, 0),
{
    lemma_alias_items_prefix(al, al.len() as int);
    assert(alias_items(al, al.len() as int) =~= Seq::<char>::empty());
}

} // verus!
