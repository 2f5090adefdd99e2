//! The completion engine: given a partially typed reference and a snapshot
//! of the workspace tree, produces the ordered list of completion
//! candidates, each a (value, label) pair.
//!
//! The engine never reads the filesystem: the caller hands it the workspace
//! as a `Dir` forest — one tree per domain directory under the base path,
//! holding directories only, read as deep as the search may descend. A
//! directory that could not be read is simply a node without children, so
//! filesystem failures degrade to fewer candidates and never to an error.

use vstd::prelude::*;
use core::cmp::Ordering;
use crate::config::{Config, ConfigV};
use crate::order::{
    cmp_labels, cmp_labels_spec, lemma_sort_by_label, pairs_view, sort_by_label, sort_candidates,
    sorted_by_label,
};
use crate::strings::{
    count_char, eq_str, has_char, has_char_str, join_range, join_seq, lemma_count_char_concat,
    lemma_count_char_zero, lemma_has_char_count,
    lemma_join_push, lemma_split_len, split_seq, split_str, starts_with_seq, starts_with_str,
    str_views,
};

verus! {

/// One directory of the workspace snapshot: its name and the directories
/// directly inside it.
pub struct Dir {
    pub name: String,
    pub subdirs: Vec<Dir>,
}

/// The names of the domain directories, in snapshot order.
pub open spec fn tld_names(tlds: Seq<Dir>) -> Seq<Seq<char>> {
    Seq::new(tlds.len(), |i: int| tlds[i].name@)
}

/// The first directory of the given name, if any.
pub open spec fn find_dir(dirs: Seq<Dir>, name: Seq<char>) -> Option<Dir>
    decreases dirs.len(),
{
    if dirs.len() == 0 {
        None
    } else if dirs[0].name@ == name {
        Some(dirs[0])
    } else {
        find_dir(dirs.drop_first(), name)
    }
}

/// The directory reached from `d` by following the named children.
pub open spec fn navigate(d: Dir, segs: Seq<Seq<char>>) -> Option<Dir>
    decreases segs.len(),
{
    if segs.len() == 0 {
        Some(d)
    } else {
        match find_dir(d.subdirs@, segs[0]) {
            None => None,
            Some(c) => navigate(c, segs.drop_first()),
        }
    }
}

/// The candidate for one directory found by the single-namespace scan:
/// the value is the relative path, closed with `/` and prefixed with
/// `{tld}:` when asked; the label is `{name}/` when a short label is asked
/// and the value itself otherwise.
pub open spec fn scan_candidate(
    name: Seq<char>,
    tld: Seq<char>,
    lead: Seq<Seq<char>>,
    add_short_desc: bool,
    add_tld_prefix: bool,
) -> (Seq<char>, Seq<char>) {
    let rel = join_seq(lead.push(name), '/') + seq!['/'];
    let value = if add_tld_prefix {
        tld + seq![':'] + rel
    } else {
        rel
    };
    let label = if add_short_desc {
        name + seq!['/']
    } else {
        value
    };
    (value, label)
}

/// The candidates among `children` whose name has `last` as a prefix, in
/// snapshot order.
pub open spec fn scan_children(
    children: Seq<Dir>,
    tld: Seq<char>,
    lead: Seq<Seq<char>>,
    last: Seq<char>,
    add_short_desc: bool,
    add_tld_prefix: bool,
) -> Seq<(Seq<char>, Seq<char>)>
    decreases children.len(),
{
    if children.len() == 0 {
        Seq::empty()
    } else {
        let rest = scan_children(
            children.drop_first(),
            tld,
            lead,
            last,
            add_short_desc,
            add_tld_prefix,
        );
        if starts_with_seq(children[0].name@, last) {
            seq![scan_candidate(children[0].name@, tld, lead, add_short_desc, add_tld_prefix)]
                + rest
        } else {
            rest
        }
    }
}

/// What scanning one namespace yields: within the namespace directory named
/// `tld`, descend along all `/`-segments of `path` but the last, then take
/// the directories whose name starts with that last segment. A missing
/// namespace or intermediate directory yields no candidates.
pub open spec fn scan_single_tld_spec(
    tlds: Seq<Dir>,
    tld: Seq<char>,
    path: Seq<char>,
    add_short_desc: bool,
    add_tld_prefix: bool,
) -> Seq<(Seq<char>, Seq<char>)> {
    let segs = split_seq(path, '/');
    match find_dir(tlds, tld) {
        None => Seq::empty(),
        Some(root) => match navigate(root, segs.drop_last()) {
            None => Seq::empty(),
            Some(d) => scan_children(
                d.subdirs@,
                tld,
                segs.drop_last(),
                segs.last(),
                add_short_desc,
                add_tld_prefix,
            ),
        },
    }
}

/// The first directory of the given name, by reference.
fn find_dir_in<'a>(dirs: &'a Vec<Dir>, name: &str) -> (r: Option<&'a Dir>)
    ensures
        match r {
            Some(d) => find_dir(dirs@, name@) == Some(*d),
            None => find_dir(dirs@, name@) is None,
        },
{
    let mut i: usize = 0;
    proof {
        assert(dirs@.skip(0) =~= dirs@);
    }
    while i < dirs.len()
        invariant
            0 <= i <= dirs@.len(),
            find_dir(dirs@.skip(i as int), name@) == find_dir(dirs@, name@),
        decreases dirs@.len() - i,
    {
        proof {
            assert(dirs@.skip(i as int)[0] == dirs@[i as int]);
            assert(dirs@.skip(i as int).drop_first() =~= dirs@.skip(i + 1));
        }
        if eq_str(dirs[i].name.as_str(), name) {
            return Some(&dirs[i]);
        }
        i = i + 1;
    }
    None
}

/// Scans one namespace directory, as `scan_single_tld_spec` says.
fn scan_single_tld(
    tlds: &Vec<Dir>,
    tld: &str,
    path: &str,
    add_short_desc: bool,
    add_tld_prefix: bool,
) -> (res: Vec<(String, String)>)
    ensures
        pairs_view(res@) == scan_single_tld_spec(
            tlds@,
            tld@,
            path@,
            add_short_desc,
            add_tld_prefix,
        ),
{
    let mut res: Vec<(String, String)> = Vec::new();
    proof {
        assert(pairs_view(res@) =~= Seq::<(Seq<char>, Seq<char>)>::empty());
    }
    let segs = split_str(path, '/');
    let ghost sv = str_views(segs@);
    let root = match find_dir_in(tlds, tld) {
        Some(d) => d,
        None => {
            return res;
        },
    };
    // walk down every segment but the last
    let mut cur: &Dir = root;
    let mut i: usize = 0;
    let last_index = segs.len() - 1;
    proof {
        assert(sv.drop_last() =~= sv.take(last_index as int));
        assert(sv.take(last_index as int).skip(0) =~= sv.take(last_index as int));
    }
    while i < last_index
        invariant
            0 <= i <= last_index,
            last_index == segs@.len() - 1,
            sv == str_views(segs@),
            sv == split_seq(path@, '/'),
            find_dir(tlds@, tld@) == Some(*root),
            pairs_view(res@) == Seq::<(Seq<char>, Seq<char>)>::empty(),
            navigate(*cur, sv.take(last_index as int).skip(i as int)) == navigate(
                *root,
                sv.drop_last(),
            ),
        decreases last_index - i,
    {
        proof {
            assert(sv.take(last_index as int).skip(i as int)[0] == sv[i as int]);
            assert(sv[i as int] == segs@[i as int]@);
            assert(sv.take(last_index as int).skip(i as int).drop_first() =~= sv.take(
                last_index as int,
            ).skip(i + 1));
        }
        cur = match find_dir_in(&cur.subdirs, segs[i].as_str()) {
            Some(c) => c,
            None => {
                return res;
            },
        };
        i = i + 1;
    }
    proof {
        assert(sv.take(last_index as int).skip(last_index as int) =~= Seq::<Seq<char>>::empty());
    }
    // the leading part of the value every candidate shares
    let mut stem = String::new();
    if add_tld_prefix {
        stem.append(tld);
        stem.push(':');
    }
    if last_index > 0 {
        let lead_joined = join_range(&segs, 0, last_index, '/');
        stem.append(lead_joined.as_str());
        stem.push('/');
        proof {
            assert(sv.subrange(0, last_index as int) =~= sv.drop_last());
        }
    }
    let last = &segs[last_index];
    let ghost lead = sv.drop_last();
    proof {
        assert(sv.take(last_index as int) =~= sv.drop_last());
        assert(stem@ =~= scan_stem(sv, tld@, add_tld_prefix));
        assert(sv[last_index as int] == segs@[last_index as int]@);
        assert(sv.last() == sv[last_index as int]);
    }
    // collect the matching children of the directory reached
    let children = &cur.subdirs;
    let mut j: usize = 0;
    proof {
        assert(children@.skip(0) =~= children@);
    }
    while j < children.len()
        invariant
            0 <= j <= children@.len(),
            sv == str_views(segs@),
            last_index == segs@.len() - 1,
            lead == sv.drop_last(),
            stem@ == scan_stem(sv, tld@, add_tld_prefix),
            last@ == sv.last(),
            pairs_view(res@) + scan_children(
                children@.skip(j as int),
                tld@,
                lead,
                sv.last(),
                add_short_desc,
                add_tld_prefix,
            ) == scan_children(
                children@,
                tld@,
                lead,
                sv.last(),
                add_short_desc,
                add_tld_prefix,
            ),
        decreases children@.len() - j,
    {
        let ghost prev = pairs_view(res@);
        proof {
            assert(children@.skip(j as int)[0] == children@[j as int]);
            assert(children@.skip(j as int).drop_first() =~= children@.skip(j + 1));
        }
        let child = &children[j];
        if starts_with_str(child.name.as_str(), last.as_str()) {
            let mut value = stem.clone();
            value.append(child.name.as_str());
            value.push('/');
            let label = if add_short_desc {
                let mut l = child.name.clone();
                l.push('/');
                l
            } else {
                value.clone()
            };
            res.push((value, label));
            proof {
                let cand = scan_candidate(
                    children@[j as int].name@,
                    tld@,
                    lead,
                    add_short_desc,
                    add_tld_prefix,
                );
                lemma_join_push(lead, children@[j as int].name@, '/');
                assert(value@ =~= cand.0);
                assert(label@ =~= cand.1);
                assert(pairs_view(res@) =~= prev.push(cand));
                assert(prev.push(cand) =~= prev + seq![cand]);
                assert((prev + seq![cand]) + scan_children(
                    children@.skip(j + 1),
                    tld@,
                    lead,
                    sv.last(),
                    add_short_desc,
                    add_tld_prefix,
                ) =~= prev + (seq![cand] + scan_children(
                    children@.skip(j + 1),
                    tld@,
                    lead,
                    sv.last(),
                    add_short_desc,
                    add_tld_prefix,
                )));
            }
        }
        j = j + 1;
    }
    proof {
        assert(children@.skip(children@.len() as int) =~= Seq::<Dir>::empty());
        assert(pairs_view(res@) + Seq::<(Seq<char>, Seq<char>)>::empty() =~= pairs_view(res@));
    }
    res
}

/// The part every candidate value of one scan shares: the optional
/// `{tld}:` prefix, then the leading path segments, each closed with `/`.
spec fn scan_stem(sv: Seq<Seq<char>>, tld: Seq<char>, add_tld_prefix: bool) -> Seq<
    char,
> {
    let pre: Seq<char> = if add_tld_prefix {
        tld + seq![':']
    } else {
        Seq::empty()
    };
    if sv.len() > 1 {
        pre + join_seq(sv.drop_last(), '/') + seq!['/']
    } else {
        pre
    }
}

/// A `{name}:` candidate for a namespace, value and label alike.
pub open spec fn colon_hint(name: Seq<char>) -> (Seq<char>, Seq<char>) {
    (name + seq![':'], name + seq![':'])
}

/// A `{name}/` candidate for a directory, value and label alike.
pub open spec fn slash_hint(name: Seq<char>) -> (Seq<char>, Seq<char>) {
    (name + seq!['/'], name + seq!['/'])
}

/// The names of `names` without the default domain, in order.
pub open spec fn filter_non_default(names: Seq<Seq<char>>, default_domain: Seq<char>) -> Seq<
    Seq<char>,
>
    decreases names.len(),
{
    if names.len() == 0 {
        Seq::empty()
    } else {
        let rest = filter_non_default(names.drop_first(), default_domain);
        if names[0] == default_domain {
            rest
        } else {
            seq![names[0]] + rest
        }
    }
}

/// One `{name}:` hint per namespace directory other than the default.
pub open spec fn non_default_tld_hints(tlds: Seq<Dir>, default_domain: Seq<char>) -> Seq<
    (Seq<char>, Seq<char>),
>
    decreases tlds.len(),
{
    if tlds.len() == 0 {
        Seq::empty()
    } else {
        let rest = non_default_tld_hints(tlds.drop_first(), default_domain);
        if tlds[0].name@ == default_domain {
            rest
        } else {
            seq![colon_hint(tlds[0].name@)] + rest
        }
    }
}

/// One `{name}/` hint per directory, in order.
pub open spec fn child_slash_hints(children: Seq<Dir>) -> Seq<(Seq<char>, Seq<char>)>
    decreases children.len(),
{
    if children.len() == 0 {
        Seq::empty()
    } else {
        seq![slash_hint(children[0].name@)] + child_slash_hints(children.drop_first())
    }
}

/// What the empty input yields: one `{domain}:` hint per namespace other
/// than the default, then one `{name}/` hint per direct subdirectory of the
/// default namespace.
pub open spec fn top_level_spec(tlds: Seq<Dir>, default_domain: Seq<char>) -> Seq<
    (Seq<char>, Seq<char>),
> {
    non_default_tld_hints(tlds, default_domain) + (match find_dir(tlds, default_domain) {
        None => Seq::empty(),
        Some(d) => child_slash_hints(d.subdirs@),
    })
}

/// What the fuzzy walk yields below one list of sibling directories: once
/// `depth` reaches `max_depth` nothing more; otherwise, for each directory
/// in order, a `{prefix}{name}/` candidate when its own name starts with
/// `input`, followed by the walk of its children one level deeper — so
/// deeper matches under a non-matching ancestor are still found.
pub open spec fn walk_spec(
    children: Seq<Dir>,
    prefix: Seq<char>,
    input: Seq<char>,
    depth: int,
    max_depth: int,
) -> Seq<(Seq<char>, Seq<char>)>
    decreases children,
{
    if depth >= max_depth || children.len() == 0 {
        Seq::empty()
    } else {
        let name = children[0].name@;
        let hint: Seq<(Seq<char>, Seq<char>)> = if starts_with_seq(name, input) {
            seq![slash_hint(prefix + name)]
        } else {
            Seq::empty()
        };
        hint + walk_spec(children[0].subdirs@, prefix + name + seq!['/'], input, depth + 1,
            max_depth,
        ) + walk_spec(children.drop_first(), prefix, input, depth, max_depth)
    }
}

/// The fuzzy contributions of the namespaces other than the default: for
/// each, a `{name}:` hint when the name starts with `input`, then the walk
/// of the namespace under the `{name}:` prefix.
pub open spec fn search_non_default(
    tlds: Seq<Dir>,
    default_domain: Seq<char>,
    input: Seq<char>,
    max_depth: int,
) -> Seq<(Seq<char>, Seq<char>)>
    decreases tlds.len(),
{
    if tlds.len() == 0 {
        Seq::empty()
    } else {
        let rest = search_non_default(tlds.drop_first(), default_domain, input, max_depth);
        if tlds[0].name@ == default_domain {
            rest
        } else {
            let hint: Seq<(Seq<char>, Seq<char>)> = if starts_with_seq(tlds[0].name@, input) {
                seq![colon_hint(tlds[0].name@)]
            } else {
                Seq::empty()
            };
            hint + walk_spec(tlds[0].subdirs@, tlds[0].name@ + seq![':'], input, 0, max_depth)
                + rest
        }
    }
}

/// What the fuzzy component search yields: a `{defaultDomain}:` hint when
/// the default domain starts with `input`; the walk of the default
/// namespace, bare and again under the `{defaultDomain}:` prefix; then the
/// contributions of every other namespace.
pub open spec fn search_spec(
    tlds: Seq<Dir>,
    default_domain: Seq<char>,
    input: Seq<char>,
    max_depth: int,
) -> Seq<(Seq<char>, Seq<char>)> {
    let head: Seq<(Seq<char>, Seq<char>)> = if starts_with_seq(default_domain, input) {
        seq![colon_hint(default_domain)]
    } else {
        Seq::empty()
    };
    let def: Seq<(Seq<char>, Seq<char>)> = match find_dir(tlds, default_domain) {
        None => Seq::empty(),
        Some(d) => walk_spec(d.subdirs@, Seq::empty(), input, 0, max_depth) + walk_spec(
            d.subdirs@,
            default_domain + seq![':'],
            input,
            0,
            max_depth,
        ),
    };
    head + def + search_non_default(tlds, default_domain, input, max_depth)
}

/// The names of all namespace directories, in snapshot order.
pub fn get_all_tlds(tlds: &Vec<Dir>) -> (r: Vec<String>)
    ensures
        str_views(r@) == tld_names(tlds@),
{
    let mut out: Vec<String> = Vec::new();
    let mut i: usize = 0;
    proof {
        assert(str_views(out@) =~= tld_names(tlds@).take(0));
    }
    while i < tlds.len()
        invariant
            0 <= i <= tlds@.len(),
            out@.len() == i,
            str_views(out@) == tld_names(tlds@).take(i as int),
        decreases tlds@.len() - i,
    {
        let ghost prev_vec = out@;
        let t = &tlds[i];
        out.push(t.name.clone());
        proof {
            assert forall|k: int| 0 <= k < i + 1 implies str_views(out@)[k] == tld_names(
                tlds@,
            ).take(i + 1)[k] by {
                assert(str_views(out@)[k] == out@[k]@);
                if k < i {
                    assert(out@[k] == prev_vec[k]);
                    assert(str_views(prev_vec)[k] == tld_names(tlds@).take(i as int)[k]);
                } else {
                    assert(out@[k]@ == tlds@[i as int].name@);
                }
            }
            assert(str_views(out@) =~= tld_names(tlds@).take(i + 1));
        }
        i = i + 1;
    }
    proof {
        assert(tld_names(tlds@).take(tlds@.len() as int) =~= tld_names(tlds@));
    }
    out
}

/// The hints for the empty input, as `top_level_spec` says.
fn get_top_level_hints(conf: &Config, tlds: &Vec<Dir>) -> (hints: Vec<(String, String)>)
    ensures
        pairs_view(hints@) == top_level_spec(tlds@, conf@.default_domain),
{
    let ghost dd = conf@.default_domain;
    let mut hints: Vec<(String, String)> = Vec::new();
    let mut i: usize = 0;
    proof {
        assert(tlds@.skip(0) =~= tlds@);
        assert(pairs_view(hints@) =~= Seq::<(Seq<char>, Seq<char>)>::empty());
    }
    while i < tlds.len()
        invariant
            0 <= i <= tlds@.len(),
            dd == conf@.default_domain,
            pairs_view(hints@) + non_default_tld_hints(tlds@.skip(i as int), dd)
                == non_default_tld_hints(tlds@, dd),
        decreases tlds@.len() - i,
    {
        let ghost prev = pairs_view(hints@);
        proof {
            assert(tlds@.skip(i as int)[0] == tlds@[i as int]);
            assert(tlds@.skip(i as int).drop_first() =~= tlds@.skip(i + 1));
        }
        let t = &tlds[i];
        if !eq_str(t.name.as_str(), conf.get_domain().as_str()) {
            let mut h = t.name.clone();
            h.push(':');
            let h2 = h.clone();
            hints.push((h, h2));
            proof {
                assert(pairs_view(hints@) =~~= prev.push(colon_hint(tlds@[i as int].name@)));
                assert(prev.push(colon_hint(tlds@[i as int].name@)) =~= prev + seq![
                    colon_hint(tlds@[i as int].name@),
                ]);
                assert((prev + seq![colon_hint(tlds@[i as int].name@)]) + non_default_tld_hints(
                    tlds@.skip(i + 1),
                    dd,
                ) =~= prev + (seq![colon_hint(tlds@[i as int].name@)] + non_default_tld_hints(
                    tlds@.skip(i + 1),
                    dd,
                )));
            }
        }
        i = i + 1;
    }
    proof {
        assert(tlds@.skip(tlds@.len() as int) =~= Seq::<Dir>::empty());
        assert(pairs_view(hints@) + Seq::<(Seq<char>, Seq<char>)>::empty() =~= pairs_view(
            hints@,
        ));
    }
    let ghost tld_part = pairs_view(hints@);
    let d = match find_dir_in(tlds, conf.get_domain().as_str()) {
        Some(d) => d,
        None => {
            return hints;
        },
    };
    let children = &d.subdirs;
    let mut j: usize = 0;
    proof {
        assert(children@.skip(0) =~= children@);
    }
    while j < children.len()
        invariant
            0 <= j <= children@.len(),
            dd == conf@.default_domain,
            find_dir(tlds@, dd) == Some(*d),
            tld_part == non_default_tld_hints(tlds@, dd),
            pairs_view(hints@) + child_slash_hints(children@.skip(j as int)) == tld_part
                + child_slash_hints(children@),
        decreases children@.len() - j,
    {
        let ghost prev = pairs_view(hints@);
        proof {
            assert(children@.skip(j as int)[0] == children@[j as int]);
            assert(children@.skip(j as int).drop_first() =~= children@.skip(j + 1));
        }
        let c = &children[j];
        let mut h = c.name.clone();
        h.push('/');
        let h2 = h.clone();
        hints.push((h, h2));
        proof {
            assert(pairs_view(hints@) =~~= prev.push(slash_hint(children@[j as int].name@)));
            assert(prev.push(slash_hint(children@[j as int].name@)) =~= prev + seq![
                slash_hint(children@[j as int].name@),
            ]);
            assert((prev + seq![slash_hint(children@[j as int].name@)]) + child_slash_hints(
                children@.skip(j + 1),
            ) =~= prev + (seq![slash_hint(children@[j as int].name@)] + child_slash_hints(
                children@.skip(j + 1),
            )));
        }
        j = j + 1;
    }
    proof {
        assert(children@.skip(children@.len() as int) =~= Seq::<Dir>::empty());
        assert(pairs_view(hints@) + Seq::<(Seq<char>, Seq<char>)>::empty() =~= pairs_view(
            hints@,
        ));
    }
    hints
}

/// The fuzzy walk of one list of sibling directories, as `walk_spec` says.
fn list_components(
    children: &Vec<Dir>,
    prefix: &str,
    input: &str,
    depth: usize,
    max_depth: usize,
) -> (res: Vec<(String, String)>)
    ensures
        pairs_view(res@) == walk_spec(children@, prefix@, input@, depth as int, max_depth as int),
    decreases children@,
{
    let mut res: Vec<(String, String)> = Vec::new();
    proof {
        assert(pairs_view(res@) =~= Seq::<(Seq<char>, Seq<char>)>::empty());
    }
    if depth >= max_depth {
        return res;
    }
    let mut i: usize = 0;
    proof {
        assert(children@.skip(0) =~= children@);
    }
    while i < children.len()
        invariant
            0 <= i <= children@.len(),
            depth < max_depth,
            pairs_view(res@) + walk_spec(
                children@.skip(i as int),
                prefix@,
                input@,
                depth as int,
                max_depth as int,
            ) == walk_spec(children@, prefix@, input@, depth as int, max_depth as int),
        decreases children@.len() - i,
    {
        let ghost before = pairs_view(res@);
        proof {
            assert(children@.skip(i as int)[0] == children@[i as int]);
            assert(children@.skip(i as int).drop_first() =~= children@.skip(i + 1));
        }
        let child = &children[i];
        let ghost name = children@[i as int].name@;
        let ghost hint: Seq<(Seq<char>, Seq<char>)> = if starts_with_seq(name, input@) {
            seq![slash_hint(prefix@ + name)]
        } else {
            Seq::<(Seq<char>, Seq<char>)>::empty()
        };
        let mut sub_prefix = String::from_str(prefix);
        sub_prefix.append(child.name.as_str());
        sub_prefix.push('/');
        if starts_with_str(child.name.as_str(), input) {
            let v = sub_prefix.clone();
            let v2 = v.clone();
            res.push((v, v2));
            proof {
                assert(sub_prefix@ =~= prefix@ + name + seq!['/']);
                assert((prefix@ + name) + seq!['/'] =~= prefix@ + name + seq!['/']);
                assert(pairs_view(res@) =~~= before.push(slash_hint(prefix@ + name)));
                assert(before.push(slash_hint(prefix@ + name)) =~= before + hint);
            }
        } else {
            proof {
                assert(pairs_view(res@) =~= before + hint);
            }
        }
        let ghost mid = pairs_view(res@);
        proof {
            assert(decreases_to!(children@ => children@[i as int]));
            assert(decreases_to!(children@[i as int] => children@[i as int].subdirs));
            assert(sub_prefix@ =~= prefix@ + name + seq!['/']);
        }
        let mut sub = list_components(&child.subdirs, sub_prefix.as_str(), input, depth + 1,
            max_depth);
        res.append(&mut sub);
        proof {
            let subw = walk_spec(
                children@[i as int].subdirs@,
                prefix@ + name + seq!['/'],
                input@,
                depth + 1,
                max_depth as int,
            );
            assert(pairs_view(res@) =~= mid + subw);
            let restw = walk_spec(
                children@.skip(i + 1),
                prefix@,
                input@,
                depth as int,
                max_depth as int,
            );
            assert(((before + hint) + subw) + restw =~= before + ((hint + subw) + restw));
            assert(hint + subw + restw == walk_spec(
                children@.skip(i as int),
                prefix@,
                input@,
                depth as int,
                max_depth as int,
            ));
        }
        i = i + 1;
    }
    proof {
        assert(children@.skip(children@.len() as int) =~= Seq::<Dir>::empty());
        assert(pairs_view(res@) + Seq::<(Seq<char>, Seq<char>)>::empty() =~= pairs_view(res@));
    }
    res
}

/// The fuzzy component search across every namespace, as `search_spec`
/// says.
fn search_for_component(conf: &Config, tlds: &Vec<Dir>, input: &str) -> (res: Vec<
    (String, String),
>)
    ensures
        pairs_view(res@) == search_spec(
            tlds@,
            conf@.default_domain,
            input@,
            conf@.default_search_depth as int,
        ),
{
    let ghost dd = conf@.default_domain;
    let ghost max = conf@.default_search_depth as int;
    let default_domain = conf.get_domain().clone();
    let max_depth = conf.get_default_search_depth();
    let mut hints: Vec<(String, String)> = Vec::new();
    proof {
        assert(pairs_view(hints@) =~= Seq::<(Seq<char>, Seq<char>)>::empty());
    }
    let ghost head: Seq<(Seq<char>, Seq<char>)> = if starts_with_seq(dd, input@) {
        seq![colon_hint(dd)]
    } else {
        Seq::<(Seq<char>, Seq<char>)>::empty()
    };
    if starts_with_str(default_domain.as_str(), input) {
        let mut h = default_domain.clone();
        h.push(':');
        let h2 = h.clone();
        hints.push((h, h2));
        proof {
            assert(pairs_view(hints@) =~~= Seq::<(Seq<char>, Seq<char>)>::empty().push(
                colon_hint(dd),
            ));
            assert(pairs_view(hints@) =~= head);
        }
    }
    let ghost def: Seq<(Seq<char>, Seq<char>)> = match find_dir(tlds@, dd) {
        None => Seq::<(Seq<char>, Seq<char>)>::empty(),
        Some(d) => walk_spec(d.subdirs@, Seq::empty(), input@, 0, max) + walk_spec(
            d.subdirs@,
            dd + seq![':'],
            input@,
            0,
            max,
        ),
    };
    match find_dir_in(tlds, default_domain.as_str()) {
        Some(d) => {
            let mut bare = list_components(&d.subdirs, "", input, 0, max_depth);
            hints.append(&mut bare);
            proof {
                reveal_strlit("");
                assert(""@ =~= Seq::<char>::empty());
            }
            let mut pre = default_domain.clone();
            pre.push(':');
            let mut prefixed = list_components(&d.subdirs, pre.as_str(), input, 0, max_depth);
            hints.append(&mut prefixed);
            proof {
                assert(pre@ =~= dd + seq![':']);
                assert(pairs_view(hints@) =~= head + def);
            }
        },
        None => {
            proof {
                assert(pairs_view(hints@) =~= head + def);
            }
        },
    }
    let mut i: usize = 0;
    proof {
        assert(tlds@.skip(0) =~= tlds@);
    }
    while i < tlds.len()
        invariant
            0 <= i <= tlds@.len(),
            dd == conf@.default_domain,
            max == conf@.default_search_depth as int,
            max_depth as int == max,
            default_domain@ == dd,
            pairs_view(hints@) + search_non_default(tlds@.skip(i as int), dd, input@, max)
                == head + def + search_non_default(tlds@, dd, input@, max),
        decreases tlds@.len() - i,
    {
        let ghost before = pairs_view(hints@);
        proof {
            assert(tlds@.skip(i as int)[0] == tlds@[i as int]);
            assert(tlds@.skip(i as int).drop_first() =~= tlds@.skip(i + 1));
        }
        let t = &tlds[i];
        if !eq_str(t.name.as_str(), default_domain.as_str()) {
            let ghost name = tlds@[i as int].name@;
            let ghost hint: Seq<(Seq<char>, Seq<char>)> = if starts_with_seq(name, input@) {
                seq![colon_hint(name)]
            } else {
                Seq::<(Seq<char>, Seq<char>)>::empty()
            };
            let mut pre = t.name.clone();
            pre.push(':');
            if starts_with_str(t.name.as_str(), input) {
                let h = pre.clone();
                let h2 = h.clone();
                hints.push((h, h2));
                proof {
                    assert(pairs_view(hints@) =~~= before.push(colon_hint(name)));
                    assert(pairs_view(hints@) =~= before + hint);
                }
            } else {
                proof {
                    assert(pairs_view(hints@) =~= before + hint);
                }
            }
            let ghost mid = pairs_view(hints@);
            let mut sub = list_components(&t.subdirs, pre.as_str(), input, 0, max_depth);
            hints.append(&mut sub);
            proof {
                assert(pre@ =~= name + seq![':']);
                let subw = walk_spec(tlds@[i as int].subdirs@, name + seq![':'], input@, 0, max);
                assert(pairs_view(hints@) =~= mid + subw);
                let restw = search_non_default(tlds@.skip(i + 1), dd, input@, max);
                assert(((before + hint) + subw) + restw =~= before + ((hint + subw) + restw));
                assert(hint + subw + restw == search_non_default(
                    tlds@.skip(i as int),
                    dd,
                    input@,
                    max,
                ));
            }
        }
        i = i + 1;
    }
    proof {
        assert(tlds@.skip(tlds@.len() as int) =~= Seq::<Dir>::empty());
        assert(pairs_view(hints@) + Seq::<(Seq<char>, Seq<char>)>::empty() =~= pairs_view(
            hints@,
        ));
    }
    hints
}

/// The unsorted candidates for one input. Dispatch by shape: an input with
/// a colon scans that one namespace; one with a slash scans the default
/// namespace; the empty input yields the top-level hints; anything else
/// runs the fuzzy component search.
pub open spec fn matches_spec(conf: ConfigV, tlds: Seq<Dir>, input: Seq<char>) -> Seq<
    (Seq<char>, Seq<char>),
> {
    if has_char(input, ':') {
        let parts = split_seq(input, ':');
        scan_single_tld_spec(tlds, parts[0], parts[1], true, true)
    } else if has_char(input, '/') {
        scan_single_tld_spec(tlds, conf.default_domain, input, false, false)
    } else if input.len() == 0 {
        top_level_spec(tlds, conf.default_domain)
    } else {
        search_spec(tlds, conf.default_domain, input, conf.default_search_depth as int)
    }
}

/// The candidates for one input, sorted case-insensitively by label.
pub open spec fn complete_spec(conf: ConfigV, tlds: Seq<Dir>, input: Seq<char>) -> Seq<
    (Seq<char>, Seq<char>),
> {
    sort_by_label(matches_spec(conf, tlds, input))
}

/// The unsorted candidates, as `matches_spec` says.
fn get_unsorted_matches(conf: &Config, tlds: &Vec<Dir>, input: &str) -> (res: Vec<
    (String, String),
>)
    ensures
        pairs_view(res@) == matches_spec(conf@, tlds@, input@),
{
    if has_char_str(input, ':') {
        proof {
            lemma_has_char_count(input@, ':');
            lemma_split_len(input@, ':');
        }
        let broken_input = split_str(input, ':');
        proof {
            assert(str_views(broken_input@)[0] == broken_input@[0]@);
            assert(str_views(broken_input@)[1] == broken_input@[1]@);
        }
        return scan_single_tld(
            tlds,
            broken_input[0].as_str(),
            broken_input[1].as_str(),
            true,
            true,
        );
    }
    if has_char_str(input, '/') {
        return scan_single_tld(tlds, conf.get_domain().as_str(), input, false, false);
    }
    if input.unicode_len() == 0 {
        return get_top_level_hints(conf, tlds);
    }
    search_for_component(conf, tlds, input)
}

/// The completion candidates for one input, over the given workspace
/// snapshot: exactly `complete_spec` — the dispatch of `matches_spec`,
/// sorted case-insensitively by label, ties keeping their insertion order.
pub fn get_matches(config: &Config, input: &str, tlds: &Vec<Dir>) -> (res: Vec<(String, String)>)
    ensures
        pairs_view(res@) == complete_spec(config@, tlds@, input@),
        sorted_by_label(pairs_view(res@)),
        pairs_view(res@).to_multiset() == matches_spec(config@, tlds@, input@).to_multiset(),
{
    let unsorted = get_unsorted_matches(config, tlds, input);
    let res = sort_candidates(unsorted);
    proof {
        lemma_sort_by_label(matches_spec(config@, tlds@, input@));
    }
    res
}

/// Orders two candidates case-insensitively by their labels, for callers
/// that sort candidate lists themselves.
pub fn hint_sorter(tup1: &(String, String), tup2: &(String, String)) -> (o: Ordering)
    ensures
        o == cmp_labels_spec(tup1.1@, tup2.1@),
{
    cmp_labels(tup1.1.as_str(), tup2.1.as_str())
}

/// The names of the namespace directories other than the default one.
pub fn get_all_non_default_tlds(conf: &Config, tlds: &Vec<Dir>) -> (r: Vec<String>)
    ensures
        str_views(r@) == filter_non_default(tld_names(tlds@), conf@.default_domain),
{
    let all = get_all_tlds(tlds);
    let ghost names = tld_names(tlds@);
    let mut r: Vec<String> = Vec::new();
    let mut i: usize = 0;
    proof {
        assert(names.skip(0) =~= names);
        assert(str_views(r@) =~= Seq::<Seq<char>>::empty());
    }
    while i < all.len()
        invariant
            0 <= i <= all@.len(),
            names == tld_names(tlds@),
            str_views(all@) == names,
            str_views(r@) + filter_non_default(names.skip(i as int), conf@.default_domain)
                == filter_non_default(names, conf@.default_domain),
        decreases all@.len() - i,
    {
        let ghost prev = str_views(r@);
        proof {
            assert(names.skip(i as int)[0] == names[i as int]);
            assert(names.skip(i as int).drop_first() =~= names.skip(i + 1));
            assert(str_views(all@)[i as int] == all@[i as int]@);
        }
        if !eq_str(all[i].as_str(), conf.get_domain().as_str()) {
            r.push(all[i].clone());
            proof {
                assert(str_views(r@) =~= prev + seq![names[i as int]]);
                assert((prev + seq![names[i as int]]) + filter_non_default(
                    names.skip(i + 1),
                    conf@.default_domain,
                ) =~= prev + (seq![names[i as int]] + filter_non_default(
                    names.skip(i + 1),
                    conf@.default_domain,
                )));
            }
        }
        i = i + 1;
    }
    proof {
        assert(names.skip(names.len() as int) =~= Seq::<Seq<char>>::empty());
        assert(str_views(r@) + Seq::<Seq<char>>::empty() =~= str_views(r@));
    }
    r
}

/// A well-formed snapshot: no directory name, at any depth, holds a slash.
pub open spec fn no_slash_dirs(dirs: Seq<Dir>) -> bool
    decreases dirs,
{
    dirs.len() == 0 || (!has_char(dirs[0].name@, '/') && no_slash_dirs(dirs[0].subdirs@)
        && no_slash_dirs(dirs.drop_first()))
}

/// No directory of the given name in the snapshot means none is found.
proof fn lemma_find_dir_absent(dirs: Seq<Dir>, name: Seq<char>)
    requires
        forall|i: int| 0 <= i < dirs.len() ==> (#[trigger] dirs[i]).name@ != name,
    ensures
        find_dir(dirs, name) is None,
    decreases dirs.len(),
{
    if dirs.len() > 0 {
        assert forall|i: int| 0 <= i < dirs.drop_first().len() implies (#[trigger] dirs.drop_first()[i]).name@
            != name by {
            assert(dirs.drop_first()[i] == dirs[i + 1]);
        }
        lemma_find_dir_absent(dirs.drop_first(), name);
    }
}

/// The directory that `find_dir` yields is one of the snapshot, so a
/// well-formed snapshot hands down its well-formedness.
proof fn lemma_find_dir_no_slash(dirs: Seq<Dir>, name: Seq<char>)
    requires
        no_slash_dirs(dirs),
        find_dir(dirs, name) is Some,
    ensures
        no_slash_dirs(find_dir(dirs, name).unwrap().subdirs@),
    decreases dirs.len(),
{
    if dirs.len() > 0 && dirs[0].name@ != name {
        lemma_find_dir_no_slash(dirs.drop_first(), name);
    }
}

/// Depth bound of the fuzzy walk: every candidate it emits below a prefix
/// adds at most `max_depth - depth` slashes to the slashes of the prefix,
/// because each level of descent adds exactly one and the walk stops at
/// `max_depth`.
pub proof fn lemma_walk_depth_bound(
    children: Seq<Dir>,
    prefix: Seq<char>,
    input: Seq<char>,
    depth: int,
    max_depth: int,
)
    requires
        no_slash_dirs(children),
    ensures
        forall|k: int|
            0 <= k < walk_spec(children, prefix, input, depth, max_depth).len()
                ==> count_char(
                (#[trigger] walk_spec(children, prefix, input, depth, max_depth)[k]).0,
                '/',
            ) <= count_char(prefix, '/') + (max_depth - depth),
    decreases children,
{
    let w = walk_spec(children, prefix, input, depth, max_depth);
    if depth >= max_depth || children.len() == 0 {
    } else {
        let name = children[0].name@;
        let hint: Seq<(Seq<char>, Seq<char>)> = if starts_with_seq(name, input) {
            seq![slash_hint(prefix + name)]
        } else {
            Seq::empty()
        };
        let sub = walk_spec(children[0].subdirs@, prefix + name + seq!['/'], input, depth + 1,
            max_depth,
        );
        let rest = walk_spec(children.drop_first(), prefix, input, depth, max_depth);
        lemma_count_char_zero(name, '/');
        lemma_count_char_concat(prefix, name, '/');
        lemma_count_char_concat(prefix + name, seq!['/'], '/');
        assert(seq!['/'].drop_first() =~= Seq::<char>::empty());
        assert(count_char(seq!['/'], '/') == 1) by {
            reveal_with_fuel(count_char, 3);
        }
        lemma_walk_depth_bound(children[0].subdirs@, prefix + name + seq!['/'], input, depth + 1,
            max_depth,
        );
        lemma_walk_depth_bound(children.drop_first(), prefix, input, depth, max_depth);
        assert forall|k: int| 0 <= k < w.len() implies count_char(w[k].0, '/') <= count_char(
            prefix,
            '/',
        ) + (max_depth - depth) by {
            if k < hint.len() {
                assert(w[k] == slash_hint(prefix + name));
            } else if k < hint.len() + sub.len() {
                assert(w[k] == sub[k - hint.len()]);
            } else {
                assert(w[k] == rest[k - hint.len() - sub.len()]);
            }
        }
    }
}

/// Depth bound of the non-default namespaces' contributions.
proof fn lemma_search_non_default_depth_bound(
    tlds: Seq<Dir>,
    default_domain: Seq<char>,
    input: Seq<char>,
    max_depth: int,
)
    requires
        no_slash_dirs(tlds),
        max_depth >= 0,
    ensures
        forall|k: int|
            0 <= k < search_non_default(tlds, default_domain, input, max_depth).len()
                ==> count_char(
                (#[trigger] search_non_default(tlds, default_domain, input, max_depth)[k]).0,
                '/',
            ) <= max_depth,
    decreases tlds.len(),
{
    let w = search_non_default(tlds, default_domain, input, max_depth);
    if tlds.len() > 0 {
        assert(no_slash_dirs(tlds.drop_first()));
        lemma_search_non_default_depth_bound(tlds.drop_first(), default_domain, input, max_depth);
        let rest = search_non_default(tlds.drop_first(), default_domain, input, max_depth);
        if tlds[0].name@ == default_domain {
        } else {
            let name = tlds[0].name@;
            let hint: Seq<(Seq<char>, Seq<char>)> = if starts_with_seq(name, input) {
                seq![colon_hint(name)]
            } else {
                Seq::empty()
            };
            let walk = walk_spec(tlds[0].subdirs@, name + seq![':'], input, 0, max_depth);
            lemma_count_char_zero(name, '/');
            lemma_count_char_concat(name, seq![':'], '/');
            assert(seq![':'].drop_first() =~= Seq::<char>::empty());
            assert(count_char(seq![':'], '/') == 0) by {
                reveal_with_fuel(count_char, 3);
            }
            lemma_walk_depth_bound(tlds[0].subdirs@, name + seq![':'], input, 0, max_depth);
            assert forall|k: int| 0 <= k < w.len() implies count_char(w[k].0, '/')
                <= max_depth by {
                if k < hint.len() {
                    assert(w[k] == colon_hint(name));
                } else if k < hint.len() + walk.len() {
                    assert(w[k] == walk[k - hint.len()]);
                } else {
                    assert(w[k] == rest[k - hint.len() - walk.len()]);
                }
            }
        }
    }
}

/// Depth bound of the whole fuzzy search: no candidate's value holds more
/// than `max_depth` slashes.
pub proof fn lemma_search_depth_bound(
    tlds: Seq<Dir>,
    default_domain: Seq<char>,
    input: Seq<char>,
    max_depth: int,
)
    requires
        no_slash_dirs(tlds),
        !has_char(default_domain, '/'),
        max_depth >= 0,
    ensures
        forall|k: int|
            0 <= k < search_spec(tlds, default_domain, input, max_depth).len() ==> count_char(
                (#[trigger] search_spec(tlds, default_domain, input, max_depth)[k]).0,
                '/',
            ) <= max_depth,
{
    let w = search_spec(tlds, default_domain, input, max_depth);
    let head: Seq<(Seq<char>, Seq<char>)> = if starts_with_seq(default_domain, input) {
        seq![colon_hint(default_domain)]
    } else {
        Seq::empty()
    };
    let def: Seq<(Seq<char>, Seq<char>)> = match find_dir(tlds, default_domain) {
        None => Seq::empty(),
        Some(d) => walk_spec(d.subdirs@, Seq::empty(), input, 0, max_depth) + walk_spec(
            d.subdirs@,
            default_domain + seq![':'],
            input,
            0,
            max_depth,
        ),
    };
    let rest = search_non_default(tlds, default_domain, input, max_depth);
    lemma_count_char_zero(default_domain, '/');
    lemma_count_char_concat(default_domain, seq![':'], '/');
    assert(seq![':'].drop_first() =~= Seq::<char>::empty());
    assert(count_char(seq![':'], '/') == 0) by {
        reveal_with_fuel(count_char, 3);
    }
    assert(count_char(Seq::<char>::empty(), '/') == 0);
    if find_dir(tlds, default_domain) is Some {
        let d = find_dir(tlds, default_domain).unwrap();
        lemma_find_dir_no_slash(tlds, default_domain);
        lemma_walk_depth_bound(d.subdirs@, Seq::empty(), input, 0, max_depth);
        lemma_walk_depth_bound(d.subdirs@, default_domain + seq![':'], input, 0, max_depth);
    }
    lemma_search_non_default_depth_bound(tlds, default_domain, input, max_depth);
    let bare = match find_dir(tlds, default_domain) {
        None => Seq::<(Seq<char>, Seq<char>)>::empty(),
        Some(d) => walk_spec(d.subdirs@, Seq::empty(), input, 0, max_depth),
    };
    assert forall|k: int| 0 <= k < w.len() implies count_char(w[k].0, '/') <= max_depth by {
        if k < head.len() {
            assert(w[k] == colon_hint(default_domain));
        } else if k < head.len() + def.len() {
            assert(w[k] == def[k - head.len()]);
            if find_dir(tlds, default_domain) is Some {
                let kk = k - head.len();
                if kk < bare.len() {
                    assert(def[kk] == bare[kk]);
                } else {
                    assert(def[kk] == walk_spec(
                        find_dir(tlds, default_domain).unwrap().subdirs@,
                        default_domain + seq![':'],
                        input,
                        0,
                        max_depth,
                    )[kk - bare.len()]);
                }
            }
        } else {
            assert(w[k] == rest[k - head.len() - def.len()]);
        }
    }
}

/// Depth bound at the interface: when the fuzzy component search runs (a
/// non-empty input without `:` or `/`) over a well-formed snapshot, no
/// candidate's value holds more slashes than the configured search depth —
/// so a directory deeper below a namespace root than that depth never
/// appears, whatever its name.
pub proof fn lemma_complete_depth_bound(
    conf: ConfigV,
    tlds: Seq<Dir>,
    input: Seq<char>,
    v: (Seq<char>, Seq<char>),
)
    requires
        no_slash_dirs(tlds),
        !has_char(conf.default_domain, '/'),
        input.len() > 0,
        !has_char(input, ':'),
        !has_char(input, '/'),
        complete_spec(conf, tlds, input).contains(v),
    ensures
        count_char(v.0, '/') <= conf.default_search_depth,
{
    broadcast use vstd::seq_lib::group_to_multiset_ensures;

    let m = matches_spec(conf, tlds, input);
    lemma_sort_by_label(m);
    assert(complete_spec(conf, tlds, input).to_multiset().contains(v));
    assert(m.contains(v));
    let k = choose|k: int| 0 <= k < m.len() && m[k] == v;
    lemma_search_depth_bound(tlds, conf.default_domain, input, conf.default_search_depth as int);
}

/// A missing namespace must not raise: scanning a namespace that no
/// directory of the snapshot bears yields no candidates at all — and the
/// scan reads nothing but the one named directory, so every other
/// namespace is untouched by it.
pub proof fn lemma_missing_namespace(
    tlds: Seq<Dir>,
    tld: Seq<char>,
    path: Seq<char>,
    add_short_desc: bool,
    add_tld_prefix: bool,
)
    requires
        forall|i: int| 0 <= i < tlds.len() ==> (#[trigger] tlds[i]).name@ != tld,
    ensures
        scan_single_tld_spec(tlds, tld, path, add_short_desc, add_tld_prefix) == Seq::<
            (Seq<char>, Seq<char>),
        >::empty(),
{
    lemma_find_dir_absent(tlds, tld);
}

/// A completion naming a nonexistent namespace yields nothing, and raises
/// nothing: the whole candidate list is empty.
pub proof fn lemma_complete_missing_namespace(conf: ConfigV, tlds: Seq<Dir>, input: Seq<char>)
    requires
        has_char(input, ':'),
        forall|i: int|
            0 <= i < tlds.len() ==> (#[trigger] tlds[i]).name@ != split_seq(input, ':')[0],
    ensures
        complete_spec(conf, tlds, input) == Seq::<(Seq<char>, Seq<char>)>::empty(),
{
    lemma_missing_namespace(tlds, split_seq(input, ':')[0], split_seq(input, ':')[1], true, true);
}

/// Completion is idempotent: it is a pure function of the configuration,
/// the input, and the workspace snapshot, so two results that both satisfy
/// `get_matches`'s contract on the same arguments are identical.
pub proof fn lemma_complete_idempotent(
    conf: ConfigV,
    tlds: Seq<Dir>,
    input: Seq<char>,
    r1: Seq<(Seq<char>, Seq<char>)>,
    r2: Seq<(Seq<char>, Seq<char>)>,
)
    requires
        r1 == complete_spec(conf, tlds, input),
        r2 == complete_spec(conf, tlds, input),
    ensures
        r1 == r2,
{
}

} // verus!
