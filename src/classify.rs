use vstd::prelude::*;
use crate::path::{
    base_name, decimal, destination, file_name, file_name_of, has_file_name, join,
    is_under, law_relative_round_trip, lemma_base_name_has_no_slash, relative_path, relative_path_of,
    trim_end,
};
use crate::pattern::{Pattern, regex_matches};

verus! {

/// One file placed in a group: where it was found, and its path inside the group's folder.
pub struct Entry {
    pub source: String,
    pub dest: String,
}

impl View for Entry {
    type V = (Seq<char>, Seq<char>);

    open spec fn view(&self) -> (Seq<char>, Seq<char>) {
        (self.source@, self.dest@)
    }
}

impl Entry {
    pub fn new(source: &str, dest: &str) -> (r: Entry)
        ensures
            r@ == (source@, dest@),
    {
        Entry { source: String::from_str(source), dest: String::from_str(dest) }
    }
}

pub open spec fn texts(v: Seq<String>) -> Seq<Seq<char>> {
    v.map_values(|s: String| s@)
}

pub open spec fn entries(g: Seq<Entry>) -> Seq<(Seq<char>, Seq<char>)> {
    g.map_values(|e: Entry| e@)
}

pub open spec fn sources(g: Seq<(Seq<char>, Seq<char>)>) -> Seq<Seq<char>> {
    g.map_values(|e: (Seq<char>, Seq<char>)| e.0)
}

/// Path of a file inside its group's folder: relative to the source root, or only
/// its file name when flattening.
pub open spec fn dest_for(path: Seq<char>, root: Seq<char>, flat: bool) -> Seq<char> {
    if flat {
        file_name(relative_path(path, root))
    } else {
        relative_path(path, root)
    }
}

/// A file can be placed unless flattening finds it no file name.
pub open spec fn placeable(path: Seq<char>, root: Seq<char>, flat: bool) -> bool {
    !flat || has_file_name(relative_path(path, root))
}

/// The group built from `files` in order, where `hits[k]` says whether the group's
/// expression matched `files[k]`; a source already placed is not placed again.
pub open spec fn group_of(
    files: Seq<Seq<char>>,
    hits: Seq<bool>,
    root: Seq<char>,
    flat: bool,
) -> Seq<(Seq<char>, Seq<char>)>
    decreases files.len(),
{
    if files.len() == 0 {
        Seq::empty()
    } else {
        let prev = group_of(files.drop_last(), hits, root, flat);
        let f = files.last();
        if hits[files.len() - 1] && placeable(f, root, flat) && !sources(prev).contains(f) {
            prev.push((f, dest_for(f, root, flat)))
        } else {
            prev
        }
    }
}

/// What the expression `expr` says of each of `files`.
pub open spec fn match_row(expr: Seq<char>, files: Seq<Seq<char>>) -> Seq<bool> {
    Seq::new(files.len(), |k: int| regex_matches(expr, files[k]))
}

/// The groups for the expressions `exprs`, in their order.
pub open spec fn groups_of(
    exprs: Seq<Seq<char>>,
    files: Seq<Seq<char>>,
    root: Seq<char>,
    flat: bool,
) -> Seq<Seq<(Seq<char>, Seq<char>)>> {
    Seq::new(exprs.len(), |i: int| group_of(files, match_row(exprs[i], files), root, flat))
}

proof fn lemma_sources_push(g: Seq<(Seq<char>, Seq<char>)>, e: (Seq<char>, Seq<char>))
    ensures
        sources(g.push(e)) == sources(g).push(e.0),
{
    assert(sources(g.push(e)) =~= sources(g).push(e.0));
}

/// A file is in a group exactly when it is among the files, its expression matched
/// it, and it can be placed.
pub proof fn lemma_group_membership(
    files: Seq<Seq<char>>,
    hits: Seq<bool>,
    root: Seq<char>,
    flat: bool,
    f: Seq<char>,
)
    requires
        hits.len() == files.len(),
    ensures
        sources(group_of(files, hits, root, flat)).contains(f) <==> exists|k: int|
            0 <= k < files.len() && files[k] == f && hits[k] && placeable(f, root, flat),
    decreases files.len(),
{
    if files.len() > 0 {
        let pre = files.drop_last();
        let prev = group_of(pre, hits, root, flat);
        lemma_group_membership(pre, hits.subrange(0, pre.len() as int), root, flat, f);
        lemma_group_of_hits_prefix(pre, hits, root, flat);
        let last = files.last();
        if hits[files.len() - 1] && placeable(last, root, flat) && !sources(prev).contains(last) {
            lemma_sources_push(prev, (last, dest_for(last, root, flat)));
        }
        if sources(group_of(files, hits, root, flat)).contains(f) {
            if sources(prev).contains(f) {
                let k = choose|k: int|
                    0 <= k < pre.len() && pre[k] == f && hits.subrange(0, pre.len() as int)[k]
                        && placeable(f, root, flat);
                assert(files[k] == f && hits[k]);
            } else {
                assert(files[files.len() - 1] == f);
            }
        }
        if exists|k: int| 0 <= k < files.len() && files[k] == f && hits[k] && placeable(f, root, flat) {
            let k = choose|k: int|
                0 <= k < files.len() && files[k] == f && hits[k] && placeable(f, root, flat);
            if k < files.len() - 1 {
                assert(pre[k] == f && hits.subrange(0, pre.len() as int)[k]);
                assert(sources(prev).contains(f));
                let m = choose|m: int| 0 <= m < sources(prev).len() && sources(prev)[m] == f;
                if hits[files.len() - 1] && placeable(last, root, flat) && !sources(prev).contains(last) {
                    assert(sources(group_of(files, hits, root, flat))[m] == f);
                }
            } else {
                if !sources(prev).contains(last) {
                    assert(sources(group_of(files, hits, root, flat)).last() == f);
                }
            }
        }
    }
}

/// Only the hits of the files at hand count.
proof fn lemma_group_of_hits_prefix(
    files: Seq<Seq<char>>,
    hits: Seq<bool>,
    root: Seq<char>,
    flat: bool,
)
    requires
        files.len() <= hits.len(),
    ensures
        group_of(files, hits, root, flat) == group_of(
            files,
            hits.subrange(0, files.len() as int),
            root,
            flat,
        ),
    decreases files.len(),
{
    if files.len() > 0 {
        let pre = files.drop_last();
        lemma_group_of_hits_prefix(pre, hits, root, flat);
        lemma_group_of_hits_prefix(pre, hits.subrange(0, files.len() as int), root, flat);
        assert(hits.subrange(0, files.len() as int).subrange(0, pre.len() as int) =~= hits.subrange(
            0,
            pre.len() as int,
        ));
    }
}

/// No source is placed twice in a group, and every entry's destination is the one
/// its source calls for.
pub proof fn lemma_group_well_formed(
    files: Seq<Seq<char>>,
    hits: Seq<bool>,
    root: Seq<char>,
    flat: bool,
)
    ensures
        sources(group_of(files, hits, root, flat)).no_duplicates(),
        forall|j: int|
            0 <= j < group_of(files, hits, root, flat).len() ==> {
                let e = #[trigger] group_of(files, hits, root, flat)[j];
                e.1 == dest_for(e.0, root, flat) && placeable(e.0, root, flat)
            },
    decreases files.len(),
{
    if files.len() > 0 {
        let pre = files.drop_last();
        let prev = group_of(pre, hits, root, flat);
        lemma_group_well_formed(pre, hits, root, flat);
        let last = files.last();
        if hits[files.len() - 1] && placeable(last, root, flat) && !sources(prev).contains(last) {
            lemma_sources_push(prev, (last, dest_for(last, root, flat)));
            let g = group_of(files, hits, root, flat);
            assert forall|j: int| 0 <= j < g.len() implies {
                let e = #[trigger] g[j];
                e.1 == dest_for(e.0, root, flat) && placeable(e.0, root, flat)
            } by {
                if j < prev.len() {
                    assert(g[j] == prev[j]);
                }
            }
        }
    }
}

/// A file is in the group of expression `i` exactly when it is among the files,
/// the expression matches its path, and it can be placed (flattening leaves it a name).
pub proof fn law_group_iff_match(
    exprs: Seq<Seq<char>>,
    files: Seq<Seq<char>>,
    root: Seq<char>,
    flat: bool,
    i: int,
    f: Seq<char>,
)
    requires
        0 <= i < exprs.len(),
    ensures
        sources(groups_of(exprs, files, root, flat)[i]).contains(f) <==> (files.contains(f)
            && regex_matches(exprs[i], f) && placeable(f, root, flat)),
{
    let hits = match_row(exprs[i], files);
    lemma_group_membership(files, hits, root, flat, f);
    if files.contains(f) && regex_matches(exprs[i], f) && placeable(f, root, flat) {
        let k = choose|k: int| 0 <= k < files.len() && files[k] == f;
        assert(hits[k]);
    }
}

/// No group holds two entries with the same source.
pub proof fn law_no_duplicate_sources(
    files: Seq<Seq<char>>,
    hits: Seq<bool>,
    root: Seq<char>,
    flat: bool,
)
    ensures
        sources(group_of(files, hits, root, flat)).no_duplicates(),
{
    lemma_group_well_formed(files, hits, root, flat);
}

/// When flattening, every destination is the file name of its source, a name with
/// no directory in it that is neither `.` nor `..`.
pub proof fn law_flat_destination_is_base_name(
    files: Seq<Seq<char>>,
    hits: Seq<bool>,
    root: Seq<char>,
)
    ensures
        forall|j: int|
            0 <= j < group_of(files, hits, root, true).len() ==> {
                let e = #[trigger] group_of(files, hits, root, true)[j];
                e.1 == file_name(relative_path(e.0, root)) && !e.1.contains('/') && has_file_name(
                    relative_path(e.0, root),
                )
            },
{
    lemma_group_well_formed(files, hits, root, true);
    assert forall|j: int| 0 <= j < group_of(files, hits, root, true).len() implies {
        let e = #[trigger] group_of(files, hits, root, true)[j];
        e.1 == file_name(relative_path(e.0, root)) && !e.1.contains('/') && has_file_name(
                    relative_path(e.0, root),
                )
    } by {
        let e = group_of(files, hits, root, true)[j];
        lemma_base_name_has_no_slash(trim_end(relative_path(e.0, root)));
    }
}

/// Without flattening, every entry of group `index` is written to its path
/// relative to the source root, inside the folder named by the prefix and `index + 1`.
pub proof fn law_nested_destination(
    files: Seq<Seq<char>>,
    hits: Seq<bool>,
    root: Seq<char>,
    output: Seq<char>,
    prefix: Seq<char>,
    index: nat,
)
    ensures
        forall|j: int|
            0 <= j < group_of(files, hits, root, false).len() ==> {
                let e = #[trigger] group_of(files, hits, root, false)[j];
                &&& e.1 == relative_path(e.0, root)
                &&& destination(output, prefix, index, e.1) == join(
                    output,
                    join(prefix + decimal(index + 1), relative_path(e.0, root)),
                )
            },
{
    lemma_group_well_formed(files, hits, root, false);
}

/// The files that `hits` marks and that can be placed, in order, each with its
/// destination.
pub open spec fn matched_entries(
    files: Seq<Seq<char>>,
    hits: Seq<bool>,
    root: Seq<char>,
    flat: bool,
) -> Seq<(Seq<char>, Seq<char>)>
    decreases files.len(),
{
    if files.len() == 0 {
        Seq::empty()
    } else {
        let prev = matched_entries(files.drop_last(), hits, root, flat);
        let f = files.last();
        if hits[files.len() - 1] && placeable(f, root, flat) {
            prev.push((f, dest_for(f, root, flat)))
        } else {
            prev
        }
    }
}

/// `files` with every repetition of a path left out; first occurrences keep their order.
pub open spec fn dedup(files: Seq<Seq<char>>) -> Seq<Seq<char>>
    decreases files.len(),
{
    if files.len() == 0 {
        Seq::empty()
    } else {
        let prev = dedup(files.drop_last());
        if prev.contains(files.last()) {
            prev
        } else {
            prev.push(files.last())
        }
    }
}

proof fn lemma_dedup_contains(files: Seq<Seq<char>>, f: Seq<char>)
    ensures
        dedup(files).contains(f) <==> files.contains(f),
    decreases files.len(),
{
    if files.len() > 0 {
        let pre = files.drop_last();
        lemma_dedup_contains(pre, f);
        if pre.contains(f) {
            let k = choose|k: int| 0 <= k < pre.len() && pre[k] == f;
            assert(files[k] == f);
        }
        if files.contains(f) && f != files.last() {
            let k = choose|k: int| 0 <= k < files.len() && files[k] == f;
            assert(pre[k] == f);
        }
        if !dedup(pre).contains(files.last()) {
            assert(dedup(files).last() == files.last());
            if dedup(pre).contains(f) {
                let k = choose|k: int| 0 <= k < dedup(pre).len() && dedup(pre)[k] == f;
                assert(dedup(files)[k] == f);
            }
        }
        if dedup(files).contains(f) && !dedup(pre).contains(f) {
            let k = choose|k: int| 0 <= k < dedup(files).len() && dedup(files)[k] == f;
            if k < dedup(pre).len() {
                assert(dedup(pre)[k] == f);
            }
        }
        if f == files.last() {
            assert(files[files.len() - 1] == f);
        }
    }
}

/// Where no path repeats, the group of an expression is exactly the files it
/// matches, in their order, each with its destination.
pub proof fn law_group_is_matching_files(
    files: Seq<Seq<char>>,
    hits: Seq<bool>,
    root: Seq<char>,
    flat: bool,
)
    requires
        hits.len() == files.len(),
        files.no_duplicates(),
    ensures
        group_of(files, hits, root, flat) == matched_entries(files, hits, root, flat),
    decreases files.len(),
{
    if files.len() > 0 {
        let pre = files.drop_last();
        let short = hits.subrange(0, pre.len() as int);
        lemma_group_of_hits_prefix(pre, hits, root, flat);
        lemma_matched_hits_prefix(pre, hits, root, flat);
        law_group_is_matching_files(pre, short, root, flat);
        lemma_group_membership(pre, short, root, flat, files.last());
        if sources(group_of(pre, hits, root, flat)).contains(files.last()) {
            let k = choose|k: int|
                0 <= k < pre.len() && pre[k] == files.last() && short[k] && placeable(
                    files.last(),
                    root,
                    flat,
                );
            assert(files[k] == files[files.len() - 1]);
        }
    }
}

proof fn lemma_matched_hits_prefix(
    files: Seq<Seq<char>>,
    hits: Seq<bool>,
    root: Seq<char>,
    flat: bool,
)
    requires
        files.len() <= hits.len(),
    ensures
        matched_entries(files, hits, root, flat) == matched_entries(
            files,
            hits.subrange(0, files.len() as int),
            root,
            flat,
        ),
    decreases files.len(),
{
    if files.len() > 0 {
        let pre = files.drop_last();
        lemma_matched_hits_prefix(pre, hits, root, flat);
        lemma_matched_hits_prefix(pre, hits.subrange(0, files.len() as int), root, flat);
        assert(hits.subrange(0, files.len() as int).subrange(0, pre.len() as int) =~= hits.subrange(
            0,
            pre.len() as int,
        ));
    }
}

/// Where no path repeats, the group of expression `i` is exactly the files whose
/// whole path it matches, in order, each with its destination.
pub proof fn law_group_of_expression(
    exprs: Seq<Seq<char>>,
    files: Seq<Seq<char>>,
    root: Seq<char>,
    flat: bool,
    i: int,
)
    requires
        0 <= i < exprs.len(),
        files.no_duplicates(),
    ensures
        groups_of(exprs, files, root, flat)[i] == matched_entries(
            files,
            match_row(exprs[i], files),
            root,
            flat,
        ),
{
    law_group_is_matching_files(files, match_row(exprs[i], files), root, flat);
}

/// Repeating a path changes no group: the groups of a list equal those of the list
/// with its repetitions left out.
pub proof fn law_repeats_change_nothing(
    exprs: Seq<Seq<char>>,
    files: Seq<Seq<char>>,
    root: Seq<char>,
    flat: bool,
)
    ensures
        groups_of(exprs, files, root, flat) == groups_of(exprs, dedup(files), root, flat),
{
    assert forall|i: int| 0 <= i < exprs.len() implies #[trigger] groups_of(
        exprs,
        files,
        root,
        flat,
    )[i] == groups_of(exprs, dedup(files), root, flat)[i] by {
        lemma_group_dedup(exprs[i], files, root, flat);
    }
    assert(groups_of(exprs, files, root, flat) =~= groups_of(exprs, dedup(files), root, flat));
}

proof fn lemma_group_dedup(expr: Seq<char>, files: Seq<Seq<char>>, root: Seq<char>, flat: bool)
    ensures
        group_of(files, match_row(expr, files), root, flat) == group_of(
            dedup(files),
            match_row(expr, dedup(files)),
            root,
            flat,
        ),
    decreases files.len(),
{
    if files.len() > 0 {
        let pre = files.drop_last();
        let f = files.last();
        let d = dedup(pre);
        lemma_group_dedup(expr, pre, root, flat);
        lemma_group_of_hits_prefix(pre, match_row(expr, files), root, flat);
        assert(match_row(expr, files).subrange(0, pre.len() as int) =~= match_row(expr, pre));
        let prev = group_of(pre, match_row(expr, pre), root, flat);
        assert(group_of(pre, match_row(expr, files), root, flat) == prev);
        assert(match_row(expr, files)[files.len() - 1] == regex_matches(expr, f));
        lemma_dedup_contains(pre, f);
        if d.contains(f) {
            lemma_group_membership(pre, match_row(expr, pre), root, flat, f);
            if regex_matches(expr, f) && placeable(f, root, flat) {
                let k = choose|k: int| 0 <= k < pre.len() && pre[k] == f;
                assert(match_row(expr, pre)[k]);
            }
        } else {
            let dd = d.push(f);
            assert(dedup(files) == dd);
            assert(dd.drop_last() =~= d);
            lemma_group_of_hits_prefix(d, match_row(expr, dd), root, flat);
            assert(match_row(expr, dd).subrange(0, d.len() as int) =~= match_row(expr, d));
            assert(match_row(expr, dd)[dd.len() - 1] == regex_matches(expr, f));
        }
    }
}

/// Without flattening, the source root joined with an entry's destination gives the
/// entry's source back, for a source strictly below the root with no two separators
/// in a row.
pub proof fn law_source_from_destination(
    files: Seq<Seq<char>>,
    hits: Seq<bool>,
    root: Seq<char>,
)
    ensures
        forall|j: int|
            0 <= j < group_of(files, hits, root, false).len() ==> {
                let e = #[trigger] group_of(files, hits, root, false)[j];
                (is_under(e.0, root) && e.0.len() > root.len() && forall|i: int|
                    0 <= i < e.0.len() - 1 ==> !(#[trigger] e.0[i] == '/' && e.0[i + 1] == '/'))
                    ==> join(root, e.1) == e.0
            },
{
    lemma_group_well_formed(files, hits, root, false);
    assert forall|j: int| 0 <= j < group_of(files, hits, root, false).len() implies {
        let e = #[trigger] group_of(files, hits, root, false)[j];
        (is_under(e.0, root) && e.0.len() > root.len() && forall|i: int|
            0 <= i < e.0.len() - 1 ==> !(#[trigger] e.0[i] == '/' && e.0[i + 1] == '/'))
            ==> join(root, e.1) == e.0
    } by {
        let e = group_of(files, hits, root, false)[j];
        if is_under(e.0, root) && e.0.len() > root.len() && forall|i: int|
            0 <= i < e.0.len() - 1 ==> !(#[trigger] e.0[i] == '/' && e.0[i + 1] == '/') {
            law_relative_round_trip(e.0, root);
        }
    }
}

/// Whether `g` already holds an entry found at `source`.
pub fn has_source(g: &Vec<Entry>, source: &String) -> (r: bool)
    ensures
        r == sources(entries(g@)).contains(source@),
{
    let mut j: usize = 0;
    while j < g.len()
        invariant
            j <= g.len(),
            forall|m: int| 0 <= m < j ==> g@[m].source@ != source@,
        decreases g.len() - j,
    {
        if g[j].source == *source {
            assert(sources(entries(g@))[j as int] == source@);
            return true;
        }
        j += 1;
    }
    proof {
        let srcs = sources(entries(g@));
        if srcs.contains(source@) {
            let m = choose|m: int| 0 <= m < srcs.len() && srcs[m] == source@;
            assert(g@[m].source@ == source@);
        }
    }
    false
}

/// Path of `path` inside a group's folder, or `None` where flattening leaves no name.
pub fn dest_of(path: &String, root: &String, flat: bool) -> (r: Option<String>)
    ensures
        r is Some <==> placeable(path@, root@, flat),
        r matches Some(d) ==> d@ == dest_for(path@, root@, flat),
{
    let rel = relative_path_of(path.as_str(), root.as_str());
    if flat {
        file_name_of(rel.as_str())
    } else {
        Some(rel)
    }
}

/// Builds one group: `hits[k]` says whether the group's expression matched `paths[k]`.
pub fn assign_group(hits: &Vec<bool>, paths: &Vec<String>, source_path: &String, flat: bool) -> (r:
    Vec<Entry>)
    requires
        hits.len() == paths.len(),
    ensures
        entries(r@) == group_of(texts(paths@), hits@, source_path@, flat),
{
    let mut group: Vec<Entry> = Vec::new();
    let mut k: usize = 0;
    while k < paths.len()
        invariant
            k <= paths.len(),
            hits.len() == paths.len(),
            entries(group@) == group_of(texts(paths@).subrange(0, k as int), hits@, source_path@, flat),
        decreases paths.len() - k,
    {
        let ghost files = texts(paths@).subrange(0, k + 1);
        assert(files.drop_last() =~= texts(paths@).subrange(0, k as int));
        assert(files.last() == paths@[k as int]@);
        if hits[k] {
            match dest_of(&paths[k], source_path, flat) {
                Some(dest) => {
                    if !has_source(&group, &paths[k]) {
                        let ghost before = group@;
                        group.push(Entry { source: paths[k].clone(), dest });
                        assert(entries(group@) =~= entries(before).push(group@.last()@));
                    }
                },
                None => {},
            }
        }
        k += 1;
    }
    assert(texts(paths@).subrange(0, paths.len() as int) =~= texts(paths@));
    group
}

/// Builds every group from a table of match results: `hits[i][k]` says whether
/// expression `i` matched `paths[k]`.
pub fn assign_groups(
    hits: &Vec<Vec<bool>>,
    paths: &Vec<String>,
    source_path: &String,
    flat: bool,
) -> (r: Vec<Vec<Entry>>)
    requires
        forall|i: int| 0 <= i < hits.len() ==> (#[trigger] hits[i]).len() == paths.len(),
    ensures
        r.len() == hits.len(),
        forall|i: int|
            0 <= i < r.len() ==> entries((#[trigger] r[i])@) == group_of(
                texts(paths@),
                hits[i]@,
                source_path@,
                flat,
            ),
{
    let mut groups: Vec<Vec<Entry>> = Vec::new();
    let mut i: usize = 0;
    while i < hits.len()
        invariant
            i <= hits.len(),
            groups.len() == i,
            forall|i: int| 0 <= i < hits.len() ==> (#[trigger] hits[i]).len() == paths.len(),
            forall|j: int|
                0 <= j < i ==> entries((#[trigger] groups[j])@) == group_of(
                    texts(paths@),
                    hits[j]@,
                    source_path@,
                    flat,
                ),
        decreases hits.len() - i,
    {
        groups.push(assign_group(&hits[i], paths, source_path, flat));
        i += 1;
    }
    groups
}

/// Puts each file into the group of every expression that matches its path.
pub fn create_groups(
    patterns: &Vec<Pattern>,
    paths: &Vec<String>,
    source_path: &String,
    flat: bool,
) -> (r: Vec<Vec<Entry>>)
    ensures
        r.len() == patterns.len(),
        forall|i: int|
            0 <= i < r.len() ==> entries((#[trigger] r[i])@) == groups_of(
                patterns@.map_values(|p: Pattern| p@),
                texts(paths@),
                source_path@,
                flat,
            )[i],
{
    let mut hits: Vec<Vec<bool>> = Vec::new();
    let mut i: usize = 0;
    while i < patterns.len()
        invariant
            i <= patterns.len(),
            hits.len() == i,
            forall|j: int|
                0 <= j < i ==> (#[trigger] hits[j])@ == match_row(patterns[j]@, texts(paths@)),
        decreases patterns.len() - i,
    {
        let mut row: Vec<bool> = Vec::new();
        let mut k: usize = 0;
        while k < paths.len()
            invariant
                i < patterns.len(),
                k <= paths.len(),
                row.len() == k,
                forall|m: int| 0 <= m < k ==> row[m] == regex_matches(patterns[i as int]@, paths@[m]@),
            decreases paths.len() - k,
        {
            row.push(patterns[i].is_match(paths[k].as_str()));
            k += 1;
        }
        assert(row@ =~= match_row(patterns[i as int]@, texts(paths@)));
        hits.push(row);
        i += 1;
    }
    assign_groups(&hits, paths, source_path, flat)
}

} // verus!
