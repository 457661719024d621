use vstd::prelude::*;
use crate::path::{decimal, decimal_text, destination, destination_of, parent_dir, parent_dir_of};
use crate::classify::{Entry, entries, texts};

verus! {

/// Full destinations of the entries of group `index`.
pub open spec fn full_dests(
    g: Seq<(Seq<char>, Seq<char>)>,
    output: Seq<char>,
    prefix: Seq<char>,
    index: nat,
) -> Seq<Seq<char>> {
    g.map_values(|e: (Seq<char>, Seq<char>)| destination(output, prefix, index, e.1))
}

/// The directories that must exist before `dests` can be written: each parent once,
/// in order of first need; an empty parent needs nothing.
pub open spec fn dir_tree(dests: Seq<Seq<char>>) -> Seq<Seq<char>>
    decreases dests.len(),
{
    if dests.len() == 0 {
        Seq::empty()
    } else {
        let prev = dir_tree(dests.drop_last());
        let d = parent_dir(dests.last());
        if d.len() > 0 && !prev.contains(d) {
            prev.push(d)
        } else {
            prev
        }
    }
}

/// The lines that list the groups: a heading per group, then a tab and the
/// destination of each of its entries.
pub open spec fn tree_lines(groups: Seq<Seq<(Seq<char>, Seq<char>)>>) -> Seq<Seq<char>>
    decreases groups.len(),
{
    if groups.len() == 0 {
        Seq::empty()
    } else {
        tree_lines(groups.drop_last()) + seq![heading(groups.len())] + groups.last().map_values(
            |e: (Seq<char>, Seq<char>)| item_line(e.1),
        )
    }
}

pub open spec fn heading(number: nat) -> Seq<char> {
    seq!['G', 'r', 'o', 'u', 'p', ' '] + decimal(number) + seq![':']
}

pub open spec fn item_line(dest: Seq<char>) -> Seq<char> {
    seq!['\t'] + dest
}

/// Whether `v` holds a string equal to `s`.
fn contains_text(v: &Vec<String>, s: &String) -> (r: bool)
    ensures
        r == texts(v@).contains(s@),
{
    let mut j: usize = 0;
    while j < v.len()
        invariant
            j <= v.len(),
            forall|m: int| 0 <= m < j ==> v@[m]@ != s@,
        decreases v.len() - j,
    {
        if v[j] == *s {
            assert(texts(v@)[j as int] == s@);
            return true;
        }
        j += 1;
    }
    proof {
        let t = texts(v@);
        if t.contains(s@) {
            let m = choose|m: int| 0 <= m < t.len() && t[m] == s@;
            assert(v@[m]@ == s@);
        }
    }
    false
}

/// The directories to create for group `index` under `output`, each once.
pub fn create_dir_tree(group: &Vec<Entry>, output: &String, prefix: &String, index: usize) -> (r:
    Vec<String>)
    requires
        index < usize::MAX,
    ensures
        texts(r@) == dir_tree(full_dests(entries(group@), output@, prefix@, index as nat)),
{
    let ghost all = full_dests(entries(group@), output@, prefix@, index as nat);
    let mut dirs: Vec<String> = Vec::new();
    let mut k: usize = 0;
    while k < group.len()
        invariant
            k <= group.len(),
            index < usize::MAX,
            all == full_dests(entries(group@), output@, prefix@, index as nat),
            texts(dirs@) == dir_tree(all.subrange(0, k as int)),
        decreases group.len() - k,
    {
        assert(all.subrange(0, k + 1).drop_last() =~= all.subrange(0, k as int));
        let full = destination_of(output.as_str(), prefix.as_str(), index, group[k].dest.as_str());
        let parent = parent_dir_of(full.as_str());
        if parent.as_str().unicode_len() > 0 && !contains_text(&dirs, &parent) {
            let ghost before = dirs@;
            dirs.push(parent);
            assert(texts(dirs@) =~= texts(before).push(dirs@.last()@));
        }
        k += 1;
    }
    assert(all.subrange(0, group.len() as int) =~= all);
    dirs
}

/// The listing of every group, one line per heading and per entry.
pub fn group_tree_lines(groups: &Vec<Vec<Entry>>) -> (r: Vec<String>)
    requires
        groups.len() < usize::MAX,
    ensures
        texts(r@) == tree_lines(groups@.map_values(|g: Vec<Entry>| entries(g@))),
{
    let ghost all = groups@.map_values(|g: Vec<Entry>| entries(g@));
    let mut lines: Vec<String> = Vec::new();
    let mut i: usize = 0;
    while i < groups.len()
        invariant
            i <= groups.len(),
            groups.len() < usize::MAX,
            all == groups@.map_values(|g: Vec<Entry>| entries(g@)),
            texts(lines@) == tree_lines(all.subrange(0, i as int)),
        decreases groups.len() - i,
    {
        let ghost done = texts(lines@);
        assert(all.subrange(0, i + 1).drop_last() =~= all.subrange(0, i as int));
        let number = decimal_text(i + 1);
        let word = "Group ";
        let colon = ":";
        proof {
            reveal_strlit("Group ");
            reveal_strlit(":");
        }
        assert(word@ =~= seq!['G', 'r', 'o', 'u', 'p', ' ']);
        assert(colon@ =~= seq![':']);
        let head = String::from_str(word).concat(number.as_str()).concat(colon);
        assert(head@ =~= heading((i + 1) as nat));
        lines.push(head);
        let g = &groups[i];
        let ghost ge = entries(g@);
        let mut k: usize = 0;
        while k < g.len()
            invariant
                k <= g.len(),
                ge == entries(g@),
                texts(lines@) == done + seq![heading((i + 1) as nat)] + ge.subrange(0, k as int).map_values(
                    |e: (Seq<char>, Seq<char>)| item_line(e.1),
                ),
            decreases g.len() - k,
        {
            let tab = "\t";
            proof {
                reveal_strlit("\t");
            }
            assert(tab@ =~= seq!['\t']);
            let line = String::from_str(tab).concat(g[k].dest.as_str());
            assert(ge[k as int].1 == g@[k as int].dest@);
            assert(line@ =~= item_line(ge[k as int].1));
            let ghost before = lines@;
            lines.push(line);
            assert(texts(lines@) =~= texts(before).push(item_line(ge[k as int].1)));
            assert(ge.subrange(0, k + 1).map_values(|e: (Seq<char>, Seq<char>)| item_line(e.1))
                =~= ge.subrange(0, k as int).map_values(|e: (Seq<char>, Seq<char>)| item_line(e.1)).push(
                item_line(ge[k as int].1),
            ));
            k += 1;
        }
        assert(ge.subrange(0, g.len() as int) =~= ge);
        assert(all.subrange(0, i + 1).last() == ge);
        i += 1;
    }
    assert(all.subrange(0, groups.len() as int) =~= all);
    lines
}

} // verus!
