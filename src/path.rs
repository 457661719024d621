use vstd::prelude::*;

verus! {

/// `s` begins with `p`.
pub open spec fn starts_with(s: Seq<char>, p: Seq<char>) -> bool {
    p.len() <= s.len() && s.subrange(0, p.len() as int) == p
}

/// `path` lies at or below `root`, compared segment by segment.
pub open spec fn is_under(path: Seq<char>, root: Seq<char>) -> bool {
    &&& root.len() > 0
    &&& starts_with(path, root)
    &&& (root.last() == '/' || path.len() == root.len() || path[root.len() as int] == '/')
}

/// `path` with `root` taken off its front; unchanged where `path` does not lie under `root`.
pub open spec fn relative_path(path: Seq<char>, root: Seq<char>) -> Seq<char> {
    if is_under(path, root) {
        let rest = path.subrange(root.len() as int, path.len() as int);
        if rest.len() > 0 && rest[0] == '/' {
            rest.drop_first()
        } else {
            rest
        }
    } else {
        path
    }
}

/// Position of the last `/` in `s`, or -1 where there is none.
pub open spec fn last_slash(s: Seq<char>) -> int
    decreases s.len(),
{
    if s.len() == 0 {
        -1
    } else if s.last() == '/' {
        s.len() - 1
    } else {
        last_slash(s.drop_last())
    }
}

/// The last segment of a path: what follows its last `/`.
pub open spec fn base_name(s: Seq<char>) -> Seq<char> {
    s.subrange(last_slash(s) + 1, s.len() as int)
}

/// `s` without the separators and `.` segments at its end: those name no file.
pub open spec fn trim_end(s: Seq<char>) -> Seq<char>
    decreases s.len(),
{
    if s.len() > 0 && s.last() == '/' {
        trim_end(s.drop_last())
    } else if s.len() >= 2 && s.last() == '.' && s[s.len() - 2] == '/' {
        trim_end(s.subrange(0, s.len() - 2))
    } else {
        s
    }
}

/// The name of the file a path points at: its last segment once trailing
/// separators and `.` segments are set aside.
pub open spec fn file_name(s: Seq<char>) -> Seq<char> {
    base_name(trim_end(s))
}

/// A path names a file unless that last segment is empty, `.` or `..`.
pub open spec fn has_file_name(s: Seq<char>) -> bool {
    let n = file_name(s);
    n.len() > 0 && n != seq!['.'] && n != seq!['.', '.']
}

/// The directory that holds `s`: what precedes its last `/`. Empty where that is
/// nothing to create (no `/`, or only the leading one).
pub open spec fn parent_dir(s: Seq<char>) -> Seq<char> {
    if last_slash(s) <= 0 {
        Seq::empty()
    } else {
        s.subrange(0, last_slash(s))
    }
}

/// `b` appended to `a` with one separator; an absolute `b` replaces `a`.
pub open spec fn join(a: Seq<char>, b: Seq<char>) -> Seq<char> {
    if a.len() == 0 {
        b
    } else if b.len() > 0 && b[0] == '/' {
        b
    } else if a.last() == '/' {
        a + b
    } else {
        a + seq!['/'] + b
    }
}

pub open spec fn digit_char(d: nat) -> char {
    if d == 0 { '0' }
    else if d == 1 { '1' }
    else if d == 2 { '2' }
    else if d == 3 { '3' }
    else if d == 4 { '4' }
    else if d == 5 { '5' }
    else if d == 6 { '6' }
    else if d == 7 { '7' }
    else if d == 8 { '8' }
    else { '9' }
}

/// Decimal digits of `n`, most significant first, without leading zeros.
pub open spec fn decimal(n: nat) -> Seq<char>
    decreases n,
{
    if n < 10 {
        seq![digit_char(n)]
    } else {
        decimal(n / 10) + seq![digit_char(n % 10)]
    }
}

/// Name of the folder of the group at (0-based) `index`: the prefix, then `index + 1`.
pub open spec fn group_folder(prefix: Seq<char>, index: nat) -> Seq<char> {
    prefix + decimal(index + 1)
}

/// Where an entry with destination `dest` of group `index` is written.
pub open spec fn destination(
    output: Seq<char>,
    prefix: Seq<char>,
    index: nat,
    dest: Seq<char>,
) -> Seq<char> {
    join(output, join(group_folder(prefix, index), dest))
}

pub proof fn lemma_last_slash(s: Seq<char>)
    ensures
        -1 <= last_slash(s) < s.len(),
        last_slash(s) >= 0 ==> s[last_slash(s)] == '/',
        forall|j: int| last_slash(s) < j < s.len() ==> s[j] != '/',
    decreases s.len(),
{
    if s.len() > 0 && s.last() != '/' {
        lemma_last_slash(s.drop_last());
        assert forall|j: int| last_slash(s) < j < s.len() implies s[j] != '/' by {
            if j < s.len() - 1 {
                assert(s[j] == s.drop_last()[j]);
            }
        }
    }
}

/// Joining a path's part below `root` back onto `root` gives the path again, for a
/// path strictly below `root` that has no two separators in a row.
pub proof fn law_relative_round_trip(path: Seq<char>, root: Seq<char>)
    requires
        is_under(path, root),
        path.len() > root.len(),
        forall|i: int| 0 <= i < path.len() - 1 ==> !(#[trigger] path[i] == '/' && path[i + 1] == '/'),
    ensures
        join(root, relative_path(path, root)) == path,
{
    let rl = root.len() as int;
    let rest = path.subrange(rl, path.len() as int);
    assert(path.subrange(0, rl) == root);
    if root.last() == '/' {
        assert(path[rl - 1] == '/');
        assert(rest[0] != '/');
        assert(root + rest =~= path);
    } else {
        assert(rest[0] == '/');
        if rest.len() > 1 {
            assert(rest.drop_first()[0] == path[rl + 1]);
        }
        assert(root + seq!['/'] + rest.drop_first() =~= path);
    }
}

/// The base name of a path holds no separator.
pub proof fn lemma_base_name_has_no_slash(s: Seq<char>)
    ensures
        !base_name(s).contains('/'),
{
    lemma_last_slash(s);
    if base_name(s).contains('/') {
        let j = choose|j: int| 0 <= j < base_name(s).len() && base_name(s)[j] == '/';
        assert(s[last_slash(s) + 1 + j] == '/');
    }
}

fn digit_text(d: usize) -> (r: &'static str)
    requires
        d < 10,
    ensures
        r@ == seq![digit_char(d as nat)],
{
    proof {
        reveal_strlit("0");
        reveal_strlit("1");
        reveal_strlit("2");
        reveal_strlit("3");
        reveal_strlit("4");
        reveal_strlit("5");
        reveal_strlit("6");
        reveal_strlit("7");
        reveal_strlit("8");
        reveal_strlit("9");
    }
    let r = if d == 0 { "0" }
    else if d == 1 { "1" }
    else if d == 2 { "2" }
    else if d == 3 { "3" }
    else if d == 4 { "4" }
    else if d == 5 { "5" }
    else if d == 6 { "6" }
    else if d == 7 { "7" }
    else if d == 8 { "8" }
    else { "9" };
    assert(r@ =~= seq![digit_char(d as nat)]);
    r
}

/// `n` written in decimal.
pub fn decimal_text(n: usize) -> (r: String)
    ensures
        r@ == decimal(n as nat),
{
    let mut out = String::from_str(digit_text(n % 10));
    let mut m: usize = n / 10;
    while m > 0
        invariant
            m > 0 ==> decimal(n as nat) == decimal(m as nat) + out@,
            m == 0 ==> decimal(n as nat) == out@,
        decreases m,
    {
        let d = digit_text(m % 10);
        let ghost old_out = out@;
        out = String::from_str(d).concat(out.as_str());
        proof {
            if m >= 10 {
                assert(decimal(m as nat) == decimal((m / 10) as nat) + seq![digit_char((m % 10) as nat)]);
                assert(decimal(n as nat) =~= decimal((m / 10) as nat) + out@);
            } else {
                assert(decimal(n as nat) =~= out@);
            }
        }
        m = m / 10;
    }
    out
}

/// `s` begins with `p`.
pub fn has_prefix(s: &str, p: &str) -> (r: bool)
    ensures
        r == starts_with(s@, p@),
{
    let sl = s.unicode_len();
    let pl = p.unicode_len();
    if pl > sl {
        return false;
    }
    let mut i: usize = 0;
    while i < pl
        invariant
            pl == p@.len(),
            sl == s@.len(),
            pl <= sl,
            i <= pl,
            forall|j: int| 0 <= j < i ==> s@[j] == p@[j],
        decreases pl - i,
    {
        if s.get_char(i) != p.get_char(i) {
            assert(s@.subrange(0, pl as int)[i as int] != p@[i as int]);
            return false;
        }
        i += 1;
    }
    assert(s@.subrange(0, pl as int) =~= p@);
    true
}

/// Position of the last `/` in `s`, if any.
pub fn find_last_slash(s: &str) -> (r: Option<usize>)
    ensures
        match r {
            Some(k) => k == last_slash(s@),
            None => last_slash(s@) == -1,
        },
{
    let mut i = s.unicode_len();
    assert(s@.subrange(0, i as int) =~= s@);
    while i > 0
        invariant
            i <= s@.len(),
            last_slash(s@) == last_slash(s@.subrange(0, i as int)),
        decreases i,
    {
        if s.get_char(i - 1) == '/' {
            return Some(i - 1);
        }
        assert(s@.subrange(0, i as int).drop_last() =~= s@.subrange(0, i - 1));
        i -= 1;
    }
    None
}

/// `path` relative to `root`, or `path` itself where it does not lie under `root`.
pub fn relative_path_of(path: &str, root: &str) -> (r: String)
    ensures
        r@ == relative_path(path@, root@),
{
    let pl = path.unicode_len();
    let rl = root.unicode_len();
    if rl > 0 && rl <= pl && has_prefix(path, root) && (root.get_char(rl - 1) == '/' || pl == rl
        || path.get_char(rl) == '/') {
        let ghost rest = path@.subrange(rl as int, pl as int);
        if rl < pl && path.get_char(rl) == '/' {
            assert(rest.drop_first() =~= path@.subrange(rl + 1, pl as int));
            String::from_str(path.substring_char(rl + 1, pl))
        } else {
            String::from_str(path.substring_char(rl, pl))
        }
    } else {
        String::from_str(path)
    }
}

/// The last segment of `s`.
pub fn base_name_of(s: &str) -> (r: String)
    ensures
        r@ == base_name(s@),
{
    proof {
        lemma_last_slash(s@);
    }
    let len = s.unicode_len();
    match find_last_slash(s) {
        Some(k) => String::from_str(s.substring_char(k + 1, len)),
        None => String::from_str(s.substring_char(0, len)),
    }
}

/// Length of `trim_end(s)`.
fn trimmed_len(s: &str) -> (n: usize)
    ensures
        n <= s@.len(),
        s@.subrange(0, n as int) == trim_end(s@),
{
    let mut n = s.unicode_len();
    assert(s@.subrange(0, n as int) =~= s@);
    while n > 0 && (s.get_char(n - 1) == '/' || (n >= 2 && s.get_char(n - 1) == '.' && s.get_char(
        n - 2,
    ) == '/'))
        invariant
            n <= s@.len(),
            trim_end(s@.subrange(0, n as int)) == trim_end(s@),
        decreases n,
    {
        let ghost t = s@.subrange(0, n as int);
        if s.get_char(n - 1) == '/' {
            assert(t.drop_last() =~= s@.subrange(0, n - 1));
            n -= 1;
        } else {
            assert(t.subrange(0, t.len() - 2) =~= s@.subrange(0, n - 2));
            n -= 2;
        }
    }
    n
}

/// The name of the file `s` points at, if it names one.
pub fn file_name_of(s: &str) -> (r: Option<String>)
    ensures
        r is Some <==> has_file_name(s@),
        r matches Some(n) ==> n@ == file_name(s@),
{
    let n = trimmed_len(s);
    let name = base_name_of(s.substring_char(0, n));
    let len = name.as_str().unicode_len();
    if len == 0 {
        None
    } else if len == 1 && name.as_str().get_char(0) == '.' {
        assert(name@ =~= seq!['.']);
        None
    } else if len == 2 && name.as_str().get_char(0) == '.' && name.as_str().get_char(1) == '.' {
        assert(name@ =~= seq!['.', '.']);
        None
    } else {
        proof {
            if name@ == seq!['.'] {
                assert(name@[0] == '.');
            }
            if name@ == seq!['.', '.'] {
                assert(name@[0] == '.' && name@[1] == '.');
            }
        }
        Some(name)
    }
}

/// The directory holding `s`; empty where there is none to create.
pub fn parent_dir_of(s: &str) -> (r: String)
    ensures
        r@ == parent_dir(s@),
{
    proof {
        lemma_last_slash(s@);
    }
    match find_last_slash(s) {
        Some(k) => {
            if k == 0 {
                String::new()
            } else {
                String::from_str(s.substring_char(0, k))
            }
        },
        None => String::new(),
    }
}

/// `b` appended to `a`, as `join` says.
pub fn join_of(a: &str, b: &str) -> (r: String)
    ensures
        r@ == join(a@, b@),
{
    proof {
        reveal_strlit("/");
    }
    let al = a.unicode_len();
    let bl = b.unicode_len();
    if al == 0 {
        String::from_str(b)
    } else if bl > 0 && b.get_char(0) == '/' {
        String::from_str(b)
    } else if a.get_char(al - 1) == '/' {
        String::from_str(a).concat(b)
    } else {
        let r = String::from_str(a).concat("/").concat(b);
        assert(r@ =~= a@ + seq!['/'] + b@);
        r
    }
}

/// Name of the folder of the group at `index`.
pub fn group_folder_of(prefix: &str, index: usize) -> (r: String)
    requires
        index < usize::MAX,
    ensures
        r@ == group_folder(prefix@, index as nat),
{
    let n = decimal_text(index + 1);
    String::from_str(prefix).concat(n.as_str())
}

/// Full destination of `dest` in group `index` under `output`.
pub fn destination_of(output: &str, prefix: &str, index: usize, dest: &str) -> (r: String)
    requires
        index < usize::MAX,
    ensures
        r@ == destination(output@, prefix@, index as nat, dest@),
{
    let folder = group_folder_of(prefix, index);
    let inner = join_of(folder.as_str(), dest);
    join_of(output, inner.as_str())
}

} // verus!
