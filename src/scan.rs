use vstd::prelude::*;
use crate::path::{has_prefix, starts_with};

verus! {

/// One entry of a directory listing: its path, and whether it is a regular file.
pub struct DirEntry {
    pub path: String,
    pub is_file: bool,
}

impl View for DirEntry {
    type V = (Seq<char>, bool);

    open spec fn view(&self) -> (Seq<char>, bool) {
        (self.path@, self.is_file)
    }
}

/// What reading the directory asked for turned out to be.
pub enum ScanEvent {
    /// The path does not exist.
    Missing,
    /// The directory exists but cannot be listed (permissions and the like).
    Unreadable,
    /// The directory's entries, in the order the system gave them.
    Listed(Vec<DirEntry>),
    /// Reading an entry of the listing failed.
    Failed,
}

/// What the caller is asked to do next.
pub enum ScanAction {
    /// List the directory at `path` and report what came of it.
    ReadDir { path: String },
    /// The scan is complete; `files` holds the result.
    Done,
    /// A path to be read does not exist.
    NotFound { path: String },
    /// Reading a listing failed.
    Failed,
}

pub enum ScanActionView {
    ReadDir(Seq<char>),
    Done,
    NotFound(Seq<char>),
    Failed,
}

impl View for ScanAction {
    type V = ScanActionView;

    open spec fn view(&self) -> ScanActionView {
        match self {
            ScanAction::ReadDir { path } => ScanActionView::ReadDir(path@),
            ScanAction::Done => ScanActionView::Done,
            ScanAction::NotFound { path } => ScanActionView::NotFound(path@),
            ScanAction::Failed => ScanActionView::Failed,
        }
    }
}

pub enum ScanStatus {
    Running,
    NotFound(Seq<char>),
    Failed,
}

pub struct ScanState {
    /// Entries still to visit; the last one is visited first.
    pub pending: Seq<(Seq<char>, bool)>,
    /// Files found so far, in order.
    pub files: Seq<Seq<char>>,
    /// The directory whose listing is awaited.
    pub waiting: Option<Seq<char>>,
    pub status: ScanStatus,
}

pub open spec fn entry_views(v: Seq<DirEntry>) -> Seq<(Seq<char>, bool)> {
    v.map_values(|e: DirEntry| e@)
}

/// A path without a leading `./`.
pub open spec fn normalized(p: Seq<char>) -> Seq<char> {
    if starts_with(p, seq!['.', '/']) {
        p.subrange(2, p.len() as int)
    } else {
        p
    }
}

/// A listing as pending entries: paths normalized, the first entry on top.
pub open spec fn pushed(listing: Seq<(Seq<char>, bool)>) -> Seq<(Seq<char>, bool)> {
    Seq::new(
        listing.len(),
        |i: int|
            (
                normalized(listing[listing.len() - 1 - i].0),
                listing[listing.len() - 1 - i].1,
            ),
    )
}

/// Takes files off the top of `pending` into `files` until a directory is on top;
/// returns what is left, the files, and that directory (if any).
pub open spec fn settle(pending: Seq<(Seq<char>, bool)>, files: Seq<Seq<char>>) -> (
    Seq<(Seq<char>, bool)>,
    Seq<Seq<char>>,
    Option<Seq<char>>,
)
    decreases pending.len(),
{
    if pending.len() == 0 {
        (pending, files, None)
    } else if pending.last().1 {
        settle(pending.drop_last(), files.push(pending.last().0))
    } else {
        (pending.drop_last(), files, Some(pending.last().0))
    }
}

/// The state after asking for the next action in `s`.
pub open spec fn scan_advance(s: ScanState) -> ScanState {
    if s.status is Running && s.waiting is None {
        let (pending, files, dir) = settle(s.pending, s.files);
        ScanState { pending, files, waiting: dir, status: s.status }
    } else {
        s
    }
}

/// The action asked for in the state `scan_advance` leads to.
pub open spec fn scan_action_of(s: ScanState) -> ScanActionView {
    match s.status {
        ScanStatus::NotFound(p) => ScanActionView::NotFound(p),
        ScanStatus::Failed => ScanActionView::Failed,
        ScanStatus::Running => match s.waiting {
            Some(d) => ScanActionView::ReadDir(d),
            None => ScanActionView::Done,
        },
    }
}

/// The state after the awaited listing came back as `ev`: a missing path or a
/// failed read stops the scan; an unreadable directory counts as a file; a listing
/// is visited entry by entry, in its order.
pub open spec fn scan_report(s: ScanState, ev: ScanEvent) -> ScanState {
    match s.waiting {
        None => s,
        Some(_) if !(s.status is Running) => s,
        Some(d) => match ev {
            ScanEvent::Missing => ScanState { waiting: None, status: ScanStatus::NotFound(d), ..s },
            ScanEvent::Failed => ScanState { waiting: None, status: ScanStatus::Failed, ..s },
            ScanEvent::Unreadable => ScanState { waiting: None, files: s.files.push(d), ..s },
            ScanEvent::Listed(v) => ScanState {
                waiting: None,
                pending: s.pending + pushed(entry_views(v@)),
                ..s
            },
        },
    }
}

/// A depth-first walk of a directory tree that collects the paths of its files.
/// The caller performs each `ReadDir` asked for and hands back the outcome.
pub struct Scanner {
    pending: Vec<DirEntry>,
    files: Vec<String>,
    waiting: Option<String>,
    not_found: Option<String>,
    failed: bool,
}

impl View for Scanner {
    type V = ScanState;

    closed spec fn view(&self) -> ScanState {
        ScanState {
            pending: entry_views(self.pending@),
            files: self.files@.map_values(|f: String| f@),
            waiting: match self.waiting {
                Some(w) => Some(w@),
                None => None,
            },
            status: if self.not_found is Some {
                ScanStatus::NotFound(self.not_found->Some_0@)
            } else if self.failed {
                ScanStatus::Failed
            } else {
                ScanStatus::Running
            },
        }
    }
}

fn normalize(p: &String) -> (r: String)
    ensures
        r@ == normalized(p@),
{
    let dot_slash = "./";
    proof {
        reveal_strlit("./");
    }
    assert(dot_slash@ =~= seq!['.', '/']);
    if has_prefix(p.as_str(), dot_slash) {
        let len = p.as_str().unicode_len();
        String::from_str(p.as_str().substring_char(2, len))
    } else {
        p.clone()
    }
}

impl Scanner {
    /// A walk that starts at `root`.
    pub fn new(root: &String) -> (r: Scanner)
        ensures
            r@ == (ScanState {
                pending: seq![(root@, false)],
                files: Seq::empty(),
                waiting: None,
                status: ScanStatus::Running,
            }),
    {
        let mut pending: Vec<DirEntry> = Vec::new();
        pending.push(DirEntry { path: root.clone(), is_file: false });
        let r = Scanner { pending, files: Vec::new(), waiting: None, not_found: None, failed: false };
        assert(r@.pending =~= seq![(root@, false)]);
        assert(r@.files =~= Seq::empty());
        r
    }

    /// Moves on to the next directory to read, or to the end of the walk.
    pub fn next_action(&mut self) -> (a: ScanAction)
        ensures
            final(self)@ == scan_advance(old(self)@),
            a@ == scan_action_of(final(self)@),
    {
        if self.not_found.is_none() && !self.failed && self.waiting.is_none() {
            let ghost start = self@;
            while self.pending.len() > 0 && self.pending[self.pending.len() - 1].is_file
                invariant
                    self.not_found is None,
                    !self.failed,
                    self.waiting is None,
                    settle(self@.pending, self@.files) == settle(start.pending, start.files),
                decreases self.pending.len(),
            {
                let ghost before = self@;
                let top = self.pending.pop().unwrap();
                self.files.push(top.path);
                assert(self@.pending =~= before.pending.drop_last());
                assert(self@.files =~= before.files.push(before.pending.last().0));
            }
            if self.pending.len() > 0 {
                let ghost before = self@;
                let top = self.pending.pop().unwrap();
                self.waiting = Some(top.path);
                assert(self@.pending =~= before.pending.drop_last());
            }
        }
        match &self.not_found {
            Some(p) => ScanAction::NotFound { path: p.clone() },
            None => if self.failed {
                ScanAction::Failed
            } else {
                match &self.waiting {
                    Some(d) => ScanAction::ReadDir { path: d.clone() },
                    None => ScanAction::Done,
                }
            },
        }
    }

    /// Records what came of reading the directory last asked for.
    pub fn report(&mut self, ev: ScanEvent)
        ensures
            final(self)@ == scan_report(old(self)@, ev),
    {
        if self.not_found.is_some() || self.failed {
            return;
        }
        let d = match self.waiting.take() {
            Some(d) => d,
            None => return,
        };
        let ghost st = self@;
        match ev {
            ScanEvent::Missing => {
                self.not_found = Some(d);
            },
            ScanEvent::Failed => {
                self.failed = true;
            },
            ScanEvent::Unreadable => {
                let ghost before = self@.files;
                self.files.push(d);
                assert(self@.files =~= before.push(d@));
            },
            ScanEvent::Listed(listing) => {
                let ghost before = self@.pending;
                let ghost lv = entry_views(listing@);
                let mut k: usize = listing.len();
                while k > 0
                    invariant
                        k <= listing.len(),
                        lv == entry_views(listing@),
                        self@.files == st.files,
                        self@.waiting == st.waiting,
                        self@.status == st.status,
                        self@.pending == before + pushed(lv).subrange(0, (listing.len() - k) as int),
                    decreases k,
                {
                    let e = &listing[k - 1];
                    let path = normalize(&e.path);
                    let ghost prior = self@.pending;
                    self.pending.push(DirEntry { path, is_file: e.is_file });
                    assert(self@.pending =~= prior.push(pushed(lv)[(listing.len() - k) as int]));
                    assert(pushed(lv).subrange(0, (listing.len() - k + 1) as int) =~= pushed(lv).subrange(
                        0,
                        (listing.len() - k) as int,
                    ).push(pushed(lv)[(listing.len() - k) as int]));
                    k -= 1;
                }
                assert(pushed(lv).subrange(0, listing.len() as int) =~= pushed(lv));
            },
        }
    }

    /// The files found so far, in the order they were found.
    pub fn files(&self) -> (r: &Vec<String>)
        ensures
            r@.map_values(|f: String| f@) == self@.files,
    {
        &self.files
    }
}

} // verus!
