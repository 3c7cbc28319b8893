//! The search for a game's mod folder below a starting folder, as a state
//! machine: the application lists the folders it asks for and feeds the
//! listings back, and the machine decides where to look next and when the
//! folder is found.
//!
//! The search looks at the entries of a folder in order. A sub-folder whose
//! name equals the wanted name (ASCII case ignored) is the answer; otherwise
//! the search goes down into it, while the depth allows, before it moves on
//! to the next entry. An entry without a name ends the search of the folder
//! that holds it. A folder that cannot be listed holds nothing.

use vstd::prelude::*;
use crate::paths::{path_file_name, path_push, path_views, FsPath, PathView};
use crate::text::{eq_ignore_ascii_case, str_eq_ignore_ascii_case};

verus! {

/// One entry of a folder listing: its path and whether it is a folder.
pub struct DirEntry {
    pub path: FsPath,
    pub is_dir: bool,
}

/// The contents of a [`DirEntry`].
pub open spec fn entry_view(e: DirEntry) -> (PathView, bool) {
    (e.path@, e.is_dir)
}

/// The contents of a listing.
pub open spec fn listing_view(v: Seq<DirEntry>) -> Seq<(PathView, bool)> {
    v.map_values(|e: DirEntry| entry_view(e))
}

/// A file system as the search sees it: the listing of each folder, or
/// `None` for a path that is no folder or cannot be read.
pub type FsModel = spec_fn(PathView) -> Option<Seq<(PathView, bool)>>;

/// The folder named `wanted` below `p` on the file system `fs`, looking
/// `depth` levels down (see the module documentation).
pub open spec fn find_folder(fs: FsModel, p: PathView, wanted: Seq<char>, depth: nat) -> Option<PathView>
    decreases depth, 1nat, 0nat,
{
    if depth == 0 {
        None
    } else {
        match fs(p) {
            None => None,
            Some(entries) => scan_entries(fs, entries, wanted, depth),
        }
    }
}

/// The search through the entries `entries` of a folder at depth `depth`.
pub open spec fn scan_entries(fs: FsModel, entries: Seq<(PathView, bool)>, wanted: Seq<char>, depth: nat) -> Option<PathView>
    decreases depth, 0nat, entries.len(),
{
    if entries.len() == 0 {
        None
    } else {
        let (q, is_dir) = entries[0];
        if !is_dir {
            scan_entries(fs, entries.drop_first(), wanted, depth)
        } else {
            match path_file_name(q) {
                None => None,
                Some(n) => if eq_ignore_ascii_case(n, wanted) {
                    Some(q)
                } else {
                    let below = if depth > 0 {
                        find_folder(fs, q, wanted, (depth - 1) as nat)
                    } else {
                        None
                    };
                    match below {
                        Some(f) => Some(f),
                        None => scan_entries(fs, entries.drop_first(), wanted, depth),
                    }
                },
            }
        }
    }
}

/// A folder being searched: its listing, the index of the next entry to
/// look at, and its depth.
pub struct Frame {
    pub entries: Vec<DirEntry>,
    pub next: usize,
    pub depth: u8,
}

/// What is left to search in the frame `f`.
pub open spec fn frame_rest(f: Frame) -> Seq<(PathView, bool)> {
    listing_view(f.entries@).skip(f.next as int)
}

/// The result of searching what is left of `frames`, innermost last.
pub open spec fn continue_search(fs: FsModel, frames: Seq<Frame>, wanted: Seq<char>) -> Option<PathView>
    decreases frames.len(),
{
    if frames.len() == 0 {
        None
    } else {
        match scan_entries(fs, frame_rest(frames.last()), wanted, frames.last().depth as nat) {
            Some(f) => Some(f),
            None => continue_search(fs, frames.drop_last(), wanted),
        }
    }
}

/// The result of a search that waits for the listing of `pending`, to be
/// searched at depth `depth`, before it continues with `frames`.
pub open spec fn pending_result(fs: FsModel, frames: Seq<Frame>, pending: PathView, depth: nat, wanted: Seq<char>) -> Option<PathView> {
    match find_folder(fs, pending, wanted, depth) {
        Some(f) => Some(f),
        None => continue_search(fs, frames, wanted),
    }
}

/// What the search asks for or reports.
pub enum SearchStep {
    /// List this folder and pass the listing to [`FolderSearch::resume`].
    List(FsPath),
    /// The wanted folder.
    Found(FsPath),
    /// The wanted folder is not there.
    NotFound,
}

/// A search in progress.
pub struct FolderSearch {
    pub wanted: String,
    pub frames: Vec<Frame>,
    /// The folder whose listing the search waits for.
    pub pending: Option<FsPath>,
    /// The depth at which the pending folder is searched.
    pub pending_depth: u8,
}

/// The frames of a search are consistent: each points into its listing,
/// has a depth of at least one, and lies deeper than the frame below it.
pub open spec fn frames_wf(frames: Seq<Frame>) -> bool {
    &&& forall|i: int| 0 <= i < frames.len() ==> (#[trigger] frames[i]).next <= frames[i].entries.len() && frames[i].depth >= 1
    &&& forall|i: int| 0 < i < frames.len() ==> (#[trigger] frames[i]).depth < frames[i - 1].depth
}

impl FolderSearch {
    /// The search is consistent, and waits for a listing at a depth of at
    /// least one.
    pub open spec fn waiting(&self) -> bool {
        &&& frames_wf(self.frames@)
        &&& self.pending is Some
        &&& self.pending_depth >= 1
        &&& self.frames@.len() > 0 ==> self.pending_depth < self.frames@.last().depth
    }

    /// What the search yields on the file system `fs`, from where it stands.
    pub open spec fn result_on(&self, fs: FsModel) -> Option<PathView> {
        pending_result(fs, self.frames@, self.pending->0@, self.pending_depth as nat, self.wanted@)
    }
}

/// What a step reports on `fs`: for `List`, the result of the search `s`
/// that waits for that listing.
pub open spec fn step_result(fs: FsModel, step: SearchStep, s: FolderSearch) -> Option<PathView> {
    match step {
        SearchStep::Found(p) => Some(p@),
        SearchStep::NotFound => None,
        SearchStep::List(_) => s.result_on(fs),
    }
}

/// A step that asks for a listing leaves the search waiting for that folder.
pub open spec fn step_consistent(step: SearchStep, s: FolderSearch) -> bool {
    match step {
        SearchStep::List(p) => s.waiting() && s.pending->0@ == p@,
        _ => true,
    }
}


// ---------------------------------------------------------------------------
// Progress

/// `a` comes before `b` in the order in which a search makes progress:
/// lexicographic, where a missing position counts as larger than any number
/// (so a longer sequence comes before its prefixes).
pub open spec fn rank_lt(a: Seq<int>, b: Seq<int>) -> bool
    decreases a.len(),
{
    if a.len() == 0 {
        false
    } else if b.len() == 0 {
        true
    } else if a[0] < b[0] {
        true
    } else if a[0] > b[0] {
        false
    } else {
        rank_lt(a.drop_first(), b.drop_first())
    }
}

/// `a` comes before `b`, or is `b`.
pub open spec fn rank_le(a: Seq<int>, b: Seq<int>) -> bool {
    rank_lt(a, b) || a == b
}

/// The progress of a search waiting for a listing: for each open folder,
/// the entries it has left, counting the folder being searched below it.
pub open spec fn waiting_rank(frames: Seq<Frame>) -> Seq<int> {
    Seq::new(frames.len(), |i: int| frames[i].entries.len() - frames[i].next + 1)
}

/// The progress of a search between listings: as [`waiting_rank`], except
/// that nothing is being searched below the innermost folder.
pub open spec fn loop_rank(frames: Seq<Frame>) -> Seq<int> {
    Seq::new(
        frames.len(),
        |i: int|
            if i < frames.len() - 1 {
                frames[i].entries.len() - frames[i].next + 1
            } else {
                frames[i].entries.len() - frames[i].next
            },
    )
}

/// Sequences that agree up to `k` and are smaller at `k` are smaller.
proof fn lemma_rank_lt_at(a: Seq<int>, b: Seq<int>, k: int)
    requires
        0 <= k < a.len(),
        k < b.len(),
        forall|j: int| 0 <= j < k ==> a[j] == b[j],
        a[k] < b[k],
    ensures
        rank_lt(a, b),
    decreases k,
{
    if k > 0 {
        assert forall|j: int| 0 <= j < k - 1 implies a.drop_first()[j] == b.drop_first()[j] by {
            assert(a[j + 1] == b[j + 1]);
        }
        lemma_rank_lt_at(a.drop_first(), b.drop_first(), k - 1);
    }
}

/// A sequence extended by one more position comes before it.
proof fn lemma_rank_lt_extend(b: Seq<int>, x: int)
    ensures
        rank_lt(b.push(x), b),
    decreases b.len(),
{
    if b.len() > 0 {
        assert(b.push(x).drop_first() =~= b.drop_first().push(x));
        lemma_rank_lt_extend(b.drop_first(), x);
    }
}

/// The order is transitive.
proof fn lemma_rank_lt_transitive(a: Seq<int>, b: Seq<int>, c: Seq<int>)
    ensures
        rank_lt(a, b) && rank_lt(b, c) ==> rank_lt(a, c),
    decreases a.len(),
{
    if a.len() > 0 && b.len() > 0 && c.len() > 0 {
        lemma_rank_lt_transitive(a.drop_first(), b.drop_first(), c.drop_first());
    }
}

proof fn lemma_rank_le_transitive(a: Seq<int>, b: Seq<int>, c: Seq<int>)
    ensures
        rank_le(a, b) && rank_le(b, c) ==> rank_le(a, c),
        rank_le(a, b) && rank_lt(b, c) ==> rank_lt(a, c),
{
    lemma_rank_lt_transitive(a, b, c);
}

/// Frames lie at decreasing depths, so there are at most as many as the
/// depth of the outermost.
proof fn lemma_frames_bounded(frames: Seq<Frame>, i: int)
    requires
        frames_wf(frames),
        0 <= i < frames.len(),
    ensures
        frames[i].depth + i <= frames[0].depth,
    decreases i,
{
    if i > 0 {
        lemma_frames_bounded(frames, i - 1);
    }
}

/// A waiting search has at most 255 open folders, each with a positive count,
/// so its progress ([`waiting_rank`]) cannot go down forever.
pub proof fn law_search_rank_bounded(s: FolderSearch)
    requires
        s.waiting(),
    ensures
        waiting_rank(s.frames@).len() <= 255,
        forall|i: int| 0 <= i < waiting_rank(s.frames@).len() ==> #[trigger] waiting_rank(s.frames@)[i] >= 1,
{
    if s.frames@.len() > 0 {
        lemma_frames_bounded(s.frames@, s.frames@.len() - 1);
    }
}

// ---------------------------------------------------------------------------
// Executable code

/// A copy of the search step's folder.
fn copy_path(p: &FsPath) -> (r: FsPath)
    ensures
        r@ == p@,
{
    p.duplicate()
}

/// Closing the innermost folder of `before` (leaving `after`) makes progress.
proof fn pop_progress(before: Seq<Frame>, after: Seq<Frame>, start: Seq<Frame>)
    requires
        before.len() > 0,
        after == before.drop_last(),
        rank_le(loop_rank(before), loop_rank(start)),
    ensures
        after.len() > 0 ==> rank_le(loop_rank(after), loop_rank(start)),
{
    if after.len() > 0 {
        let k = after.len() - 1;
        assert forall|j: int| 0 <= j < k implies loop_rank(after)[j] == loop_rank(before)[j] by {}
        assert(loop_rank(after)[k] < loop_rank(before)[k]);
        lemma_rank_lt_at(loop_rank(after), loop_rank(before), k);
        lemma_rank_le_transitive(loop_rank(after), loop_rank(before), loop_rank(start));
    }
}

/// Moving past one entry of the innermost folder of `before` (leaving
/// `after`) makes progress.
proof fn step_progress(before: Seq<Frame>, after: Seq<Frame>, start: Seq<Frame>)
    requires
        before.len() > 0,
        after.len() == before.len(),
        after.drop_last() == before.drop_last(),
        after.last().entries == before.last().entries,
        after.last().next == before.last().next + 1,
        rank_le(loop_rank(before), loop_rank(start)),
    ensures
        rank_le(loop_rank(after), loop_rank(start)),
{
    let k = after.len() - 1;
    assert forall|j: int| 0 <= j < k implies loop_rank(after)[j] == loop_rank(before)[j] by {
        assert(after[j] == after.drop_last()[j]);
        assert(before[j] == before.drop_last()[j]);
    }
    lemma_rank_lt_at(loop_rank(after), loop_rank(before), k);
    lemma_rank_le_transitive(loop_rank(after), loop_rank(before), loop_rank(start));
}

/// Goes through `frames` until a folder has to be listed, the wanted folder
/// is found, or nothing is left.
fn advance(initial: Vec<Frame>, wanted: String) -> (r: (FolderSearch, SearchStep))
    requires
        frames_wf(initial@),
    ensures
        r.0.wanted@ == wanted@,
        step_consistent(r.1, r.0),
        forall|fs: FsModel| #[trigger] continue_search(fs, initial@, wanted@) == step_result(fs, r.1, r.0),
        initial@.len() == 0 ==> r.1 is NotFound,
        r.1 is List ==> rank_le(waiting_rank(r.0.frames@), loop_rank(initial@)),
{
    let ghost start = initial@;
    let ghost w = wanted@;
    let mut frames = initial;
    loop
        invariant
            frames_wf(frames@),
            start == initial@,
            w == wanted@,
            forall|fs: FsModel| #[trigger] continue_search(fs, start, w) == continue_search(fs, frames@, w),
            start.len() == 0 ==> frames@.len() == 0,
            frames@.len() > 0 ==> rank_le(loop_rank(frames@), loop_rank(start)),
        decreases frames@.len(), if frames@.len() > 0 { frames@.last().entries.len() - frames@.last().next } else { 0 },
    {
        let ghost before = frames@;
        let top_opt = frames.pop();
        let mut top = match top_opt {
            Some(t) => t,
            None => {
                let s = FolderSearch { wanted, frames, pending: None, pending_depth: 0 };
                assert forall|fs: FsModel| #[trigger] continue_search(fs, start, w) == step_result(fs, SearchStep::NotFound, s) by {
                    assert(continue_search(fs, before, w) == None::<PathView>);
                }
                return (s, SearchStep::NotFound);
            },
        };
        assert(before.last() == top);
        assert(before.drop_last() =~= frames@);
        assert(top.next <= top.entries.len());
        if top.next == top.entries.len() {
            // Nothing left in this folder.
            assert forall|fs: FsModel| #[trigger] continue_search(fs, start, w) == continue_search(fs, frames@, w) by {
                assert(frame_rest(top) =~= Seq::<(PathView, bool)>::empty());
            }
            assert(frames_wf(frames@));
            proof {
                pop_progress(before, frames@, start);
            }
        } else {
            let i = top.next;
            let ghost rest = frame_rest(top);
            assert(rest[0] == entry_view(top.entries@[i as int]));
            assert(rest.drop_first() =~= listing_view(top.entries@).skip(i + 1));
            let is_dir = top.entries[i].is_dir;
            let name = top.entries[i].path.file_name();
            top.next = i + 1;
            let depth = top.depth;
            if !is_dir {
                frames.push(top);
                assert forall|fs: FsModel| #[trigger] continue_search(fs, start, w) == continue_search(fs, frames@, w) by {
                    assert(frames@.drop_last() =~= before.drop_last());
                }
                proof {
                    assert(frames@.drop_last() =~= before.drop_last());
                    step_progress(before, frames@, start);
                }
            } else {
                match name {
                    None => {
                        // An entry without a name ends the search of this folder.
                        assert forall|fs: FsModel| #[trigger] continue_search(fs, start, w) == continue_search(fs, frames@, w) by {}
                        proof {
                            pop_progress(before, frames@, start);
                        }
                    },
                    Some(n) => {
                        if str_eq_ignore_ascii_case(n.as_str(), wanted.as_str()) {
                            let found = copy_path(&top.entries[i].path);
                            frames.push(top);
                            let s = FolderSearch { wanted, frames, pending: None, pending_depth: 0 };
                            assert forall|fs: FsModel| #[trigger] continue_search(fs, start, w) == step_result(fs, SearchStep::Found(found), s) by {
                                assert(continue_search(fs, start, w) == continue_search(fs, before, w));
                                assert(rest.len() > 0);
                                assert(rest[0].0 == found@);
                                assert(scan_entries(fs, rest, w, depth as nat) == Some(found@));
                            }
                            return (s, SearchStep::Found(found));
                        }
                        if depth == 1 {
                            frames.push(top);
                            assert forall|fs: FsModel| #[trigger] continue_search(fs, start, w) == continue_search(fs, frames@, w) by {
                                assert(frames@.drop_last() =~= before.drop_last());
                                assert(find_folder(fs, rest[0].0, w, 0) == None::<PathView>);
                            }
                            proof {
                                assert(frames@.drop_last() =~= before.drop_last());
                                step_progress(before, frames@, start);
                            }
                        } else {
                            let sub = copy_path(&top.entries[i].path);
                            let ask = copy_path(&top.entries[i].path);
                            frames.push(top);
                            let s = FolderSearch { wanted, frames, pending: Some(sub), pending_depth: depth - 1 };
                            assert forall|fs: FsModel| #[trigger] continue_search(fs, start, w) == step_result(fs, SearchStep::List(ask), s) by {
                                assert(s.frames@.drop_last() =~= before.drop_last());
                            }
                            assert(waiting_rank(s.frames@) =~= loop_rank(before));
                            proof {
                                lemma_rank_le_transitive(waiting_rank(s.frames@), loop_rank(before), loop_rank(start));
                            }
                            return (s, SearchStep::List(ask));
                        }
                    },
                }
            }
        }
    }
}

impl FolderSearch {
    /// Starts a search for the folder `wanted` below `root`, at most
    /// `max_depth` levels down.
    pub fn start(root: FsPath, wanted: String, max_depth: u8) -> (r: (FolderSearch, SearchStep))
        ensures
            step_consistent(r.1, r.0),
            r.0.wanted@ == wanted@,
            forall|fs: FsModel| #[trigger] find_folder(fs, root@, wanted@, max_depth as nat) == step_result(fs, r.1, r.0),
            r.1 is List || r.1 is NotFound,
    {
        if max_depth == 0 {
            let s = FolderSearch { wanted, frames: Vec::new(), pending: None, pending_depth: 0 };
            return (s, SearchStep::NotFound);
        }
        let ask = copy_path(&root);
        let s = FolderSearch { wanted, frames: Vec::new(), pending: Some(root), pending_depth: max_depth };
        assert(frames_wf(s.frames@));
        assert forall|fs: FsModel| #[trigger] find_folder(fs, root@, wanted@, max_depth as nat) == step_result(fs, SearchStep::List(ask), s) by {
            assert(continue_search(fs, s.frames@, wanted@) == None::<PathView>);
        }
        (s, SearchStep::List(ask))
    }

    /// Continues the search with the listing of the folder it waits for
    /// (`None` where that folder is missing, no folder, or cannot be read).
    pub fn resume(self, listing: Option<Vec<DirEntry>>) -> (r: (FolderSearch, SearchStep))
        requires
            self.waiting(),
        ensures
            step_consistent(r.1, r.0),
            r.0.wanted@ == self.wanted@,
            forall|fs: FsModel| fs(self.pending->0@) == (match listing {
                Some(v) => Some(listing_view(v@)),
                None => None,
            }) ==> #[trigger] self.result_on(fs) == step_result(fs, r.1, r.0),
            r.1 is List ==> rank_lt(waiting_rank(r.0.frames@), waiting_rank(self.frames@)),
    {
        let FolderSearch { wanted, frames, pending, pending_depth } = self;
        let ghost old_frames = frames@;
        let ghost p = pending->0@;
        let mut frames = frames;
        match listing {
            None => {
                proof {
                    if old_frames.len() > 0 {
                        let k = old_frames.len() - 1;
                        assert forall|j: int| 0 <= j < k implies loop_rank(old_frames)[j] == waiting_rank(old_frames)[j] by {}
                        lemma_rank_lt_at(loop_rank(old_frames), waiting_rank(old_frames), k);
                    }
                }
                let r = advance(frames, wanted);
                proof {
                    if r.1 is List {
                        lemma_rank_le_transitive(waiting_rank(r.0.frames@), loop_rank(old_frames), waiting_rank(old_frames));
                    }
                }
                assert forall|fs: FsModel| fs(p) == None::<Seq<(PathView, bool)>> implies
                    #[trigger] pending_result(fs, old_frames, p, pending_depth as nat, r.0.wanted@) == step_result(fs, r.1, r.0) by {
                    assert(continue_search(fs, old_frames, r.0.wanted@) == step_result(fs, r.1, r.0));
                }
                r
            },
            Some(entries) => {
                let ghost lv = listing_view(entries@);
                frames.push(Frame { entries, next: 0, depth: pending_depth });
                assert(frames_wf(frames@));
                let ghost new_frames = frames@;
                proof {
                    assert(loop_rank(new_frames) =~= waiting_rank(old_frames).push(lv.len() as int));
                    lemma_rank_lt_extend(waiting_rank(old_frames), lv.len() as int);
                }
                let r = advance(frames, wanted);
                proof {
                    if r.1 is List {
                        lemma_rank_le_transitive(waiting_rank(r.0.frames@), loop_rank(new_frames), waiting_rank(old_frames));
                    }
                }
                assert forall|fs: FsModel| fs(p) == Some(lv) implies
                    #[trigger] pending_result(fs, old_frames, p, pending_depth as nat, r.0.wanted@) == step_result(fs, r.1, r.0) by {
                    assert(frame_rest(new_frames.last()) =~= lv);
                    assert(new_frames.drop_last() =~= old_frames);
                    assert(continue_search(fs, new_frames, r.0.wanted@) == step_result(fs, r.1, r.0));
                }
                r
            },
        }
    }
}

// ---------------------------------------------------------------------------
// Discovery of a game's mod folder

/// How many levels below each starting folder discovery looks.
pub const DISCOVERY_DEPTH: u8 = 3;

/// Which paths are existing folders, as discovery sees it.
pub type DirModel = spec_fn(PathView) -> bool;

/// The first of `roots[i..]` that directly holds a folder `name`.
pub open spec fn first_direct(isdir: DirModel, roots: Seq<PathView>, name: Seq<char>, i: int) -> Option<PathView>
    decreases roots.len() - i,
{
    if i < 0 || i >= roots.len() {
        None
    } else if isdir(path_push(roots[i], name)) {
        Some(path_push(roots[i], name))
    } else {
        first_direct(isdir, roots, name, i + 1)
    }
}

/// The first folder `name` found by searching below each of `roots[i..]`
/// in turn.
pub open spec fn first_search(fs: FsModel, roots: Seq<PathView>, name: Seq<char>, i: int) -> Option<PathView>
    decreases roots.len() - i,
{
    if i < 0 || i >= roots.len() {
        None
    } else {
        match find_folder(fs, roots[i], name, DISCOVERY_DEPTH as nat) {
            Some(f) => Some(f),
            None => first_search(fs, roots, name, i + 1),
        }
    }
}

/// The mod folder `name` that discovery finds from `roots`: a folder of that
/// name directly inside one of them, in order; failing that, the first found
/// by searching below each of them in order.
pub open spec fn discover(isdir: DirModel, fs: FsModel, roots: Seq<PathView>, name: Seq<char>) -> Option<PathView> {
    match first_direct(isdir, roots, name, 0) {
        Some(p) => Some(p),
        None => first_search(fs, roots, name, 0),
    }
}

/// What discovery asks for or reports.
pub enum DiscoveryStep {
    /// Tell whether this path is an existing folder, through
    /// [`Discovery::folder_checked`].
    CheckFolder(FsPath),
    /// List this folder and pass the listing to [`Discovery::resume`].
    List(FsPath),
    /// The mod folder.
    Found(FsPath),
    /// No mod folder was found.
    NotFound,
}

/// A discovery in progress.
pub struct Discovery {
    pub roots: Vec<FsPath>,
    pub name: String,
    /// The starting folder being looked at.
    pub index: usize,
    /// The search below `roots[index]`, once the direct checks are done.
    pub search: Option<FolderSearch>,
}

impl Discovery {
    /// The discovery waits for an answer about a path.
    pub open spec fn waiting(&self) -> bool {
        &&& self.index < self.roots.len()
        &&& match self.search {
            None => true,
            Some(s) => s.waiting() && s.wanted@ == self.name@,
        }
    }

    /// The path whose answer the discovery waits for.
    pub open spec fn pending(&self) -> PathView {
        match self.search {
            None => path_push(path_views(self.roots@)[self.index as int], self.name@),
            Some(s) => s.pending->0@,
        }
    }

    /// What the discovery yields from where it stands, when `isdir` tells
    /// which paths are folders and `fs` lists them.
    pub open spec fn result_on(&self, isdir: DirModel, fs: FsModel) -> Option<PathView> {
        let roots = path_views(self.roots@);
        match self.search {
            None => if isdir(self.pending()) {
                Some(self.pending())
            } else {
                match first_direct(isdir, roots, self.name@, self.index + 1) {
                    Some(p) => Some(p),
                    None => first_search(fs, roots, self.name@, 0),
                }
            },
            Some(s) => match s.result_on(fs) {
                Some(f) => Some(f),
                None => first_search(fs, roots, self.name@, self.index + 1),
            },
        }
    }
}

/// `new` is further on than `old`: the direct checks come first, root by
/// root; then the searches, root by root, each of which makes progress in
/// the order [`rank_lt`].
pub open spec fn discovery_progress(new: Discovery, old: Discovery) -> bool {
    ||| old.search is None && (new.search is Some || new.index > old.index)
    ||| old.search is Some && new.search is Some && (new.index > old.index || (new.index == old.index
        && rank_lt(waiting_rank(new.search->0.frames@), waiting_rank(old.search->0.frames@))))
}

/// What a discovery step reports: for a question, the result of the
/// discovery `d` that waits for its answer.
pub open spec fn discovery_result(isdir: DirModel, fs: FsModel, step: DiscoveryStep, d: Discovery) -> Option<PathView> {
    match step {
        DiscoveryStep::Found(p) => Some(p@),
        DiscoveryStep::NotFound => None,
        _ => d.result_on(isdir, fs),
    }
}

/// A step that asks a question leaves the discovery waiting for its answer.
pub open spec fn discovery_consistent(step: DiscoveryStep, d: Discovery) -> bool {
    match step {
        DiscoveryStep::CheckFolder(p) => d.waiting() && d.search is None && d.pending() == p@,
        DiscoveryStep::List(p) => d.waiting() && d.search is Some && d.pending() == p@,
        _ => true,
    }
}

/// The searches below `roots[i..]`, in turn, until one asks for a listing or
/// finds the folder.
fn search_from(roots: Vec<FsPath>, name: String, from: usize) -> (r: (Discovery, DiscoveryStep))
    ensures
        discovery_consistent(r.1, r.0),
        path_views(r.0.roots@) == path_views(roots@),
        r.0.name@ == name@,
        forall|isdir: DirModel, fs: FsModel| first_search(fs, path_views(roots@), name@, from as int)
            == #[trigger] discovery_result(isdir, fs, r.1, r.0),
        r.1 is List || r.1 is NotFound,
        r.1 is List ==> r.0.index >= from,
{
    let ghost rv = path_views(roots@);
    let mut i = from;
    let ghost start = from as int;
    while i < roots.len()
        invariant
            rv == path_views(roots@),
            start == from as int,
            start <= i,
            forall|fs: FsModel| #[trigger] first_search(fs, rv, name@, start) == first_search(fs, rv, name@, i as int),
        decreases roots.len() - i,
    {
        let root = roots[i].duplicate();
        assert(rv[i as int] == root@);
        let (s, step) = FolderSearch::start(root, name.clone(), DISCOVERY_DEPTH);
        match step {
            SearchStep::List(p) => {
                let d = Discovery { roots, name, index: i, search: Some(s) };
                assert forall|isdir: DirModel, fs: FsModel| first_search(fs, rv, name@, start)
                    == #[trigger] discovery_result(isdir, fs, DiscoveryStep::List(p), d) by {
                    assert(find_folder(fs, rv[i as int], name@, DISCOVERY_DEPTH as nat) == s.result_on(fs));
                }
                return (d, DiscoveryStep::List(p));
            },
            SearchStep::Found(p) => {
                let d = Discovery { roots, name, index: i, search: None };
                assert forall|isdir: DirModel, fs: FsModel| first_search(fs, rv, name@, start)
                    == #[trigger] discovery_result(isdir, fs, DiscoveryStep::Found(p), d) by {
                    assert(find_folder(fs, rv[i as int], name@, DISCOVERY_DEPTH as nat) == Some(p@));
                }
                return (d, DiscoveryStep::Found(p));
            },
            SearchStep::NotFound => {
                assert forall|fs: FsModel| #[trigger] first_search(fs, rv, name@, start) == first_search(fs, rv, name@, i + 1) by {
                    assert(find_folder(fs, rv[i as int], name@, DISCOVERY_DEPTH as nat) == None::<PathView>);
                    assert(first_search(fs, rv, name@, start) == first_search(fs, rv, name@, i as int));
                }
            },
        }
        i = i + 1;
    }
    let d = Discovery { roots, name, index: i, search: None };
    assert forall|isdir: DirModel, fs: FsModel| first_search(fs, rv, name@, start)
        == #[trigger] discovery_result(isdir, fs, DiscoveryStep::NotFound, d) by {
        assert(first_search(fs, rv, name@, start) == first_search(fs, rv, name@, i as int));
    }
    (d, DiscoveryStep::NotFound)
}

/// The next direct check, from `roots[i]` on, or the searches once the
/// direct checks are done.
fn check_from(roots: Vec<FsPath>, name: String, i: usize) -> (r: (Discovery, DiscoveryStep))
    ensures
        discovery_consistent(r.1, r.0),
        path_views(r.0.roots@) == path_views(roots@),
        r.0.name@ == name@,
        forall|isdir: DirModel, fs: FsModel| #[trigger] discovery_result(isdir, fs, r.1, r.0) == (match first_direct(
            isdir,
            path_views(roots@),
            name@,
            i as int,
        ) {
            Some(p) => Some(p),
            None => first_search(fs, path_views(roots@), name@, 0),
        }),
        r.1 is CheckFolder || r.1 is List || r.1 is NotFound,
        r.1 is CheckFolder ==> r.0.index == i,
{
    let ghost rv = path_views(roots@);
    if i < roots.len() {
        let candidate = roots[i].join(name.as_str());
        assert(rv[i as int] == roots@[i as int]@);
        let d = Discovery { roots, name, index: i, search: None };
        (d, DiscoveryStep::CheckFolder(candidate))
    } else {
        let r = search_from(roots, name, 0);
        assert forall|isdir: DirModel, fs: FsModel| #[trigger] discovery_result(isdir, fs, r.1, r.0) == (match first_direct(isdir, rv, name@, i as int) {
            Some(p) => Some(p),
            None => first_search(fs, rv, name@, 0),
        }) by {
            assert(first_search(fs, rv, name@, 0) == discovery_result(isdir, fs, r.1, r.0));
        }
        r
    }
}

impl Discovery {
    /// Starts discovering the mod folder `name` from the folders `roots`.
    pub fn start(roots: Vec<FsPath>, name: String) -> (r: (Discovery, DiscoveryStep))
        ensures
            discovery_consistent(r.1, r.0),
            path_views(r.0.roots@) == path_views(roots@),
            r.0.name@ == name@,
            forall|isdir: DirModel, fs: FsModel| #[trigger] discover(isdir, fs, path_views(roots@), name@)
                == discovery_result(isdir, fs, r.1, r.0),
    {
        let r = check_from(roots, name, 0);
        assert forall|isdir: DirModel, fs: FsModel| #[trigger] discover(isdir, fs, path_views(roots@), name@)
            == discovery_result(isdir, fs, r.1, r.0) by {
            assert(discovery_result(isdir, fs, r.1, r.0) == discover(isdir, fs, path_views(roots@), name@));
        }
        r
    }

    /// Continues after a `CheckFolder`: `is_dir` tells whether the path
    /// asked about is an existing folder.
    pub fn folder_checked(self, is_dir: bool) -> (r: (Discovery, DiscoveryStep))
        requires
            self.waiting(),
            self.search is None,
        ensures
            discovery_consistent(r.1, r.0),
            path_views(r.0.roots@) == path_views(self.roots@),
            r.0.name@ == self.name@,
            forall|isdir: DirModel, fs: FsModel| isdir(self.pending()) == is_dir ==> #[trigger] self.result_on(isdir, fs)
                == discovery_result(isdir, fs, r.1, r.0),
            is_dir ==> r.1 is Found,
            !is_dir ==> r.0.index == self.index + 1 || r.1 is List || r.1 is NotFound,
            (r.1 is CheckFolder || r.1 is List) ==> discovery_progress(r.0, self),
    {
        let Discovery { roots, name, index, search } = self;
        if is_dir {
            let found = roots[index].join(name.as_str());
            assert(path_views(roots@)[index as int] == roots@[index as int]@);
            let d = Discovery { roots, name, index, search: None };
            (d, DiscoveryStep::Found(found))
        } else {
            check_from(roots, name, index + 1)
        }
    }

    /// Continues after a `List` with the listing of the folder asked for
    /// (`None` where it is missing, no folder, or cannot be read).
    pub fn resume(self, listing: Option<Vec<DirEntry>>) -> (r: (Discovery, DiscoveryStep))
        requires
            self.waiting(),
            self.search is Some,
        ensures
            discovery_consistent(r.1, r.0),
            path_views(r.0.roots@) == path_views(self.roots@),
            r.0.name@ == self.name@,
            forall|isdir: DirModel, fs: FsModel| fs(self.pending()) == (match listing {
                Some(v) => Some(listing_view(v@)),
                None => None,
            }) ==> #[trigger] self.result_on(isdir, fs) == discovery_result(isdir, fs, r.1, r.0),
            (r.1 is CheckFolder || r.1 is List) ==> discovery_progress(r.0, self),
    {
        let ghost old = self;
        let Discovery { roots, name, index, search } = self;
        let s = match search {
            Some(s) => s,
            None => {
                assert(false);
                let d = Discovery { roots, name, index, search: None };
                return (d, DiscoveryStep::NotFound);
            },
        };
        let ghost rv = path_views(roots@);
        let ghost lv = match &listing {
            Some(v) => Some(listing_view(v@)),
            None => None,
        };
        let (s2, step) = s.resume(listing);
        match step {
            SearchStep::List(p) => {
                let d = Discovery { roots, name, index, search: Some(s2) };
                (d, DiscoveryStep::List(p))
            },
            SearchStep::Found(p) => {
                let d = Discovery { roots, name, index, search: None };
                (d, DiscoveryStep::Found(p))
            },
            SearchStep::NotFound => {
                let r = search_from(roots, name, index + 1);
                assert forall|isdir: DirModel, fs: FsModel| fs(old.pending()) == lv implies #[trigger] old.result_on(isdir, fs)
                    == discovery_result(isdir, fs, r.1, r.0) by {
                    assert(first_search(fs, rv, old.name@, index + 1) == discovery_result(isdir, fs, r.1, r.0));
                }
                r
            },
        }
    }
}

// ---------------------------------------------------------------------------
// Laws

/// What the name of a found folder looks like.
pub open spec fn named(p: PathView, wanted: Seq<char>) -> bool {
    p.parts.len() > 0 && eq_ignore_ascii_case(p.parts.last(), wanted)
}

proof fn lemma_find_folder_named(fs: FsModel, p: PathView, wanted: Seq<char>, depth: nat)
    ensures
        find_folder(fs, p, wanted, depth) matches Some(q) ==> named(q, wanted),
    decreases depth, 1nat, 0nat,
{
    if depth > 0 {
        if let Some(entries) = fs(p) {
            lemma_scan_named(fs, entries, wanted, depth);
        }
    }
}

proof fn lemma_scan_named(fs: FsModel, entries: Seq<(PathView, bool)>, wanted: Seq<char>, depth: nat)
    ensures
        scan_entries(fs, entries, wanted, depth) matches Some(q) ==> named(q, wanted),
    decreases depth, 0nat, entries.len(),
{
    if entries.len() > 0 {
        lemma_scan_named(fs, entries.drop_first(), wanted, depth);
        if depth > 0 {
            lemma_find_folder_named(fs, entries[0].0, wanted, (depth - 1) as nat);
        }
    }
}

proof fn lemma_first_direct_named(isdir: DirModel, roots: Seq<PathView>, name: Seq<char>, i: int)
    ensures
        first_direct(isdir, roots, name, i) matches Some(q) ==> named(q, name),
    decreases roots.len() - i,
{
    if 0 <= i < roots.len() {
        lemma_first_direct_named(isdir, roots, name, i + 1);
        assert(path_push(roots[i], name).parts.last() == name);
    }
}

proof fn lemma_first_search_named(fs: FsModel, roots: Seq<PathView>, name: Seq<char>, i: int)
    ensures
        first_search(fs, roots, name, i) matches Some(q) ==> named(q, name),
    decreases roots.len() - i,
{
    if 0 <= i < roots.len() {
        lemma_first_search_named(fs, roots, name, i + 1);
        lemma_find_folder_named(fs, roots[i], name, DISCOVERY_DEPTH as nat);
    }
}

/// A folder that a search finds is named like the wanted folder (ASCII
/// case ignored).
pub proof fn law_found_folder_is_named(fs: FsModel, root: PathView, wanted: Seq<char>, depth: nat)
    ensures
        find_folder(fs, root, wanted, depth) matches Some(q) ==> named(q, wanted),
{
    lemma_find_folder_named(fs, root, wanted, depth);
}

/// The mod folder that discovery finds is named like the wanted folder
/// (ASCII case ignored), whether it was found directly or by searching.
pub proof fn law_discovered_folder_is_named(isdir: DirModel, fs: FsModel, roots: Seq<PathView>, name: Seq<char>)
    ensures
        discover(isdir, fs, roots, name) matches Some(q) ==> named(q, name),
{
    lemma_first_direct_named(isdir, roots, name, 0);
    lemma_first_search_named(fs, roots, name, 0);
}

/// How deep a search looks: with no level left it finds nothing; a folder
/// whose only entry is a sub-folder of another name is searched one level
/// deeper through that sub-folder; a sub-folder of the wanted name (ASCII
/// case ignored) listed first is the answer when a level is left.
pub proof fn law_search_goes_down_one_level(fs: FsModel, p: PathView, q: PathView, wanted: Seq<char>, depth: nat)
    ensures
        find_folder(fs, p, wanted, 0) is None,
        (fs(p) == Some(seq![(q, true)]) && path_file_name(q) is Some
            && !eq_ignore_ascii_case(path_file_name(q)->0, wanted))
            ==> find_folder(fs, p, wanted, depth + 1) == find_folder(fs, q, wanted, depth),
        (fs(p) is Some && fs(p)->0.len() > 0 && fs(p)->0[0] == (q, true) && path_file_name(q) is Some
            && eq_ignore_ascii_case(path_file_name(q)->0, wanted))
            ==> find_folder(fs, p, wanted, depth + 1) == Some(q),
{
    if fs(p) == Some(seq![(q, true)]) {
        let e = seq![(q, true)];
        assert(e.drop_first() =~= Seq::<(PathView, bool)>::empty());
        assert(scan_entries(fs, e.drop_first(), wanted, depth + 1) is None);
    }
}

/// From `i` up to `k`, no root directly holds the folder, so the first
/// direct hit from `i` is the first from `k`.
proof fn lemma_first_direct_skip(isdir: DirModel, roots: Seq<PathView>, name: Seq<char>, i: int, k: int)
    requires
        0 <= i <= k,
        forall|j: int| i <= j < k && j < roots.len() ==> !isdir(#[trigger] path_push(roots[j], name)),
    ensures
        first_direct(isdir, roots, name, i) == first_direct(isdir, roots, name, k),
    decreases k - i,
{
    if i < k {
        lemma_first_direct_skip(isdir, roots, name, i + 1, k);
    }
}

/// From `i` up to `k`, the search below no root finds the folder, so the
/// first hit from `i` is the first from `k`.
proof fn lemma_first_search_skip(fs: FsModel, roots: Seq<PathView>, name: Seq<char>, i: int, k: int)
    requires
        0 <= i <= k,
        forall|j: int| i <= j < k && j < roots.len() ==> (#[trigger] find_folder(fs, roots[j], name, DISCOVERY_DEPTH as nat)) is None,
    ensures
        first_search(fs, roots, name, i) == first_search(fs, roots, name, k),
    decreases k - i,
{
    if i < k {
        lemma_first_search_skip(fs, roots, name, i + 1, k);
        if i < roots.len() {
            assert(find_folder(fs, roots[i], name, DISCOVERY_DEPTH as nat) is None);
        }
    }
}

/// A folder `name` directly inside a starting folder is what discovery
/// finds, when no earlier starting folder directly holds one, whatever lies
/// deeper anywhere.
pub proof fn law_discovery_direct_hit_first(isdir: DirModel, fs: FsModel, roots: Seq<PathView>, name: Seq<char>, k: int)
    requires
        0 <= k < roots.len(),
        isdir(path_push(roots[k], name)),
        forall|j: int| 0 <= j < k ==> !isdir(#[trigger] path_push(roots[j], name)),
    ensures
        discover(isdir, fs, roots, name) == Some(path_push(roots[k], name)),
{
    lemma_first_direct_skip(isdir, roots, name, 0, k);
}

/// When no starting folder directly holds a folder `name`, the starting
/// folders are searched in turn, each `DISCOVERY_DEPTH` levels down: a
/// search that finds nothing passes on to the next folder, so what
/// discovery finds is the hit of the first starting folder whose search has
/// one, and nothing only when every search comes back empty.
pub proof fn law_discovery_searches_each_root(isdir: DirModel, fs: FsModel, roots: Seq<PathView>, name: Seq<char>, k: int)
    requires
        forall|j: int| 0 <= j < roots.len() ==> !isdir(#[trigger] path_push(roots[j], name)),
        0 <= k <= roots.len(),
        forall|j: int| 0 <= j < k ==> (#[trigger] find_folder(fs, roots[j], name, DISCOVERY_DEPTH as nat)) is None,
    ensures
        k < roots.len() && find_folder(fs, roots[k], name, DISCOVERY_DEPTH as nat) is Some
            ==> discover(isdir, fs, roots, name) == find_folder(fs, roots[k], name, DISCOVERY_DEPTH as nat),
        k == roots.len() ==> discover(isdir, fs, roots, name) is None,
{
    lemma_first_direct_skip(isdir, roots, name, 0, roots.len() as int);
    lemma_first_search_skip(fs, roots, name, 0, k);
}

} // verus!
