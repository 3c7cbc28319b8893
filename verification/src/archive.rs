//! Unpacking the resources archive: reading its entries, and the plan of
//! folders to create and files to write that the application carries out.

use std::io::Cursor;
use vstd::prelude::*;
use crate::paths::{part_views, FsPath, PathView};
use crate::text::{
    chars_of, has_prefix, has_suffix, lemma_split_step, split_char, str_ends_with, str_starts_with, string_from_chars,
};

verus! {

/// `std::io::Cursor`, the in-memory reader the archive is read from.
#[verifier::external_type_specification]
#[verifier::external_body]
#[verifier::reject_recursive_types(T)]
pub struct ExCursor<T>(std::io::Cursor<T>);

/// `zip::ZipArchive`, an opened archive.
#[verifier::external_type_specification]
#[verifier::external_body]
#[verifier::reject_recursive_types(R)]
pub struct ExZipArchive<R>(zip::ZipArchive<R>);

/// An opened archive over bytes in memory.
pub type Archive = zip::ZipArchive<Cursor<Vec<u8>>>;

/// A name for what `zip::ZipArchive::new` makes of the bytes `bytes`: no
/// archive, or the entries of its central directory in order, each with its
/// name and uncompressed contents, or `None` for an entry that cannot be read.
pub uninterp spec fn zip_contents(bytes: Seq<u8>) -> Option<Seq<Option<(Seq<char>, Seq<u8>)>>>;

/// A name for the entries that an opened archive holds (see
/// [`zip_contents`]).
pub uninterp spec fn archive_entries(a: Archive) -> Seq<Option<(Seq<char>, Seq<u8>)>>;

/// One entry of an archive: its name and its uncompressed contents.
pub struct ZipEntry {
    pub name: String,
    pub data: Vec<u8>,
}

/// The contents of a list of entries.
pub open spec fn entry_views(v: Seq<ZipEntry>) -> Seq<(Seq<char>, Seq<u8>)> {
    v.map_values(|e: ZipEntry| (e.name@, e.data@))
}

/// `v` holds the first entries of `all`, each of which could be read.
pub open spec fn read_in_order(all: Seq<Option<(Seq<char>, Seq<u8>)>>, v: Seq<ZipEntry>) -> bool {
    &&& v.len() <= all.len()
    &&& forall|k: int| 0 <= k < v.len() ==> (#[trigger] all[k]) == Some(entry_views(v)[k])
}

/// What reading an archive gave: its entries in order up to the first one
/// that could not be read, and the error for that one, if any.
pub struct ZipRead {
    pub entries: Vec<ZipEntry>,
    pub failure: Option<String>,
}

/// `zip::ZipArchive::new` on the bytes `bytes`: the archive, whose entries are
/// `zip_contents(bytes)`, or the error's text. What that text says is not
/// stated.
#[verifier::external_body]
fn zip_open(bytes: Vec<u8>) -> (r: Result<Archive, String>)
    ensures
        r is Ok <==> zip_contents(bytes@) is Some,
        r matches Ok(a) ==> archive_entries(a) == zip_contents(bytes@)->0,
{
    zip::ZipArchive::new(Cursor::new(bytes)).map_err(|e| e.to_string())
}

/// `zip::ZipArchive::len`: the number of entries.
#[verifier::external_body]
fn zip_len(a: &Archive) -> (n: usize)
    ensures
        n == archive_entries(*a).len(),
{
    a.len()
}

/// `zip::ZipArchive::by_index`, then reading the entry to its end: the
/// entry's name and contents, or the error's text (what that text says is
/// not stated). The archive's entries stay as they are.
#[verifier::external_body]
fn zip_entry(a: &mut Archive, i: usize) -> (r: Result<ZipEntry, String>)
    requires
        i < archive_entries(*old(a)).len(),
    ensures
        archive_entries(*final(a)) == archive_entries(*old(a)),
        r is Ok <==> archive_entries(*old(a))[i as int] is Some,
        r matches Ok(e) ==> (e.name@, e.data@) == archive_entries(*old(a))[i as int]->0,
{
    let mut file = a.by_index(i).map_err(|e| e.to_string())?;
    let mut data: Vec<u8> = Vec::new();
    std::io::Read::read_to_end(&mut file, &mut data).map_err(|e| e.to_string())?;
    Ok(ZipEntry { name: file.name().to_string(), data })
}

/// `prefix` followed by the error text `e`.
fn prefixed(prefix: &str, e: String) -> (m: String)
    ensures
        m@ == prefix@ + e@,
        has_prefix(m@, prefix@),
{
    let mut m = String::from_str(prefix);
    m.append(e.as_str());
    assert(m@.subrange(0, prefix@.len() as int) =~= prefix@);
    m
}

/// Reads the archive in the bytes `bytes`: it fails when the archive does
/// not open (`Invalid zip archive: ...`); otherwise it gives the entries in
/// order, stopping at the first that cannot be read, whose error is reported
/// as `Failed to read zip entry: ...`.
pub fn read_zip(bytes: Vec<u8>) -> (r: Result<ZipRead, String>)
    ensures
        r is Err <==> zip_contents(bytes@) is None,
        r matches Err(m) ==> has_prefix(m@, "Invalid zip archive: "@),
        r matches Ok(z) ==> {
            let all = zip_contents(bytes@)->0;
            &&& read_in_order(all, z.entries@)
            &&& (z.failure is None <==> z.entries.len() == all.len())
            &&& (z.failure matches Some(m) ==> all[z.entries.len() as int] is None
                && has_prefix(m@, "Failed to read zip entry: "@))
        },
{
    let ghost b = bytes@;
    let mut archive = match zip_open(bytes) {
        Ok(a) => a,
        Err(e) => return Err(prefixed("Invalid zip archive: ", e)),
    };
    let ghost all = archive_entries(archive);
    let n = zip_len(&archive);
    let mut out: Vec<ZipEntry> = Vec::new();
    let mut i: usize = 0;
    while i < n
        invariant
            b == bytes@,
            all == zip_contents(b)->0,
            zip_contents(b) is Some,
            archive_entries(archive) == all,
            n == all.len(),
            i <= n,
            out@.len() == i,
            read_in_order(all, out@),
        decreases n - i,
    {
        match zip_entry(&mut archive, i) {
            Ok(e) => {
                let ghost before = out@;
                out.push(e);
                assert forall|k: int| 0 <= k < out@.len() implies (#[trigger] all[k]) == Some(entry_views(out@)[k]) by {
                    if k < i {
                        assert(entry_views(out@)[k] == entry_views(before)[k]);
                    } else {
                        assert(entry_views(out@)[k] == (out@[k].name@, out@[k].data@));
                    }
                }
            },
            Err(e) => {
                let failure = prefixed("Failed to read zip entry: ", e);
                return Ok(ZipRead { entries: out, failure: Some(failure) });
            },
        }
        i = i + 1;
    }
    Ok(ZipRead { entries: out, failure: None })
}

// ---------------------------------------------------------------------------
// The extraction plan

/// One step of unpacking an archive.
pub enum ExtractStep {
    /// Create this folder and the folders above it, where missing.
    CreateDir(FsPath),
    /// Write the contents of the entry with this index to this file.
    WriteFile(FsPath, usize),
}

/// The contents of an [`ExtractStep`].
pub enum StepView {
    Dir(PathView),
    File(PathView, int),
}

/// The contents of a step.
pub open spec fn step_view(s: ExtractStep) -> StepView {
    match s {
        ExtractStep::CreateDir(p) => StepView::Dir(p@),
        ExtractStep::WriteFile(p, i) => StepView::File(p@, i as int),
    }
}

/// The contents of a list of steps.
pub open spec fn step_views(v: Seq<ExtractStep>) -> Seq<StepView> {
    v.map_values(|s: ExtractStep| step_view(s))
}

/// The pieces of `pieces` that name a folder or file: empty pieces (from
/// repeated or trailing `/`) and `.` are left out, as path components are.
pub open spec fn kept_pieces(pieces: Seq<Seq<char>>) -> Seq<Seq<char>>
    decreases pieces.len(),
{
    if pieces.len() == 0 {
        pieces
    } else {
        let rest = kept_pieces(pieces.drop_last());
        let p = pieces.last();
        if p.len() == 0 || p == seq!['.'] {
            rest
        } else {
            rest.push(p)
        }
    }
}

/// The components of the entry name `name`, read as a `/`-separated path
/// relative to the destination folder.
pub open spec fn name_components(name: Seq<char>) -> Seq<Seq<char>> {
    kept_pieces(split_char(name, '/'))
}

/// The root that a path gets when a name that starts with `/` is joined to
/// it (`Path::join`): its drive or share prefix is kept, and `/` follows.
/// `root` is a prefix followed by at most one root separator.
pub open spec fn rooted_root(root: Seq<char>) -> Seq<char> {
    let prefix = if root.len() > 0 && (root.last() == '/' || root.last() == '\\') {
        root.drop_last()
    } else {
        root
    };
    prefix + "/"@
}

/// Where the entry `name` goes when joined to `dest` (`Path::join`): below
/// `dest`, or, for a name that starts with `/`, at that path from the root.
pub open spec fn entry_target(dest: PathView, name: Seq<char>) -> PathView {
    if has_prefix(name, "/"@) {
        PathView { root: rooted_root(dest.root), parts: name_components(name) }
    } else {
        PathView { root: dest.root, parts: dest.parts + name_components(name) }
    }
}

/// The steps for the entry with index `i` named `name`: a name ending in `/`
/// is a folder to create; any other is a file, whose folder is created first
/// (when it has one) and which is then written.
pub open spec fn entry_steps(dest: PathView, name: Seq<char>, i: int) -> Seq<StepView> {
    let p = entry_target(dest, name);
    if has_suffix(name, "/"@) {
        seq![StepView::Dir(p)]
    } else if p.parts.len() > 0 {
        seq![StepView::Dir(PathView { root: p.root, parts: p.parts.drop_last() }), StepView::File(p, i)]
    } else {
        seq![StepView::File(p, i)]
    }
}

/// The steps for the entries named `names`, in order.
pub open spec fn extraction_plan(dest: PathView, names: Seq<Seq<char>>) -> Seq<StepView>
    decreases names.len(),
{
    if names.len() == 0 {
        Seq::empty()
    } else {
        extraction_plan(dest, names.drop_last()) + entry_steps(dest, names.last(), names.len() - 1)
    }
}

/// Splitting never gives an empty list of pieces.
proof fn lemma_split_nonempty(s: Seq<char>, c: char)
    ensures
        split_char(s, c).len() >= 1,
    decreases s.len(),
{
    if s.len() > 0 {
        lemma_split_nonempty(s.drop_last(), c);
    }
}

/// Splitting at a separator between `a` and `b` splits each side.
proof fn lemma_split_concat(a: Seq<char>, b: Seq<char>, c: char)
    ensures
        split_char(a.push(c) + b, c) == split_char(a, c) + split_char(b, c),
    decreases b.len(),
{
    let s = a.push(c) + b;
    if b.len() == 0 {
        assert(s =~= a.push(c));
        assert(s.drop_last() =~= a);
        assert(split_char(a, c).push(Seq::<char>::empty()) =~= split_char(a, c) + seq![Seq::<char>::empty()]);
    } else {
        assert(s.drop_last() =~= a.push(c) + b.drop_last());
        assert(s.last() == b.last());
        lemma_split_concat(a, b.drop_last(), c);
        lemma_split_nonempty(b.drop_last(), c);
        let pa = split_char(a, c);
        let pb = split_char(b.drop_last(), c);
        if b.last() == c {
            assert((pa + pb).push(Seq::<char>::empty()) =~= pa + pb.push(Seq::<char>::empty()));
        } else {
            assert((pa + pb).update((pa + pb).len() - 1, (pa + pb).last().push(b.last()))
                =~= pa + pb.update(pb.len() - 1, pb.last().push(b.last())));
        }
    }
}

/// A name without a separator is one piece.
proof fn lemma_split_single(s: Seq<char>, c: char)
    requires
        forall|i: int| 0 <= i < s.len() ==> s[i] != c,
    ensures
        split_char(s, c) == seq![s],
    decreases s.len(),
{
    if s.len() > 0 {
        lemma_split_single(s.drop_last(), c);
        assert(s.drop_last().push(s.last()) =~= s);
    } else {
        assert(s =~= Seq::<char>::empty());
    }
}

/// Keeping pieces keeps those of each part.
proof fn lemma_kept_concat(x: Seq<Seq<char>>, y: Seq<Seq<char>>)
    ensures
        kept_pieces(x + y) == kept_pieces(x) + kept_pieces(y),
    decreases y.len(),
{
    if y.len() == 0 {
        assert(x + y =~= x);
        assert(kept_pieces(x) + kept_pieces(y) =~= kept_pieces(x));
    } else {
        assert((x + y).drop_last() =~= x + y.drop_last());
        assert((x + y).last() == y.last());
        lemma_kept_concat(x, y.drop_last());
        let kx = kept_pieces(x);
        let ky = kept_pieces(y.drop_last());
        assert((kx + ky).push(y.last()) =~= kx + ky.push(y.last()));
    }
}

/// How an entry name is read as a path: a `/` separates components, so the
/// components of `a/b` are those of `a` followed by those of `b`; a name
/// without `/` is one component, except that an empty name and `.` are none.
pub proof fn law_entry_name_components(a: Seq<char>, b: Seq<char>)
    ensures
        name_components(a.push('/') + b) == name_components(a) + name_components(b),
        (forall|i: int| 0 <= i < a.len() ==> a[i] != '/') ==> name_components(a) == (if a.len() == 0 || a == seq!['.'] {
            Seq::<Seq<char>>::empty()
        } else {
            seq![a]
        }),
{
    lemma_split_concat(a, b, '/');
    lemma_kept_concat(split_char(a, '/'), split_char(b, '/'));
    if forall|i: int| 0 <= i < a.len() ==> a[i] != '/' {
        lemma_split_single(a, '/');
        let one = seq![a];
        assert(one.drop_last() =~= Seq::<Seq<char>>::empty());
        assert(one.last() == a);
        assert(kept_pieces(one.drop_last()) == Seq::<Seq<char>>::empty());
        assert(name_components(a) == kept_pieces(one));
        if !(a.len() == 0 || a == seq!['.']) {
            assert(Seq::<Seq<char>>::empty().push(a) =~= seq![a]);
        }
    }
}

/// Each step of the plan for `names` is the step `r.1` of the entry `r.0`,
/// and the step before it, within that entry, is the one before it in the
/// plan.
proof fn lemma_plan_steps(dest: PathView, names: Seq<Seq<char>>, j: int) -> (r: (int, int))
    requires
        0 <= j < extraction_plan(dest, names).len(),
    ensures
        0 <= r.0 < names.len(),
        0 <= r.1 < entry_steps(dest, names[r.0], r.0).len(),
        r.1 <= j,
        extraction_plan(dest, names)[j] == entry_steps(dest, names[r.0], r.0)[r.1],
        r.1 > 0 ==> extraction_plan(dest, names)[j - 1] == entry_steps(dest, names[r.0], r.0)[r.1 - 1],
    decreases names.len(),
{
    let pre = extraction_plan(dest, names.drop_last());
    let last = names.len() - 1;
    if j < pre.len() {
        let r = lemma_plan_steps(dest, names.drop_last(), j);
        assert(names.drop_last()[r.0] == names[r.0]);
        r
    } else {
        let m = j - pre.len();
        assert(names.last() == names[last]);
        (last, m)
    }
}

/// Every file of the plan is written right after its folder is created:
/// the step before writing a file below some folder creates exactly the
/// folder that holds it (same root, its components without the last). The
/// file written for an entry whose name does not start with `/` lies below
/// `dest`, at the components of the name; no step writes an entry whose
/// name ends with `/`.
pub proof fn law_plan_creates_each_file_folder(dest: PathView, names: Seq<Seq<char>>, j: int)
    requires
        0 <= j < extraction_plan(dest, names).len(),
    ensures
        extraction_plan(dest, names)[j] matches StepView::File(p, i) ==> {
            &&& 0 <= i < names.len()
            &&& !has_suffix(names[i], "/"@)
            &&& !has_prefix(names[i], "/"@) ==> p.root == dest.root && p.parts == dest.parts + name_components(names[i])
            &&& p.parts.len() > 0 ==> j > 0 && extraction_plan(dest, names)[j - 1] == StepView::Dir(
                PathView { root: p.root, parts: p.parts.drop_last() },
            )
        },
{
    let (i, m) = lemma_plan_steps(dest, names, j);
    let t = entry_target(dest, names[i]);
    if !has_suffix(names[i], "/"@) && t.parts.len() > 0 {
        assert(m == 0 ==> entry_steps(dest, names[i], i)[m] is Dir);
    }
}

/// The pieces of `v` between the occurrences of `c` (`str::split`).
fn split_pieces(v: &Vec<char>, c: char) -> (r: Vec<String>)
    ensures
        part_views(r@) == split_char(v@, c),
{
    let mut out: Vec<String> = Vec::new();
    let mut start: usize = 0;
    let mut i: usize = 0;
    assert(split_char(v@.take(0), c) =~= seq![Seq::<char>::empty()]);
    while i < v.len()
        invariant
            start <= i <= v.len(),
            split_char(v@.take(i as int), c).len() >= 1,
            part_views(out@) == split_char(v@.take(i as int), c).drop_last(),
            split_char(v@.take(i as int), c).last() == v@.subrange(start as int, i as int),
        decreases v.len() - i,
    {
        proof {
            lemma_split_step(v@, i as int, c);
        }
        let ghost pre = split_char(v@.take(i as int), c);
        if v[i] == c {
            out.push(string_from_chars(v, start, i));
            start = i + 1;
            proof {
                let post = split_char(v@.take(i + 1), c);
                assert(post.drop_last() =~= pre);
                assert(part_views(out@) =~= pre.drop_last().push(pre.last()));
                assert(pre =~= pre.drop_last().push(pre.last()));
            }
        } else {
            proof {
                let post = split_char(v@.take(i + 1), c);
                assert(post.drop_last() =~= pre.drop_last());
                assert(post.last() =~= v@.subrange(start as int, i + 1));
            }
        }
        i = i + 1;
    }
    out.push(string_from_chars(v, start, i));
    proof {
        let all = split_char(v@.take(i as int), c);
        assert(v@.take(i as int) =~= v@);
        assert(part_views(out@) =~= all.drop_last().push(all.last()));
        assert(all =~= all.drop_last().push(all.last()));
    }
    out
}

/// The components of the entry name `name` (see [`name_components`]).
pub fn components_of_name(name: &str) -> (r: Vec<String>)
    ensures
        part_views(r@) == name_components(name@),
{
    let v = chars_of(name);
    let pieces = split_pieces(&v, '/');
    let mut out: Vec<String> = Vec::new();
    let mut i: usize = 0;
    assert(part_views(pieces@).take(0) =~= Seq::<Seq<char>>::empty());
    while i < pieces.len()
        invariant
            i <= pieces.len(),
            part_views(pieces@) == split_char(name@, '/'),
            part_views(out@) == kept_pieces(part_views(pieces@).take(i as int)),
        decreases pieces.len() - i,
    {
        let ghost pre = part_views(pieces@).take(i as int);
        let ghost post = part_views(pieces@).take(i + 1);
        assert(post.drop_last() =~= pre);
        assert(post.last() == pieces@[i as int]@);
        let p = chars_of(pieces[i].as_str());
        let dot = p.len() == 1 && p[0] == '.';
        assert(dot == (p@ == seq!['.'])) by {
            if p@ == seq!['.'] {
                assert(p@.len() == 1 && p@[0] == '.');
            }
            if dot {
                assert(p@ =~= seq!['.']);
            }
        }
        if p.len() > 0 && !dot {
            let ghost before = part_views(out@);
            out.push(pieces[i].clone());
            assert(part_views(out@) =~= before.push(pieces@[i as int]@));
        }
        i = i + 1;
    }
    assert(part_views(pieces@).take(pieces.len() as int) =~= part_views(pieces@));
    out
}

/// The root of a path joined with a name that starts with `/` (see
/// [`rooted_root`]).
pub fn root_for_rooted_name(root: &String) -> (r: String)
    ensures
        r@ == rooted_root(root@),
{
    let v = chars_of(root.as_str());
    let n = v.len();
    let end = if n > 0 && (v[n - 1] == '/' || v[n - 1] == '\\') { n - 1 } else { n };
    let mut r = string_from_chars(&v, 0, end);
    r.append("/");
    proof {
        reveal_strlit("/");
        if n > 0 && (v@[n - 1] == '/' || v@[n - 1] == '\\') {
            assert(v@.subrange(0, end as int) =~= root@.drop_last());
        } else {
            assert(v@.subrange(0, end as int) =~= root@);
        }
    }
    r
}

/// The steps that unpack `entries` into `dest`, in order (see
/// [`extraction_plan`]).
pub fn plan_extraction(dest: &FsPath, entries: &Vec<ZipEntry>) -> (r: Vec<ExtractStep>)
    ensures
        step_views(r@) == extraction_plan(dest@, entry_views(entries@).map_values(|e: (Seq<char>, Seq<u8>)| e.0)),
{
    let ghost names = entry_views(entries@).map_values(|e: (Seq<char>, Seq<u8>)| e.0);
    let mut out: Vec<ExtractStep> = Vec::new();
    let mut i: usize = 0;
    assert(names.take(0) =~= Seq::<Seq<char>>::empty());
    while i < entries.len()
        invariant
            i <= entries.len(),
            names == entry_views(entries@).map_values(|e: (Seq<char>, Seq<u8>)| e.0),
            step_views(out@) == extraction_plan(dest@, names.take(i as int)),
        decreases entries.len() - i,
    {
        let name = entries[i].name.as_str();
        assert(names[i as int] == name@);
        assert(names.take(i + 1).drop_last() =~= names.take(i as int));
        let parts = components_of_name(name);
        let rooted = str_starts_with(name, "/");
        let mut target = if rooted {
            FsPath::from_parts(root_for_rooted_name(&dest.root), Vec::new())
        } else {
            dest.duplicate()
        };
        let ghost base = target@;
        assert(base.parts =~= if rooted { Seq::<Seq<char>>::empty() } else { dest@.parts });
        let mut k: usize = 0;
        while k < parts.len()
            invariant
                k <= parts.len(),
                target@.root == base.root,
                target@.parts == base.parts + part_views(parts@).take(k as int),
            decreases parts.len() - k,
        {
            target = target.join(parts[k].as_str());
            assert(target@.parts =~= base.parts + part_views(parts@).take(k + 1));
            k = k + 1;
        }
        assert(part_views(parts@).take(parts.len() as int) =~= part_views(parts@));
        assert(target@.parts =~= base.parts + part_views(parts@));
        assert(target@ == entry_target(dest@, name@));
        let ghost before = step_views(out@);
        if str_ends_with(name, "/") {
            out.push(ExtractStep::CreateDir(target));
        } else if target.parts.len() > 0 {
            let mut parent = target.duplicate();
            parent.parts.pop();
            assert(parent@.parts =~= target@.parts.drop_last());
            out.push(ExtractStep::CreateDir(parent));
            out.push(ExtractStep::WriteFile(target, i));
        } else {
            out.push(ExtractStep::WriteFile(target, i));
        }
        assert(step_views(out@) =~= before + entry_steps(dest@, name@, i as int));
        i = i + 1;
    }
    assert(names.take(entries.len() as int) =~= names);
    out
}

} // verus!
