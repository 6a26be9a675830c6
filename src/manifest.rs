//! A read-only namespace over a fixed list of `s3://bucket/key` URIs.
//!
//! The whole tree is built once, when the namespace is made: inode `t + 1`
//! stands in slot `t` of an arena, the root in slot 0, then every other path in
//! sorted order. Directories list their children by inode number, in order of
//! name.
use vstd::prelude::*;
use std::sync::Arc;
use crate::error::InodeError;
use crate::inode::{
    Expiry, InodeKind, InodeNo, InodeStat, LookedUp, ROOT_INODE, Timestamp, saturating_sum,
};
use vstd::utf8::{decode_utf8, valid_utf8};
use crate::names::{all_valid, Name, chars_of, lemma_split_slash_two, join_names, join_slash, names_view, split_names, split_slash};
use crate::tree::{
    Entry, entries_wf, has_path, index_of, lemma_index_of, lemma_table_unique,
    model_origin, origin_at, prefix_closed, runs_through, sorted, build_entries, child_lists, entry_path, kids, lemma_table_prefix_closed, parent_slot,
    parent_slots, paths_view, paths_wf, table_of,
};

verus! {

broadcast use vstd::string::group_string_axioms;

/// The size recorded for every file of a manifest.
pub const MANIFEST_FILE_SIZE: usize = 1024;

/// How long a stat of a manifest stays valid: a thousand days, in nanoseconds.
pub const MANIFEST_TTL: u64 = 86_400_000_000_000_000;

/// What an inode of the manifest holds, as plain values.
pub struct InodeView {
    pub ino: InodeNo,
    pub name: Seq<char>,
    pub parent: InodeNo,
    pub kind: InodeKind,
    /// The full key of a file; the name of a directory.
    pub key: Seq<char>,
    /// The inode numbers of a directory's children, in order of name.
    pub children: Seq<InodeNo>,
    pub size: usize,
}

#[derive(Debug)]
enum NodeKind {
    File { key: String, size: usize },
    Directory { key: String, children: Vec<InodeNo> },
}

#[derive(Debug)]
struct InodeInner {
    ino: InodeNo,
    name: String,
    parent: InodeNo,
    kind: NodeKind,
}

/// A shared handle on an inode of the manifest.
#[derive(Debug)]
pub struct Inode {
    inner: Arc<InodeInner>,
}

impl View for Inode {
    type V = InodeView;

    closed spec fn view(&self) -> InodeView {
        let inner = *self.inner;
        InodeView {
            ino: inner.ino,
            name: inner.name@,
            parent: inner.parent,
            kind: match inner.kind {
                NodeKind::File { .. } => InodeKind::File,
                NodeKind::Directory { .. } => InodeKind::Directory,
            },
            key: match inner.kind {
                NodeKind::File { key, .. } => key@,
                NodeKind::Directory { key, .. } => key@,
            },
            children: match inner.kind {
                NodeKind::File { .. } => Seq::<InodeNo>::empty(),
                NodeKind::Directory { children, .. } => children@,
            },
            size: match inner.kind {
                NodeKind::File { size, .. } => size,
                NodeKind::Directory { .. } => 0,
            },
        }
    }
}

/// What `format!("{} (full key {:?})", ino, key)` gives.
pub uninterp spec fn inode_description(ino: u64, key: Seq<char>) -> Seq<char>;

/// Relies on `format!` with `{}` for the number and `{:?}` for the key: the
/// text depends on the two values alone.
#[verifier::external_body]
fn describe(ino: u64, key: &str) -> (r: String)
    ensures
        r@ == inode_description(ino, key@),
{
    format!("{} (full key {:?})", ino, key)
}

/// The tag every file of a manifest carries.
pub open spec fn manifest_etag() -> Seq<char> {
    seq!['n', 'o', 't', ' ', 'r', 'e', 'a', 'l']
}

/// `s` is the stat of inode `v` taken at `now`.
pub open spec fn stat_of(s: InodeStat, v: InodeView, now: u64) -> bool {
    &&& s.expiry.deadline == saturating_sum(now, MANIFEST_TTL)
    &&& s.size == v.size
    &&& s.mtime == Timestamp { unix_seconds: 0, nanoseconds: 0 }
    &&& s.ctime == Timestamp { unix_seconds: 0, nanoseconds: 0 }
    &&& s.atime == Timestamp { unix_seconds: 0, nanoseconds: 0 }
    &&& s.is_readable
    &&& match v.kind {
        InodeKind::File => s.etag is Some && s.etag->0@ == manifest_etag(),
        InodeKind::Directory => s.etag is None,
    }
}

impl Clone for Inode {
    fn clone(&self) -> (r: Inode)
        ensures
            r@ == self@,
    {
        Inode { inner: self.inner.clone() }
    }
}

impl Inode {
    pub fn ino(&self) -> (r: InodeNo)
        ensures
            r == self@.ino,
    {
        self.inner.ino
    }

    pub fn name(&self) -> (r: &str)
        ensures
            r@ == self@.name,
    {
        self.inner.name.as_str()
    }

    pub fn parent(&self) -> (r: InodeNo)
        ensures
            r == self@.parent,
    {
        self.inner.parent
    }

    pub fn kind(&self) -> (r: InodeKind)
        ensures
            r == self@.kind,
    {
        match &self.inner.kind {
            NodeKind::File { .. } => InodeKind::File,
            NodeKind::Directory { .. } => InodeKind::Directory,
        }
    }

    /// The full key of a file; the name recorded for a directory.
    pub fn full_key(&self) -> (r: &str)
        ensures
            r@ == self@.key,
    {
        match &self.inner.kind {
            NodeKind::File { key, .. } => key.as_str(),
            NodeKind::Directory { key, .. } => key.as_str(),
        }
    }

    /// Every inode of a manifest stands for remote keys.
    pub fn is_remote(&self) -> (r: bool)
        ensures
            r,
    {
        true
    }

    /// The inode's number and full key, for error messages.
    pub fn description(&self) -> (r: String)
        ensures
            r@ == inode_description(self@.ino, self@.key),
    {
        describe(self.ino(), self.full_key())
    }

    /// A snapshot of the inode's metadata, valid for a thousand days from `now`.
    pub fn stat(&self, now: u64) -> (r: InodeStat)
        ensures
            stat_of(r, self@, now),
    {
        let (size, etag) = match &self.inner.kind {
            NodeKind::File { size, .. } => {
                proof {
                    reveal_strlit("not real");
                }
                let tag = String::from_str("not real");
                assert(tag@ =~= manifest_etag());
                (*size, Some(tag))
            },
            NodeKind::Directory { .. } => (0, None),
        };
        InodeStat {
            expiry: Expiry::from_now(now, MANIFEST_TTL),
            size,
            mtime: Timestamp::epoch(),
            ctime: Timestamp::epoch(),
            atime: Timestamp::epoch(),
            etag,
            is_readable: true,
        }
    }
}

/// The `s3://` that every URI of a manifest begins with.
pub open spec fn s3_scheme() -> Seq<char> {
    seq!['s', '3', ':', '/', '/']
}

/// `u` is `s3://`, a bucket, `/` and a key.
pub open spec fn uri_ok(u: Seq<char>) -> bool {
    &&& u.len() >= 5
    &&& u.take(5) == s3_scheme()
    &&& split_slash(u.skip(5)).len() >= 2
}

/// The names of the key that URI `u` gives.
pub open spec fn uri_key(u: Seq<char>) -> Seq<Seq<char>> {
    split_slash(u.skip(5)).drop_first()
}

/// The keys of a list of URIs.
pub open spec fn uri_keys(us: Seq<String>) -> Seq<Seq<Seq<char>>> {
    us.map_values(|u: String| uri_key(u@))
}

/// The slot of each entry's parent, the root in slot 0.
pub open spec fn parent_seq(es: Seq<Entry>) -> Seq<usize> {
    Seq::new(
        (es.len() + 1) as nat,
        |t: int|
            if t == 0 {
                0usize
            } else {
                parent_slot(es, t - 1) as usize
            },
    )
}

/// The inode numbers of the children of slot `t`.
pub open spec fn child_inos(es: Seq<Entry>, t: int) -> Seq<InodeNo> {
    kids(parent_seq(es), t, es.len() + 1 as int).map_values(|s: usize| (s + 1) as InodeNo)
}

/// The inode in slot `t` of the table built from `es`.
pub open spec fn manifest_node(es: Seq<Entry>, t: int) -> InodeView {
    if t == 0 {
        InodeView {
            ino: ROOT_INODE,
            name: Seq::<char>::empty(),
            parent: ROOT_INODE,
            kind: InodeKind::Directory,
            key: Seq::<char>::empty(),
            children: child_inos(es, 0),
            size: 0,
        }
    } else {
        let p = entry_path(es[t - 1]);
        if es[t - 1].origin.is_dir() {
            InodeView {
                ino: (t + 1) as InodeNo,
                name: p.last(),
                parent: (parent_slot(es, t - 1) + 1) as InodeNo,
                kind: InodeKind::Directory,
                key: p.last(),
                children: child_inos(es, t),
                size: 0,
            }
        } else {
            InodeView {
                ino: (t + 1) as InodeNo,
                name: p.last(),
                parent: (parent_slot(es, t - 1) + 1) as InodeNo,
                kind: InodeKind::File,
                key: join_slash(p),
                children: Seq::<InodeNo>::empty(),
                size: MANIFEST_FILE_SIZE,
            }
        }
    }
}

/// The inodes built from the table `es`, root first.
pub open spec fn manifest_view(es: Seq<Entry>) -> Seq<InodeView> {
    Seq::new((es.len() + 1) as nat, |t: int| manifest_node(es, t))
}

/// A namespace over a fixed manifest of keys. Nothing in it can be written.
#[derive(Debug)]
pub struct ManifestNamespace {
    inodes: Vec<Inode>,
    lookup_counts: Vec<u64>,
}

impl ManifestNamespace {
    /// The inodes, inode `t + 1` in slot `t`.
    pub closed spec fn inodes_view(&self) -> Seq<InodeView> {
        self.inodes@.map_values(|i: Inode| i@)
    }

    /// How many references callers hold on each inode, by slot.
    pub closed spec fn counts(&self) -> Seq<u64> {
        self.lookup_counts@
    }

    /// Inode numbers match slots, and every number an inode names exists.
    pub open spec fn wf(&self) -> bool {
        let v = self.inodes_view();
        &&& v.len() >= 1
        &&& v.len() <= u64::MAX
        &&& v.len() <= usize::MAX
        &&& self.counts().len() == v.len()
        &&& forall|t: int| 0 <= t < v.len() ==> #[trigger] v[t].ino == t + 1
        &&& forall|t: int| 0 <= t < v.len() ==> 1 <= #[trigger] v[t].parent <= v.len()
        &&& forall|t: int, c: int|
            0 <= t < v.len() && 0 <= c < v[t].children.len() ==> 1 <= #[trigger] v[t].children[c]
                <= v.len()
    }

    /// The namespace holds the tree that the keys of `uris` give.
    pub open spec fn built_from(&self, uris: Seq<String>) -> bool {
        exists|es: Seq<Entry>|
            table_of(es, uri_keys(uris), Seq::empty(), Seq::empty()) && self.inodes_view()
                == #[trigger] manifest_view(es)
    }
}

pub proof fn lemma_kids_bound(parents: Seq<usize>, t: int, n: int)
    requires
        n <= parents.len(),
        n <= usize::MAX + 1,
    ensures
        forall|c: int| 0 <= c < kids(parents, t, n).len() ==> 1 <= #[trigger] kids(parents, t, n)[c] < n,
    decreases n,
{
    if n > 1 {
        lemma_kids_bound(parents, t, n - 1);
        let pre = kids(parents, t, n - 1);
        assert forall|c: int| 0 <= c < kids(parents, t, n).len() implies 1 <= #[trigger] kids(parents, t, n)[c] < n by {
            if parents[n - 1] as int == t {
                assert(kids(parents, t, n) == pre.push((n - 1) as usize));
                if c < pre.len() {
                    assert(kids(parents, t, n)[c] == pre[c]);
                }
            } else {
                assert(kids(parents, t, n) == pre);
            }
        }
    }
}

/// The inode numbers of a list of slots.
fn slots_to_inos(v: &Vec<usize>) -> (r: Vec<InodeNo>)
    requires
        forall|c: int| 0 <= c < v@.len() ==> #[trigger] v@[c] < usize::MAX,
    ensures
        r@ == v@.map_values(|s: usize| (s + 1) as InodeNo),
{
    let mut out: Vec<InodeNo> = Vec::new();
    let mut i: usize = 0;
    while i < v.len()
        invariant
            i <= v@.len(),
            forall|c: int| 0 <= c < v@.len() ==> #[trigger] v@[c] < usize::MAX,
            out@ == v@.take(i as int).map_values(|s: usize| (s + 1) as InodeNo),
        decreases v@.len() - i,
    {
        let s = v[i];
        out.push((s + 1) as InodeNo);
        assert(v@.take(i + 1) =~= v@.take(i as int).push(s));
        assert(out@ =~= v@.take(i + 1).map_values(|s: usize| (s + 1) as InodeNo));
        i = i + 1;
    }
    assert(v@.take(v@.len() as int) =~= v@);
    out
}

impl ManifestNamespace {
    /// Builds the namespace for the keys of `s3://bucket/key` URIs: every key
    /// is split at `/`; a key with an empty, `.` or `..` name, or one holding
    /// NUL, shows only the directories above that name; a directory wins over a
    /// file of the same path. The tree does not depend on the order of the URIs.
    pub fn new(uris: Vec<String>) -> (r: ManifestNamespace)
        requires
            forall|i: int| 0 <= i < uris@.len() ==> uri_ok(#[trigger] uris@[i]@),
        ensures
            r.wf(),
            r.built_from(uris@),
            forall|t: int| 0 <= t < r.counts().len() ==> #[trigger] r.counts()[t] == 0,
    {
        let mut keys: Vec<Vec<Name>> = Vec::new();
        let mut i: usize = 0;
        while i < uris.len()
            invariant
                i <= uris@.len(),
                forall|j: int| 0 <= j < uris@.len() ==> uri_ok(#[trigger] uris@[j]@),
                keys@.len() == i,
                paths_wf(keys@),
                paths_view(keys@) == uri_keys(uris@).take(i as int),
            decreases uris@.len() - i,
        {
            assert(uri_ok(uris@[i as int]@));
            let mut parts = split_names(uris[i].as_str(), 5);
            let ghost whole = names_view(parts@);
            parts.remove(0);
            proof {
                assert(names_view(parts@) =~= whole.drop_first());
                assert(paths_view(keys@.push(parts)) =~= uri_keys(uris@).take(i + 1));
            }
            keys.push(parts);
            i = i + 1;
        }
        assert(uri_keys(uris@).take(uris@.len() as int) =~= uri_keys(uris@));
        let files: Vec<Vec<Name>> = Vec::new();
        let dirs: Vec<Vec<Name>> = Vec::new();
        assert(paths_view(files@) =~= Seq::<Seq<Seq<char>>>::empty());
        assert(paths_view(dirs@) =~= Seq::<Seq<Seq<char>>>::empty());
        let es = build_entries(&keys, &files, &dirs);
        proof {
            lemma_table_prefix_closed(es@, paths_view(keys@), paths_view(files@), paths_view(dirs@));
        }
        let parents = parent_slots(&es);
        let n = parents.len();
        let lists = child_lists(&parents);
        let ghost ps = parent_seq(es@);
        assert forall|k: int| 0 <= k < n implies #[trigger] parents@[k] == ps[k] by {
            if k > 0 {
                assert(parents@[(k - 1) + 1] as int == parent_slot(es@, k - 1));
            }
        }
        assert(parents@ =~= ps);
        assert forall|k: int| 1 <= k < n implies #[trigger] parents@[k] as int == parent_slot(es@, k - 1) by {
            assert(parents@[(k - 1) + 1] as int == parent_slot(es@, k - 1));
        }
        let mut inodes: Vec<Inode> = Vec::new();
        let mut counts: Vec<u64> = Vec::new();
        let mut t: usize = 0;
        while t < n
            invariant
                n == es@.len() + 1,
                n == parents@.len(),
                parents@ == ps,
                ps == parent_seq(es@),
                lists@.len() == n,
                forall|k: int| 0 <= k < n ==> #[trigger] lists@[k]@ == kids(ps, k, n as int),
                forall|k: int| 0 <= k < n ==> #[trigger] parents@[k] < n,
                forall|k: int| 1 <= k < n ==> #[trigger] parents@[k] as int == parent_slot(es@, k - 1),
                crate::tree::entries_wf(es@),
                t <= n,
                inodes@.len() == t,
                counts@.len() == t,
                forall|k: int| 0 <= k < t ==> #[trigger] counts@[k] == 0,
                forall|k: int| 0 <= k < t ==> #[trigger] inodes@[k]@ == manifest_node(es@, k),
            decreases n - t,
        {
            proof {
                lemma_kids_bound(ps, t as int, n as int);
            }
            let children = slots_to_inos(&lists[t]);
            assert(children@ == child_inos(es@, t as int));
            let inner = if t == 0 {
                InodeInner {
                    ino: ROOT_INODE,
                    name: String::new(),
                    parent: ROOT_INODE,
                    kind: NodeKind::Directory { key: String::new(), children },
                }
            } else {
                let e = &es[t - 1];
                let path = &e.path;
                assert(crate::tree::names_wf_at(es@, t - 1));
                let last = &path[path.len() - 1];
                assert(last.wf());
                let name = last.text.clone();
                let parent = (parents[t] + 1) as InodeNo;
                let is_dir = e.origin.remote_dir || e.origin.local_dir || e.origin.local_ancestor;
                proof {
                    assert(entry_path(es@[t - 1]).last() == last@);
                }
                if is_dir {
                    InodeInner {
                        ino: (t + 1) as InodeNo,
                        name: name.clone(),
                        parent,
                        kind: NodeKind::Directory { key: name, children },
                    }
                } else {
                    let key = join_names(path);
                    InodeInner {
                        ino: (t + 1) as InodeNo,
                        name,
                        parent,
                        kind: NodeKind::File { key, size: MANIFEST_FILE_SIZE },
                    }
                }
            };
            let node = Inode { inner: Arc::new(inner) };
            assert(node@ == manifest_node(es@, t as int));
            inodes.push(node);
            counts.push(0);
            t = t + 1;
        }
        let r = ManifestNamespace { inodes, lookup_counts: counts };
        proof {
            assert(r.inodes_view() =~= manifest_view(es@));
            assert(table_of(es@, uri_keys(uris@), Seq::empty(), Seq::empty()));
            let v = r.inodes_view();
            assert(v.len() == n);
            assert forall|t: int| 0 <= t < v.len() implies #[trigger] v[t].ino == t + 1 by {
                assert(v[t] == manifest_node(es@, t));
            }
            assert forall|t: int| 0 <= t < v.len() implies 1 <= #[trigger] v[t].parent <= v.len() by {
                assert(v[t] == manifest_node(es@, t));
                if t > 0 {
                    assert(parents@[t] < n);
                }
            }
            assert forall|t: int, c: int|
                0 <= t < v.len() && 0 <= c < v[t].children.len() implies 1 <= #[trigger] v[t].children[c]
                    <= v.len() by {
                assert(v[t] == manifest_node(es@, t));
                lemma_kids_bound(ps, t, n as int);
            }
        }
        r
    }
}

/// Relies on `std::str::from_utf8`: it accepts exactly the valid UTF-8 byte
/// sequences, and the string it gives holds the characters they encode.
#[verifier::external_body]
fn decode_name(b: &[u8]) -> (r: Option<String>)
    ensures
        r is Some <==> valid_utf8(b@),
        r is Some ==> r->0@ == decode_utf8(b@),
{
    match std::str::from_utf8(b) {
        Ok(s) => Some(s.to_string()),
        Err(_) => None,
    }
}

/// One more reference, held at the largest count.
pub open spec fn count_up(c: u64) -> u64 {
    if c == u64::MAX {
        c
    } else {
        (c + 1) as u64
    }
}

/// `n` fewer references, none below zero.
pub open spec fn count_down(c: u64, n: u64) -> u64 {
    if c <= n {
        0
    } else {
        (c - n) as u64
    }
}

/// Inode `ino` exists in `v`.
pub open spec fn exists_ino(v: Seq<InodeView>, ino: InodeNo) -> bool {
    1 <= ino <= v.len()
}

/// Some child of slot `t` is called `name`.
pub open spec fn has_child_named(v: Seq<InodeView>, t: int, name: Seq<char>) -> bool {
    exists|c: int|
        0 <= c < v[t].children.len() && #[trigger] v[v[t].children[c] - 1].name == name
}

/// What a lookup of `name` in directory `parent` returns, and how it leaves the
/// reference counts, for inodes `v` and counts `counts` before the call.
pub open spec fn lookup_outcome(
    v: Seq<InodeView>,
    counts: Seq<u64>,
    parent: InodeNo,
    name: Seq<char>,
    now: u64,
    r: Result<LookedUp<Inode>, InodeError>,
    new_counts: Seq<u64>,
) -> bool {
    if !exists_ino(v, parent) {
        r matches Err(InodeError::InodeDoesNotExist(n)) && n == parent && new_counts == counts
    } else if v[parent - 1].kind == InodeKind::File {
        &&& r matches Err(InodeError::NotADirectory(d)) && d@ == inode_description(
            parent,
            v[parent - 1].key,
        )
        &&& new_counts == counts
    } else if !has_child_named(v, parent - 1, name) {
        &&& r matches Err(InodeError::FileDoesNotExist(n, d)) && n@ == name && d@
            == inode_description(parent, v[parent - 1].key)
        &&& new_counts == counts
    } else {
        &&& r is Ok
        &&& v[parent - 1].children.contains(r->Ok_0.inode@.ino)
        &&& exists_ino(v, r->Ok_0.inode@.ino)
        &&& r->Ok_0.inode@ == v[r->Ok_0.inode@.ino - 1]
        &&& r->Ok_0.inode@.name == name
        &&& stat_of(r->Ok_0.stat, r->Ok_0.inode@, now)
        &&& new_counts == counts.update(
            r->Ok_0.inode@.ino - 1,
            count_up(counts[r->Ok_0.inode@.ino - 1]),
        )
    }
}

/// A handle on a file opened for reading.
#[derive(Debug)]
pub struct ReadHandle {
    ino: InodeNo,
}

impl ReadHandle {
    pub fn finish(self) -> (r: Result<(), InodeError>)
        ensures
            r is Ok,
    {
        Ok(())
    }
}

/// A handle on a file opened for writing. A manifest never hands one out.
#[derive(Debug)]
pub struct WriteHandle {
    ino: InodeNo,
}

impl WriteHandle {
    pub fn inc_file_size(&self, _len: usize) {
    }

    pub fn finish(self) -> (r: Result<(), InodeError>)
        ensures
            r is Ok,
    {
        Ok(())
    }
}

/// Hands out the children of a directory one at a time, in order of name.
#[derive(Debug)]
pub struct ReaddirHandle {
    parent: InodeNo,
    pending: Vec<Inode>,
}

impl ReaddirHandle {
    /// The children still to come, the next one last.
    pub closed spec fn pending(&self) -> Seq<InodeView> {
        self.pending@.map_values(|i: Inode| i@)
    }

    pub closed spec fn parent_ino(&self) -> InodeNo {
        self.parent
    }

    /// The next child, or none once all have come.
    pub fn next(&mut self, now: u64) -> (r: Result<Option<LookedUp<Inode>>, InodeError>)
        ensures
            r is Ok,
            final(self).parent_ino() == old(self).parent_ino(),
            old(self).pending().len() == 0 ==> r->Ok_0 is None && final(self).pending()
                == old(self).pending(),
            old(self).pending().len() > 0 ==> {
                &&& r->Ok_0 is Some
                &&& r->Ok_0->0.inode@ == old(self).pending().last()
                &&& stat_of(r->Ok_0->0.stat, r->Ok_0->0.inode@, now)
                &&& final(self).pending() == old(self).pending().drop_last()
            },
    {
        match self.pending.pop() {
            None => Ok(None),
            Some(next) => {
                proof {
                    assert(self.pending@.map_values(|i: Inode| i@) =~= old(self).pending@.map_values(
                        |i: Inode| i@,
                    ).drop_last());
                }
                let stat = next.stat(now);
                Ok(Some(LookedUp { inode: next, stat }))
            },
        }
    }

    /// Puts back an entry that `next` gave and the caller could not deliver:
    /// it comes again next.
    pub fn readd(&mut self, entry: LookedUp<Inode>)
        ensures
            final(self).parent_ino() == old(self).parent_ino(),
            final(self).pending() == old(self).pending().push(entry.inode@),
    {
        self.pending.push(entry.inode);
        proof {
            assert(self.pending@.map_values(|i: Inode| i@) =~= old(self).pending@.map_values(
                |i: Inode| i@,
            ).push(entry.inode@));
        }
    }

    /// Takes a reference on the entry's inode, as a lookup of it would.
    pub fn remember(&self, namespace: &mut ManifestNamespace, entry: &LookedUp<Inode>)
        requires
            old(namespace).wf(),
        ensures
            final(namespace).wf(),
            final(namespace).inodes_view() == old(namespace).inodes_view(),
            final(namespace).counts() == if exists_ino(old(namespace).inodes_view(), entry.inode@.ino) {
                old(namespace).counts().update(
                    entry.inode@.ino - 1,
                    count_up(old(namespace).counts()[entry.inode@.ino - 1]),
                )
            } else {
                old(namespace).counts()
            },
    {
        namespace.remember(entry.inode.ino());
    }

    /// The directory this handle lists.
    pub fn parent(&self) -> (r: InodeNo)
        ensures
            r == self.parent_ino(),
    {
        self.parent
    }
}

impl ManifestNamespace {
    /// Checks `ino` and gives its slot.
    fn slot_of(&self, ino: InodeNo) -> (r: Option<usize>)
        requires
            self.wf(),
        ensures
            r is Some <==> exists_ino(self.inodes_view(), ino),
            r is Some ==> r->0 == ino - 1,
    {
        if ino == 0 || ino > self.inodes.len() as u64 {
            None
        } else {
            Some((ino - 1) as usize)
        }
    }

    /// Looks up the child called `name` of directory `parent_ino`, and takes a
    /// reference on it. The name must be valid UTF-8.
    pub fn lookup(&mut self, parent_ino: InodeNo, name: &[u8], now: u64) -> (r: Result<
        LookedUp<Inode>,
        InodeError,
    >)
        requires
            old(self).wf(),
        ensures
            final(self).wf(),
            final(self).inodes_view() == old(self).inodes_view(),
            !valid_utf8(name@) ==> (r matches Err(InodeError::InvalidFileName(b)) && b@ == name@)
                && final(self).counts() == old(self).counts(),
            valid_utf8(name@) ==> lookup_outcome(
                old(self).inodes_view(),
                old(self).counts(),
                parent_ino,
                decode_utf8(name@),
                now,
                r,
                final(self).counts(),
            ),
    {
        match decode_name(name) {
            None => Err(InodeError::InvalidFileName(vstd::slice::slice_to_vec(name))),
            Some(text) => self.lookup_name(parent_ino, text.as_str(), now),
        }
    }

    /// Looks up the child called `name` of directory `parent_ino`, and takes a
    /// reference on it.
    pub fn lookup_name(&mut self, parent_ino: InodeNo, name: &str, now: u64) -> (r: Result<
        LookedUp<Inode>,
        InodeError,
    >)
        requires
            old(self).wf(),
        ensures
            final(self).wf(),
            final(self).inodes_view() == old(self).inodes_view(),
            lookup_outcome(
                old(self).inodes_view(),
                old(self).counts(),
                parent_ino,
                name@,
                now,
                r,
                final(self).counts(),
            ),
    {
        let ghost v = self.inodes_view();
        let slot = match self.slot_of(parent_ino) {
            None => {
                return Err(InodeError::InodeDoesNotExist(parent_ino));
            },
            Some(t) => t,
        };
        assert(self.inodes@[slot as int]@ == v[slot as int]);
        let found: Option<Inode>;
        match &self.inodes[slot].inner.kind {
            NodeKind::File { .. } => {
                return Err(InodeError::NotADirectory(self.inodes[slot].description()));
            },
            NodeKind::Directory { children, .. } => {
                let wanted = String::from_str(name);
                let mut c: usize = 0;
                let mut hit: Option<Inode> = None;
                while c < children.len()
                    invariant_except_break
                        hit is None,
                    invariant
                        self.wf(),
                        v == self.inodes_view(),
                        slot < v.len(),
                        children@ == v[slot as int].children,
                        wanted@ == name@,
                        c <= children@.len(),
                        forall|k: int| 0 <= k < c ==> #[trigger] v[children@[k] - 1].name != name@,
                    ensures
                        hit is None ==> !has_child_named(v, slot as int, name@),
                        hit is Some ==> {
                            &&& v[slot as int].children.contains(hit->0@.ino)
                            &&& exists_ino(v, hit->0@.ino)
                            &&& hit->0@ == v[hit->0@.ino - 1]
                            &&& hit->0@.name == name@
                        },
                    decreases children@.len() - c,
                {
                    let ino = children[c];
                    assert(1 <= v[slot as int].children[c as int] <= v.len());
                    let child = &self.inodes[(ino - 1) as usize];
                    assert(child@ == v[ino - 1]);
                    assert(v[ino - 1].ino == ino);
                    if child.inner.name == wanted {
                        hit = Some(child.clone());
                        break;
                    }
                    c = c + 1;
                }
                found = hit;
            },
        }
        match found {
            None => {
                let d = self.inodes[slot].description();
                Err(InodeError::FileDoesNotExist(String::from_str(name), d))
            },
            Some(inode) => {
                let t = (inode.ino() - 1) as usize;
                let before = self.lookup_counts[t];
                self.lookup_counts.set(t, before.saturating_add(1));
                proof {
                    assert(self.inodes_view() == v);
                }
                let stat = inode.stat(now);
                Ok(LookedUp { inode, stat })
            },
        }
    }

    /// The inode `ino` and a fresh snapshot of its metadata.
    pub fn getattr(&self, ino: InodeNo, _force_revalidate: bool, now: u64) -> (r: Result<
        LookedUp<Inode>,
        InodeError,
    >)
        requires
            self.wf(),
        ensures
            !exists_ino(self.inodes_view(), ino) ==> (r matches Err(InodeError::InodeDoesNotExist(n))
                && n == ino),
            exists_ino(self.inodes_view(), ino) ==> r is Ok && r->Ok_0.inode@ == self.inodes_view()[ino
                - 1] && stat_of(r->Ok_0.stat, r->Ok_0.inode@, now),
    {
        match self.slot_of(ino) {
            None => Err(InodeError::InodeDoesNotExist(ino)),
            Some(t) => {
                let inode = self.inodes[t].clone();
                let stat = inode.stat(now);
                Ok(LookedUp { inode, stat })
            },
        }
    }

    /// The error every change to inode `ino` meets: it does not exist, or it
    /// cannot be written.
    fn refuse_change(&self, ino: InodeNo) -> (r: InodeError)
        requires
            self.wf(),
        ensures
            refused(self.inodes_view(), ino, r),
    {
        match self.slot_of(ino) {
            None => InodeError::InodeDoesNotExist(ino),
            Some(t) => InodeError::InodeNotWritable(self.inodes[t].description()),
        }
    }

    /// Attributes cannot be set: every inode of a manifest is read-only.
    pub fn setattr(&self, ino: InodeNo, _atime: Option<Timestamp>, _mtime: Option<Timestamp>) -> (r:
        Result<LookedUp<Inode>, InodeError>)
        requires
            self.wf(),
        ensures
            r is Err && refused(self.inodes_view(), ino, r->Err_0),
    {
        Err(self.refuse_change(ino))
    }

    /// Nothing can be created in a manifest.
    pub fn create(&self, dir_ino: InodeNo, _name: &[u8], _kind: InodeKind) -> (r: Result<
        LookedUp<Inode>,
        InodeError,
    >)
        requires
            self.wf(),
        ensures
            r is Err && refused(self.inodes_view(), dir_ino, r->Err_0),
    {
        Err(self.refuse_change(dir_ino))
    }

    /// Nothing can be removed from a manifest.
    pub fn unlink(&self, parent_ino: InodeNo, _name: &[u8]) -> (r: Result<(), InodeError>)
        requires
            self.wf(),
        ensures
            r is Err && refused(self.inodes_view(), parent_ino, r->Err_0),
    {
        Err(self.refuse_change(parent_ino))
    }

    /// Nothing can be removed from a manifest.
    pub fn rmdir(&self, parent_ino: InodeNo, _name: &[u8]) -> (r: Result<(), InodeError>)
        requires
            self.wf(),
        ensures
            r is Err && refused(self.inodes_view(), parent_ino, r->Err_0),
    {
        Err(self.refuse_change(parent_ino))
    }

    /// Opens inode `ino` for reading.
    pub fn read(&self, ino: InodeNo) -> (r: Result<ReadHandle, InodeError>)
        requires
            self.wf(),
        ensures
            !exists_ino(self.inodes_view(), ino) ==> (r matches Err(InodeError::InodeDoesNotExist(n))
                && n == ino),
            exists_ino(self.inodes_view(), ino) ==> r is Ok,
    {
        match self.slot_of(ino) {
            None => Err(InodeError::InodeDoesNotExist(ino)),
            Some(_) => Ok(ReadHandle { ino }),
        }
    }

    /// Nothing of a manifest can be opened for writing.
    pub fn write(&self, ino: InodeNo, _allow_overwrite: bool, _is_truncate: bool) -> (r: Result<
        WriteHandle,
        InodeError,
    >)
        requires
            self.wf(),
        ensures
            r is Err && refused(self.inodes_view(), ino, r->Err_0),
    {
        Err(self.refuse_change(ino))
    }

    /// Lists directory `dir_ino`: the handle gives its children in order of
    /// name. The page size is a hint this namespace does not need.
    pub fn readdir(&self, dir_ino: InodeNo, _page_size: usize) -> (r: Result<ReaddirHandle, InodeError>)
        requires
            self.wf(),
        ensures
            !exists_ino(self.inodes_view(), dir_ino) ==> (r matches Err(InodeError::InodeDoesNotExist(n))
                && n == dir_ino),
            exists_ino(self.inodes_view(), dir_ino) && self.inodes_view()[dir_ino - 1].kind
                == InodeKind::File ==> (r matches Err(InodeError::NotADirectory(d)) && d@
                == inode_description(dir_ino, self.inodes_view()[dir_ino - 1].key)),
            exists_ino(self.inodes_view(), dir_ino) && self.inodes_view()[dir_ino - 1].kind
                == InodeKind::Directory ==> r is Ok && r->Ok_0.parent_ino() == dir_ino
                && r->Ok_0.pending() == listing(self.inodes_view(), dir_ino - 1),
    {
        let ghost v = self.inodes_view();
        let t = match self.slot_of(dir_ino) {
            None => {
                return Err(InodeError::InodeDoesNotExist(dir_ino));
            },
            Some(t) => t,
        };
        assert(self.inodes@[t as int]@ == v[t as int]);
        match &self.inodes[t].inner.kind {
            NodeKind::File { .. } => Err(InodeError::NotADirectory(self.inodes[t].description())),
            NodeKind::Directory { children, .. } => {
                let ghost kids = v[t as int].children;
                let mut pending: Vec<Inode> = Vec::new();
                let mut c: usize = children.len();
                while c > 0
                    invariant
                        self.wf(),
                        v == self.inodes_view(),
                        t < v.len(),
                        children@ == kids,
                        kids == v[t as int].children,
                        c <= kids.len(),
                        pending@.map_values(|i: Inode| i@) == listing(v, t as int).take(
                            kids.len() - c,
                        ),
                    decreases c,
                {
                    c = c - 1;
                    let ino = children[c];
                    assert(1 <= v[t as int].children[c as int] <= v.len());
                    let child = self.inodes[(ino - 1) as usize].clone();
                    proof {
                        let l = listing(v, t as int);
                        assert(l.take(kids.len() - c) =~= l.take(kids.len() - c - 1).push(
                            l[kids.len() - c - 1],
                        ));
                        assert(pending@.push(child).map_values(|i: Inode| i@) =~= pending@.map_values(
                            |i: Inode| i@,
                        ).push(child@));
                    }
                    pending.push(child);
                }
                proof {
                    let l = listing(v, t as int);
                    assert(l.take(kids.len() as int) =~= l);
                }
                Ok(ReaddirHandle { parent: dir_ino, pending })
            },
        }
    }

    /// Takes a reference on inode `ino`, as a lookup of it would.
    pub fn remember(&mut self, ino: InodeNo)
        requires
            old(self).wf(),
        ensures
            final(self).wf(),
            final(self).inodes_view() == old(self).inodes_view(),
            final(self).counts() == if exists_ino(old(self).inodes_view(), ino) {
                old(self).counts().update(ino - 1, count_up(old(self).counts()[ino - 1]))
            } else {
                old(self).counts()
            },
    {
        if let Some(t) = self.slot_of(ino) {
            let before = self.lookup_counts[t];
            self.lookup_counts.set(t, before.saturating_add(1));
        }
    }

    /// Drops `n` references on inode `ino`. It never fails, also where the inode
    /// does not exist or holds fewer references: the count stops at zero.
    pub fn forget(&mut self, ino: InodeNo, n: u64) -> (r: Result<(), InodeError>)
        requires
            old(self).wf(),
        ensures
            r is Ok,
            final(self).wf(),
            final(self).inodes_view() == old(self).inodes_view(),
            final(self).counts() == if exists_ino(old(self).inodes_view(), ino) {
                old(self).counts().update(ino - 1, count_down(old(self).counts()[ino - 1], n))
            } else {
                old(self).counts()
            },
    {
        if let Some(t) = self.slot_of(ino) {
            let before = self.lookup_counts[t];
            self.lookup_counts.set(t, before.saturating_sub(n));
        }
        Ok(())
    }

    /// The references callers hold on inode `ino`: none for one that does not exist.
    pub fn lookup_count(&self, ino: InodeNo) -> (r: u64)
        requires
            self.wf(),
        ensures
            r == if exists_ino(self.inodes_view(), ino) {
                self.counts()[ino - 1]
            } else {
                0
            },
    {
        match self.slot_of(ino) {
            None => 0,
            Some(t) => self.lookup_counts[t],
        }
    }
}

/// The error a change to inode `ino` meets in a manifest.
pub open spec fn refused(v: Seq<InodeView>, ino: InodeNo, e: InodeError) -> bool {
    if exists_ino(v, ino) {
        e matches InodeError::InodeNotWritable(d) && d@ == inode_description(ino, v[ino - 1].key)
    } else {
        e matches InodeError::InodeDoesNotExist(n) && n == ino
    }
}

/// The children of slot `t`, as a readdir handle holds them: the first to come last.
pub open spec fn listing(v: Seq<InodeView>, t: int) -> Seq<InodeView> {
    let kids = v[t].children;
    Seq::new(kids.len(), |i: int| v[kids[kids.len() - 1 - i] - 1])
}

/// Checks that `u` is `s3://`, a bucket, `/` and a key.
pub fn check_uri(u: &str) -> (r: bool)
    ensures
        r == uri_ok(u@),
{
    let c = chars_of(u);
    if c.len() < 5 {
        return false;
    }
    let scheme = c[0] == 's' && c[1] == '3' && c[2] == ':' && c[3] == '/' && c[4] == '/';
    if !scheme {
        proof {
            if u@.take(5) == s3_scheme() {
                assert(u@.take(5)[0] == 's' && u@.take(5)[1] == '3' && u@.take(5)[2] == ':');
                assert(u@.take(5)[3] == '/' && u@.take(5)[4] == '/');
            }
        }
        return false;
    }
    assert(u@.take(5) =~= s3_scheme());
    let ghost rest = u@.skip(5);
    proof {
        lemma_split_slash_two(rest);
    }
    let mut i: usize = 5;
    let mut found = false;
    while i < c.len()
        invariant_except_break
            !found,
        invariant
            c@ == u@,
            5 <= i <= c@.len(),
            rest == u@.skip(5),
            forall|k: int| 0 <= k < i - 5 ==> rest[k] != '/',
        ensures
            found ==> rest.contains('/'),
            !found ==> !rest.contains('/'),
        decreases c@.len() - i,
    {
        if c[i] == '/' {
            assert(rest[i - 5] == '/');
            found = true;
            break;
        }
        i = i + 1;
    }
    found
}

impl ManifestNamespace {
    /// Builds the namespace for `uris`, or none where one of them is not
    /// `s3://`, a bucket, `/` and a key.
    pub fn from_uris(uris: Vec<String>) -> (r: Option<ManifestNamespace>)
        ensures
            r is Some <==> forall|i: int| 0 <= i < uris@.len() ==> uri_ok(#[trigger] uris@[i]@),
            r is Some ==> r->0.wf() && r->0.built_from(uris@),
    {
        let mut i: usize = 0;
        while i < uris.len()
            invariant
                i <= uris@.len(),
                forall|j: int| 0 <= j < i ==> uri_ok(#[trigger] uris@[j]@),
            decreases uris@.len() - i,
        {
            if !check_uri(uris[i].as_str()) {
                return None;
            }
            i = i + 1;
        }
        Some(ManifestNamespace::new(uris))
    }
}

/// Makes the string of a URI whose bucket has four characters.
fn giab_uri(lit: &str) -> (r: String)
    requires
        lit@.len() >= 10,
        lit@.take(5) == s3_scheme(),
        lit@[9] == '/',
    ensures
        r@ == lit@,
        uri_ok(r@),
{
    let r = String::from_str(lit);
    proof {
        let rest = r@.skip(5);
        assert(rest[4] == '/');
        lemma_split_slash_two(rest);
    }
    r
}

/// The fixed manifest this program serves, in bucket `giab`.
pub fn create_manifest_namespace() -> (r: ManifestNamespace)
    ensures
        r.wf(),
        exists|uris: Seq<String>|
            #[trigger] r.built_from(uris) && uris.map_values(|u: String| u@) == seq![
                "s3://giab/README.ftp_structure"@,
                "s3://giab/README.s3_structure"@,
                "s3://giab/README_Aspera_download_from_ftp.txt"@,
                "s3://giab/README_giab_URL_replacement2019.txt"@,
            ],
{
    proof {
        reveal_strlit("s3://giab/README.ftp_structure");
        reveal_strlit("s3://giab/README.s3_structure");
        reveal_strlit("s3://giab/README_Aspera_download_from_ftp.txt");
        reveal_strlit("s3://giab/README_giab_URL_replacement2019.txt");
        assert("s3://giab/README.ftp_structure"@.take(5) =~= s3_scheme());
        assert("s3://giab/README.s3_structure"@.take(5) =~= s3_scheme());
        assert("s3://giab/README_Aspera_download_from_ftp.txt"@.take(5) =~= s3_scheme());
        assert("s3://giab/README_giab_URL_replacement2019.txt"@.take(5) =~= s3_scheme());
    }
    let mut uris: Vec<String> = Vec::new();
    uris.push(giab_uri("s3://giab/README.ftp_structure"));
    uris.push(giab_uri("s3://giab/README.s3_structure"));
    uris.push(giab_uri("s3://giab/README_Aspera_download_from_ftp.txt"));
    uris.push(giab_uri("s3://giab/README_giab_URL_replacement2019.txt"));
    let ghost listed = uris@;
    let r = ManifestNamespace::new(uris);
    assert(listed.map_values(|u: String| u@) =~= seq![
        "s3://giab/README.ftp_structure"@,
        "s3://giab/README.s3_structure"@,
        "s3://giab/README_Aspera_download_from_ftp.txt"@,
        "s3://giab/README_giab_URL_replacement2019.txt"@,
    ]);
    assert(r.built_from(listed));
    r
}

/// Two tables that hold the same paths with the same records give the same
/// inodes.
pub proof fn lemma_manifest_view_eq(a: Seq<Entry>, b: Seq<Entry>)
    requires
        sorted(a),
        sorted(b),
        prefix_closed(a),
        entries_wf(a),
        a.len() == b.len(),
        forall|i: int| 0 <= i < a.len() ==> #[trigger] entry_path(a[i]) == entry_path(b[i]) && a[i].origin
            == b[i].origin,
    ensures
        manifest_view(a) == manifest_view(b),
{
    assert forall|i: int| 0 <= i < a.len() implies #[trigger] parent_slot(a, i) == parent_slot(b, i) by {
        let p = entry_path(a[i]);
        assert(entry_path(b[i]) == p);
        assert(a[i].path@.len() >= 1);
        if p.len() >= 2 {
            assert(entry_path(a[i]).len() >= 2);
            assert(has_path(a, p.drop_last()));
            let j = index_of(a, p.drop_last());
            assert(0 <= j < a.len() && entry_path(a[j]) == p.drop_last());
            lemma_index_of(a, j);
            assert(entry_path(b[j]) == entry_path(a[j]));
            lemma_index_of(b, j);
            assert(index_of(b, p.drop_last()) == j);
        }
    }
    assert(parent_seq(a) =~= parent_seq(b));
    assert forall|t: int| 0 <= t < a.len() + 1 implies #[trigger] manifest_node(a, t) == manifest_node(b, t) by {
        assert(child_inos(a, t) == child_inos(b, t));
        if t > 0 {
            assert(entry_path(a[t - 1]) == entry_path(b[t - 1]));
        }
    }
    assert(manifest_view(a) =~= manifest_view(b));
}

/// The tree does not depend on the order of the URIs, nor on repeats among
/// them: URI lists with the same keys give namespaces with the same inodes.
pub proof fn lemma_construction_deterministic(
    a: ManifestNamespace,
    b: ManifestNamespace,
    ua: Seq<String>,
    ub: Seq<String>,
)
    requires
        a.built_from(ua),
        b.built_from(ub),
        uri_keys(ua).to_set() == uri_keys(ub).to_set(),
    ensures
        a.inodes_view() == b.inodes_view(),
{
    let ka = uri_keys(ua);
    let kb = uri_keys(ub);
    let ea = choose|es: Seq<Entry>|
        table_of(es, ka, Seq::empty(), Seq::empty()) && a.inodes_view() == #[trigger] manifest_view(es);
    let eb = choose|es: Seq<Entry>|
        table_of(es, kb, Seq::empty(), Seq::empty()) && b.inodes_view() == #[trigger] manifest_view(es);
    assert forall|p: Seq<Seq<char>>| #[trigger] origin_at(ea, p) == origin_at(eb, p) by {
        assert(origin_at(ea, p) == model_origin(ka, Seq::empty(), Seq::empty(), p));
        assert(origin_at(eb, p) == model_origin(kb, Seq::empty(), Seq::empty(), p));
        lemma_same_keys_same_model(ka, kb, p);
        lemma_same_keys_same_model(kb, ka, p);
    }
    lemma_table_unique(ea, eb);
    lemma_table_prefix_closed(ea, ka, Seq::empty(), Seq::empty());
    lemma_manifest_view_eq(ea, eb);
}

/// What a path gets from remote keys depends on the set of keys alone.
proof fn lemma_same_keys_same_model(ka: Seq<Seq<Seq<char>>>, kb: Seq<Seq<Seq<char>>>, p: Seq<Seq<char>>)
    requires
        ka.to_set() == kb.to_set(),
    ensures
        model_origin(ka, Seq::empty(), Seq::empty(), p).remote_dir ==> model_origin(
            kb,
            Seq::empty(),
            Seq::empty(),
            p,
        ).remote_dir,
        model_origin(ka, Seq::empty(), Seq::empty(), p).remote_file ==> model_origin(
            kb,
            Seq::empty(),
            Seq::empty(),
            p,
        ).remote_file,
{
    if model_origin(ka, Seq::empty(), Seq::empty(), p).remote_dir {
        let i = choose|i: int| 0 <= i < ka.len() && #[trigger] runs_through(ka[i], p);
        assert(ka.to_set().contains(ka[i]));
        assert(kb.contains(ka[i]));
        let j = choose|j: int| 0 <= j < kb.len() && kb[j] == ka[i];
        assert(runs_through(kb[j], p));
    }
    if model_origin(ka, Seq::empty(), Seq::empty(), p).remote_file {
        let i = choose|i: int| 0 <= i < ka.len() && #[trigger] ka[i] == p;
        assert(ka.to_set().contains(ka[i]));
        assert(kb.contains(ka[i]));
        let j = choose|j: int| 0 <= j < kb.len() && kb[j] == ka[i];
        assert(kb[j] == p);
    }
}

/// A directory wins over a file of the same path: wherever a key runs through
/// path `p`, whatever the other keys and their order, the tree holds exactly one
/// inode for `p`, and it is a directory.
pub proof fn lemma_directory_wins(uris: Seq<String>, es: Seq<Entry>, k: int, p: Seq<Seq<char>>)
    requires
        table_of(es, uri_keys(uris), Seq::empty(), Seq::empty()),
        0 <= k < uris.len(),
        runs_through(uri_keys(uris)[k], p),
    ensures
        has_path(es, p),
        forall|i: int| 0 <= i < es.len() && #[trigger] entry_path(es[i]) == p ==> i == index_of(es, p),
        manifest_view(es)[index_of(es, p) + 1].kind == InodeKind::Directory,
{
    assert(model_origin(uri_keys(uris), Seq::empty(), Seq::empty(), p).remote_dir);
    assert(origin_at(es, p).any());
    let j = index_of(es, p);
    lemma_index_of(es, j);
    assert forall|i: int| 0 <= i < es.len() && #[trigger] entry_path(es[i]) == p implies i == index_of(es, p) by {
        lemma_index_of(es, i);
    }
    crate::tree::lemma_origin_at_index(es, j);
}

/// Names that cannot stand in a file system hide what lies below them: no
/// inode of the tree has an empty name, `.`, `..`, or a name holding NUL, on
/// its path.
pub proof fn lemma_invalid_names_hidden(uris: Seq<String>, es: Seq<Entry>, i: int)
    requires
        table_of(es, uri_keys(uris), Seq::empty(), Seq::empty()),
        0 <= i < es.len(),
    ensures
        all_valid(entry_path(es[i])),
{
    let p = entry_path(es[i]);
    crate::tree::lemma_origin_at_index(es, i);
    assert(model_origin(uri_keys(uris), Seq::empty(), Seq::empty(), p).any());
}

/// A sequence backwards.
pub open spec fn backwards(s: Seq<InodeView>) -> Seq<InodeView> {
    Seq::new(s.len(), |i: int| s[s.len() - 1 - i])
}

/// The children of slot `t` in order of name.
pub open spec fn children_in_order(v: Seq<InodeView>, t: int) -> Seq<InodeView> {
    Seq::new(v[t].children.len(), |i: int| v[v[t].children[i] - 1])
}

/// Listing a directory hands out every child exactly once, in order of name,
/// however often an entry is handed back: where `delivered` is what the caller
/// kept and `pending` what the handle holds, `next` and a `readd` of the entry
/// last delivered keep `delivered` followed by `pending` backwards equal to the
/// children, which a fresh handle starts with; once nothing is pending, the
/// caller has had every child.
pub proof fn lemma_readdir_complete(
    v: Seq<InodeView>,
    t: int,
    delivered: Seq<InodeView>,
    pending: Seq<InodeView>,
)
    requires
        0 <= t < v.len(),
        delivered + backwards(pending) == children_in_order(v, t),
    ensures
        backwards(listing(v, t)) == children_in_order(v, t),
        pending.len() > 0 ==> delivered.push(pending.last()) + backwards(pending.drop_last())
            == children_in_order(v, t),
        delivered.len() > 0 ==> delivered.drop_last() + backwards(pending.push(delivered.last()))
            == children_in_order(v, t),
        pending.len() == 0 ==> delivered == children_in_order(v, t),
{
    let order = children_in_order(v, t);
    assert(backwards(listing(v, t)) =~= order);
    if pending.len() > 0 {
        let d2 = delivered.push(pending.last());
        let b2 = backwards(pending.drop_last());
        assert(d2 + b2 =~= delivered + backwards(pending));
    }
    if delivered.len() > 0 {
        let d2 = delivered.drop_last();
        let b2 = backwards(pending.push(delivered.last()));
        assert(d2 + b2 =~= delivered + backwards(pending));
    }
    if pending.len() == 0 {
        assert(delivered + backwards(pending) =~= delivered);
    }
}

/// One call of `next` on a handle holding `pending`, for a caller that has
/// delivered `delivered`: with `keep` the entry is delivered, without it the
/// caller hands it back at once with `readd`.
pub open spec fn readdir_step(
    delivered: Seq<InodeView>,
    pending: Seq<InodeView>,
    keep: bool,
) -> (Seq<InodeView>, Seq<InodeView>) {
    if pending.len() == 0 {
        (delivered, pending)
    } else if keep {
        (delivered.push(pending.last()), pending.drop_last())
    } else {
        (delivered, pending.drop_last().push(pending.last()))
    }
}

/// A run of such calls, one for each flag.
pub open spec fn readdir_run(
    delivered: Seq<InodeView>,
    pending: Seq<InodeView>,
    steps: Seq<bool>,
) -> (Seq<InodeView>, Seq<InodeView>)
    decreases steps.len(),
{
    if steps.len() == 0 {
        (delivered, pending)
    } else {
        let next = readdir_step(delivered, pending, steps[0]);
        readdir_run(next.0, next.1, steps.drop_first())
    }
}

/// How many of the calls deliver their entry.
pub open spec fn kept(steps: Seq<bool>) -> nat
    decreases steps.len(),
{
    if steps.len() == 0 {
        0
    } else {
        (if steps[0] { 1nat } else { 0nat }) + kept(steps.drop_first())
    }
}

proof fn lemma_readdir_run_from(order: Seq<InodeView>, j: int, steps: Seq<bool>)
    requires
        0 <= j <= order.len(),
    ensures
        ({
            let m = if j + kept(steps) < order.len() {
                j + kept(steps)
            } else {
                order.len() as int
            };
            readdir_run(order.take(j), backwards(order.skip(j)), steps) == (
                order.take(m),
                backwards(order.skip(m)),
            )
        }),
    decreases steps.len(),
{
    if steps.len() > 0 {
        let p = backwards(order.skip(j));
        if j < order.len() {
            assert(p.last() == order[j]);
            assert(order.take(j).push(order[j]) =~= order.take(j + 1));
            assert(p.drop_last() =~= backwards(order.skip(j + 1)));
            assert(p.drop_last().push(p.last()) =~= p);
        }
        if steps[0] && j < order.len() {
            lemma_readdir_run_from(order, j + 1, steps.drop_first());
        } else {
            lemma_readdir_run_from(order, j, steps.drop_first());
        }
    } else {
        if j == order.len() {
            assert(order.take(j) =~= order);
        }
    }
}

/// Listing a directory with any mix of delivered and handed-back entries: a
/// caller that has delivered `k` entries in all has had the first `k` children
/// in order of name, each once, and the handle holds the rest; once `k`
/// reaches the number of children, the caller has had them all and `next`
/// gives none.
pub proof fn lemma_readdir_run(v: Seq<InodeView>, t: int, steps: Seq<bool>)
    requires
        0 <= t < v.len(),
    ensures
        ({
            let order = children_in_order(v, t);
            let m = if kept(steps) < order.len() {
                kept(steps) as int
            } else {
                order.len() as int
            };
            readdir_run(Seq::empty(), listing(v, t), steps) == (
                order.take(m),
                backwards(order.skip(m)),
            )
        }),
        kept(steps) >= v[t].children.len() ==> readdir_run(Seq::empty(), listing(v, t), steps) == (
            children_in_order(v, t),
            Seq::<InodeView>::empty(),
        ),
{
    let order = children_in_order(v, t);
    assert(order.take(0) =~= Seq::<InodeView>::empty());
    assert(backwards(order.skip(0)) =~= listing(v, t));
    lemma_readdir_run_from(order, 0, steps);
    if kept(steps) >= order.len() {
        assert(order.take(order.len() as int) =~= order);
        assert(backwards(order.skip(order.len() as int)) =~= Seq::<InodeView>::empty());
    }
}

} // verus!
