//! The expected state of a file system, derived afresh from its inputs.
//!
//! A reference holds the keys of a bucket and the files and directories made
//! locally. Whenever one of them changes, the tree is built again from all
//! three, so there is one definition of what the tree should be, and the tree
//! never depends on the order in which things happened.
use vstd::prelude::*;
use crate::names::{Name, names_wf, all_valid, join_names, join_slash, lemma_split_slash_nonempty, names_view, split_names, split_slash};
use crate::tree::{
    Entry, Origin, build_entries, entry_path, find_entry,
    lemma_origin_at_index, lemma_table_unique, model_origin, origin_at, paths_view, paths_wf, table_of,
};

verus! {

broadcast use vstd::string::group_string_axioms;

/// `p` is an absolute path: `/` and names, each of which may stand in a tree.
pub open spec fn local_path_ok(p: Seq<char>) -> bool {
    &&& p.len() >= 2
    &&& p[0] == '/'
    &&& all_valid(split_slash(p.skip(1)))
}

/// The names of an absolute path.
pub open spec fn local_names(p: Seq<char>) -> Seq<Seq<char>> {
    split_slash(p.skip(1))
}

pub open spec fn key_paths(keys: Seq<Seq<char>>) -> Seq<Seq<Seq<char>>> {
    keys.map_values(|k: Seq<char>| split_slash(k))
}

pub open spec fn local_paths(ps: Seq<Seq<char>>) -> Seq<Seq<Seq<char>>> {
    ps.map_values(|p: Seq<char>| local_names(p))
}

/// Where `x` first stands in `s`.
pub open spec fn first_index(s: Seq<Seq<char>>, x: Seq<char>) -> int {
    choose|i: int| 0 <= i < s.len() && s[i] == x && forall|j: int| 0 <= j < i ==> s[j] != x
}

/// `s` without its first `x`.
pub open spec fn without_first(s: Seq<Seq<char>>, x: Seq<char>) -> Seq<Seq<char>> {
    s.remove(first_index(s, x))
}

/// What the reference holds at a path.
#[derive(Clone, Copy, Debug, PartialEq, Eq, Structural)]
pub enum RefNode {
    Directory { is_local: bool },
    File { is_local: bool },
}

/// The node that record `o` makes.
pub open spec fn node_of(o: Origin) -> RefNode {
    if o.is_dir() {
        RefNode::Directory { is_local: o.is_local() }
    } else {
        RefNode::File { is_local: o.is_local() }
    }
}

/// The absolute paths of the directories among the entries, in order.
pub open spec fn dir_texts(es: Seq<Entry>) -> Seq<Seq<char>>
    decreases es.len(),
{
    if es.len() == 0 {
        Seq::<Seq<char>>::empty()
    } else {
        let pre = dir_texts(es.drop_last());
        if es.last().origin.is_dir() {
            pre.push(seq!['/'] + join_slash(entry_path(es.last())))
        } else {
            pre
        }
    }
}

/// What the inputs give at `p`, a path of names: the root is a directory.
pub open spec fn model_node(
    remote: Seq<Seq<Seq<char>>>,
    files: Seq<Seq<Seq<char>>>,
    dirs: Seq<Seq<Seq<char>>>,
    p: Seq<Seq<char>>,
) -> Option<RefNode> {
    if p.len() == 0 {
        Some(RefNode::Directory { is_local: false })
    } else if model_origin(remote, files, dirs, p).any() {
        Some(node_of(model_origin(remote, files, dirs, p)))
    } else {
        None
    }
}

/// The keys of a bucket, local files and local directories, and the tree they give.
#[derive(Debug)]
pub struct Reference {
    remote_keys: Vec<String>,
    local_files: Vec<String>,
    local_directories: Vec<String>,
    materialized: Vec<Entry>,
}

impl Reference {
    pub closed spec fn remote(&self) -> Seq<Seq<char>> {
        self.remote_keys@.map_values(|s: String| s@)
    }

    pub closed spec fn files(&self) -> Seq<Seq<char>> {
        self.local_files@.map_values(|s: String| s@)
    }

    pub closed spec fn dirs(&self) -> Seq<Seq<char>> {
        self.local_directories@.map_values(|s: String| s@)
    }

    /// The paths of the tree, in order, with what gave each.
    pub closed spec fn tree(&self) -> Seq<(Seq<Seq<char>>, Origin)> {
        self.materialized@.map_values(|e: Entry| (entry_path(e), e.origin))
    }

    /// The absolute paths of the tree's directories, the root first, then in order.
    pub closed spec fn directory_paths(&self) -> Seq<Seq<char>> {
        seq![seq!['/']] + dir_texts(self.materialized@)
    }

    /// The local paths are absolute, and the tree is the one the inputs give.
    pub closed spec fn wf(&self) -> bool {
        &&& forall|i: int| 0 <= i < self.files().len() ==> local_path_ok(#[trigger] self.files()[i])
        &&& forall|i: int| 0 <= i < self.dirs().len() ==> local_path_ok(#[trigger] self.dirs()[i])
        &&& table_of(
            self.materialized@,
            key_paths(self.remote()),
            local_paths(self.files()),
            local_paths(self.dirs()),
        )
    }

    /// Builds the tree again from the inputs.
    fn rematerialize(&mut self)
        requires
            forall|i: int| 0 <= i < old(self).files().len() ==> local_path_ok(#[trigger] old(self).files()[i]),
            forall|i: int| 0 <= i < old(self).dirs().len() ==> local_path_ok(#[trigger] old(self).dirs()[i]),
        ensures
            final(self).wf(),
            final(self).remote() == old(self).remote(),
            final(self).files() == old(self).files(),
            final(self).dirs() == old(self).dirs(),
    {
        assert forall|i: int| 0 <= i < self.local_files@.len() implies local_path_ok(#[trigger] self.local_files@[i]@) by {
            assert(self.files()[i] == self.local_files@[i]@);
        }
        assert forall|i: int| 0 <= i < self.local_directories@.len() implies local_path_ok(#[trigger] self.local_directories@[i]@) by {
            assert(self.dirs()[i] == self.local_directories@[i]@);
        }
        let remote = key_names(&self.remote_keys);
        let files = local_name_lists(&self.local_files);
        let dirs = local_name_lists(&self.local_directories);
        self.materialized = build_entries(&remote, &files, &dirs);
    }

    /// A reference with the keys of a bucket and nothing local.
    pub fn new(remote_keys: Vec<String>) -> (r: Reference)
        ensures
            r.wf(),
            r.remote() == remote_keys@.map_values(|s: String| s@),
            r.files().len() == 0,
            r.dirs().len() == 0,
    {
        let mut r = Reference {
            remote_keys,
            local_files: Vec::new(),
            local_directories: Vec::new(),
            materialized: Vec::new(),
        };
        assert(r.files() =~= Seq::<Seq<char>>::empty());
        assert(r.dirs() =~= Seq::<Seq<char>>::empty());
        r.rematerialize();
        r
    }

    /// Adds a local file at absolute path `path`, not yet a local file.
    pub fn add_local_file(&mut self, path: String)
        requires
            old(self).wf(),
            local_path_ok(path@),
            !old(self).files().contains(path@),
        ensures
            final(self).wf(),
            final(self).remote() == old(self).remote(),
            final(self).files() == old(self).files().push(path@),
            final(self).dirs() == old(self).dirs(),
    {
        let ghost p = path@;
        self.local_files.push(path);
        assert(self.files() =~= old(self).files().push(p));
        self.rematerialize();
    }

    /// Adds a local directory at absolute path `path`, not yet a local directory.
    pub fn add_local_directory(&mut self, path: String)
        requires
            old(self).wf(),
            local_path_ok(path@),
            !old(self).dirs().contains(path@),
        ensures
            final(self).wf(),
            final(self).remote() == old(self).remote(),
            final(self).files() == old(self).files(),
            final(self).dirs() == old(self).dirs().push(path@),
    {
        let ghost p = path@;
        self.local_directories.push(path);
        assert(self.dirs() =~= old(self).dirs().push(p));
        self.rematerialize();
    }

    /// Removes the local file at `path`, which must be one.
    pub fn remove_local_file(&mut self, path: &str)
        requires
            old(self).wf(),
            old(self).files().contains(path@),
        ensures
            final(self).wf(),
            final(self).remote() == old(self).remote(),
            final(self).files() == without_first(old(self).files(), path@),
            final(self).dirs() == old(self).dirs(),
    {
        let idx = position(&self.local_files, path);
        self.local_files.remove(idx);
        assert(self.files() =~= without_first(old(self).files(), path@));
        self.rematerialize();
    }

    /// Removes the local directory at `path`, which must be one.
    pub fn remove_local_directory(&mut self, path: &str)
        requires
            old(self).wf(),
            old(self).dirs().contains(path@),
        ensures
            final(self).wf(),
            final(self).remote() == old(self).remote(),
            final(self).files() == old(self).files(),
            final(self).dirs() == without_first(old(self).dirs(), path@),
    {
        let idx = position(&self.local_directories, path);
        self.local_directories.remove(idx);
        assert(self.dirs() =~= without_first(old(self).dirs(), path@));
        self.rematerialize();
    }

    /// Adds a key to the bucket.
    pub fn add_remote_key(&mut self, key: String)
        requires
            old(self).wf(),
        ensures
            final(self).wf(),
            final(self).remote() == old(self).remote().push(key@),
            final(self).files() == old(self).files(),
            final(self).dirs() == old(self).dirs(),
    {
        let ghost k = key@;
        self.remote_keys.push(key);
        assert(self.remote() =~= old(self).remote().push(k));
        self.rematerialize();
    }

    /// Removes a key, which must be in the bucket.
    pub fn remove_remote_key(&mut self, key: &str)
        requires
            old(self).wf(),
            old(self).remote().contains(key@),
        ensures
            final(self).wf(),
            final(self).remote() == without_first(old(self).remote(), key@),
            final(self).files() == old(self).files(),
            final(self).dirs() == old(self).dirs(),
    {
        let idx = position(&self.remote_keys, key);
        self.remote_keys.remove(idx);
        assert(self.remote() =~= without_first(old(self).remote(), key@));
        self.rematerialize();
    }

    /// What the tree holds at absolute path `path`, if anything.
    pub fn lookup(&self, path: &str) -> (r: Option<RefNode>)
        requires
            self.wf(),
            path@.len() >= 1,
            path@[0] == '/',
        ensures
            path@.len() == 1 ==> r == Some(RefNode::Directory { is_local: false }),
            path@.len() > 1 ==> r == model_node(
                key_paths(self.remote()),
                local_paths(self.files()),
                local_paths(self.dirs()),
                local_names(path@),
            ),
    {
        if path.unicode_len() == 1 {
            return Some(RefNode::Directory { is_local: false });
        }
        let names = split_names(path, 1);
        proof {
            lemma_split_slash_nonempty(path@.skip(1));
        }
        let ghost p = local_names(path@);
        let ghost m = model_origin(
            key_paths(self.remote()),
            local_paths(self.files()),
            local_paths(self.dirs()),
            p,
        );
        assert(origin_at(self.materialized@, p) == m);
        match find_entry(&self.materialized, &names) {
            None => None,
            Some(j) => {
                let o = self.materialized[j].origin;
                proof {
                    lemma_origin_at_index(self.materialized@, j as int);
                }
                let is_dir = o.remote_dir || o.local_dir || o.local_ancestor;
                if is_dir {
                    Some(RefNode::Directory { is_local: o.local_dir || (o.local_ancestor && !o.remote_dir) })
                } else {
                    Some(RefNode::File { is_local: o.local_file })
                }
            },
        }
    }

    /// Every directory of the tree as an absolute path, `/` first, then in order.
    pub fn directories(&self) -> (r: Vec<String>)
        requires
            self.wf(),
        ensures
            r@.map_values(|s: String| s@) == self.directory_paths(),
    {
        let mut out: Vec<String> = Vec::new();
        proof {
            reveal_strlit("/");
        }
        let root = String::from_str("/");
        assert(root@ =~= seq!['/']);
        out.push(root);
        assert(out@.map_values(|s: String| s@)[0] == seq!['/']);
        assert(self.materialized@.take(0) =~= Seq::<Entry>::empty());
        assert(dir_texts(Seq::<Entry>::empty()) == Seq::<Seq<char>>::empty());
        assert(out@.map_values(|s: String| s@) =~= seq![seq!['/']] + dir_texts(self.materialized@.take(0)));
        let mut i: usize = 0;
        while i < self.materialized.len()
            invariant
                self.wf(),
                out@.map_values(|s: String| s@) == seq![seq!['/']] + dir_texts(self.materialized@.take(i as int)),
                i <= self.materialized@.len(),
            decreases self.materialized@.len() - i,
        {
            let e = &self.materialized[i];
            assert(names_wf(self.materialized@[i as int].path@));
            let ghost before = out@.map_values(|s: String| s@);
            assert(self.materialized@.take(i + 1).drop_last() =~= self.materialized@.take(i as int));
            if e.origin.remote_dir || e.origin.local_dir || e.origin.local_ancestor {
                proof {
                    reveal_strlit("/");
                }
                let mut p = String::from_str("/");
                assert(p@ =~= seq!['/']);
                let joined = join_names(&e.path);
                p.append(joined.as_str());
                assert(p@ == seq!['/'] + join_slash(entry_path(self.materialized@[i as int])));
                out.push(p);
                assert(out@.map_values(|s: String| s@) =~= before.push(seq!['/'] + join_slash(entry_path(self.materialized@[i as int]))));
            }
            i = i + 1;
        }
        assert(self.materialized@.take(self.materialized@.len() as int) =~= self.materialized@);
        out
    }
}

/// The first place of `x` in `v`.
fn position(v: &Vec<String>, x: &str) -> (r: usize)
    requires
        v@.map_values(|s: String| s@).contains(x@),
    ensures
        r == first_index(v@.map_values(|s: String| s@), x@),
        r < v@.len(),
{
    let ghost vs = v@.map_values(|s: String| s@);
    let target = String::from_str(x);
    let mut i: usize = 0;
    while i < v.len()
        invariant
            vs == v@.map_values(|s: String| s@),
            vs.contains(x@),
            target@ == x@,
            i <= v@.len(),
            forall|k: int| 0 <= k < i ==> vs[k] != x@,
        decreases v@.len() - i,
    {
        if v[i] == target {
            proof {
                assert(vs[i as int] == x@);
                let c = first_index(vs, x@);
                assert(0 <= c < vs.len() && vs[c] == x@ && forall|j: int| 0 <= j < c ==> vs[j] != x@);
                if c < i {
                    assert(vs[c] != x@);
                }
                if c > i {
                    assert(vs[i as int] != x@);
                }
            }
            return i;
        }
        i = i + 1;
    }
    assert(false);
    0
}

/// The names of each key.
fn key_names(keys: &Vec<String>) -> (r: Vec<Vec<Name>>)
    ensures
        paths_wf(r@),
        paths_view(r@) == key_paths(keys@.map_values(|s: String| s@)),
{
    let ghost ks = keys@.map_values(|s: String| s@);
    let mut out: Vec<Vec<Name>> = Vec::new();
    let mut i: usize = 0;
    while i < keys.len()
        invariant
            ks == keys@.map_values(|s: String| s@),
            i <= keys@.len(),
            paths_wf(out@),
            paths_view(out@) == key_paths(ks).take(i as int),
        decreases keys@.len() - i,
    {
        let names = split_names(keys[i].as_str(), 0);
        proof {
            lemma_split_slash_nonempty(keys@[i as int]@);
            assert(keys@[i as int]@.skip(0) =~= keys@[i as int]@);
            assert(ks[i as int] == keys@[i as int]@);
            assert(paths_view(out@.push(names)) =~= paths_view(out@).push(names_view(names@)));
            assert(key_paths(ks).take(i + 1) =~= key_paths(ks).take(i as int).push(split_slash(ks[i as int])));
        }
        out.push(names);
        i = i + 1;
    }
    assert(key_paths(ks).take(keys@.len() as int) =~= key_paths(ks));
    out
}

/// The names of each absolute path.
fn local_name_lists(paths: &Vec<String>) -> (r: Vec<Vec<Name>>)
    requires
        forall|i: int| 0 <= i < paths@.len() ==> local_path_ok(#[trigger] paths@[i]@),
    ensures
        paths_wf(r@),
        paths_view(r@) == local_paths(paths@.map_values(|s: String| s@)),
{
    let ghost ps = paths@.map_values(|s: String| s@);
    let mut out: Vec<Vec<Name>> = Vec::new();
    let mut i: usize = 0;
    while i < paths.len()
        invariant
            ps == paths@.map_values(|s: String| s@),
            forall|j: int| 0 <= j < paths@.len() ==> local_path_ok(#[trigger] paths@[j]@),
            i <= paths@.len(),
            paths_wf(out@),
            paths_view(out@) == local_paths(ps).take(i as int),
        decreases paths@.len() - i,
    {
        assert(local_path_ok(paths@[i as int]@));
        let names = split_names(paths[i].as_str(), 1);
        proof {
            lemma_split_slash_nonempty(paths@[i as int]@.skip(1));
            assert(ps[i as int] == paths@[i as int]@);
            assert(paths_view(out@.push(names)) =~= paths_view(out@).push(names_view(names@)));
            assert(local_paths(ps).take(i + 1) =~= local_paths(ps).take(i as int).push(local_names(ps[i as int])));
        }
        out.push(names);
        i = i + 1;
    }
    assert(local_paths(ps).take(paths@.len() as int) =~= local_paths(ps));
    out
}

/// References with the same inputs hold the same tree.
pub proof fn lemma_same_inputs_same_tree(a: Reference, b: Reference)
    requires
        a.wf(),
        b.wf(),
        a.remote() == b.remote(),
        a.files() == b.files(),
        a.dirs() == b.dirs(),
    ensures
        a.tree() == b.tree(),
{
    lemma_table_unique(a.materialized@, b.materialized@);
    assert(a.tree() =~= b.tree());
}

/// Adding a local file and removing it again gives back the tree exactly as
/// it was: `b` is what `a` becomes after `add_local_file(p)` and then
/// `remove_local_file(p)`.
pub proof fn lemma_local_file_round_trip(a: Reference, b: Reference, p: Seq<char>)
    requires
        a.wf(),
        b.wf(),
        !a.files().contains(p),
        b.remote() == a.remote(),
        b.dirs() == a.dirs(),
        b.files() == without_first(a.files().push(p), p),
    ensures
        b.tree() == a.tree(),
{
    let s = a.files().push(p);
    let n = a.files().len() as int;
    assert(s[n] == p);
    assert forall|j: int| 0 <= j < n implies s[j] != p by {
        assert(s[j] == a.files()[j]);
    }
    let i = first_index(s, p);
    assert(0 <= i < s.len() && s[i] == p && forall|j: int| 0 <= j < i ==> s[j] != p);
    if i < n {
        assert(a.files()[i] == p);
    }
    assert(i == n);
    assert(without_first(s, p) =~= a.files());
    lemma_same_inputs_same_tree(a, b);
}

} // verus!
