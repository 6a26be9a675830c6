//! The mapping from keys to a tree.
//!
//! Remote keys, local files and local directories each add paths to a sorted
//! table of entries. Every entry records which of them gave its path; whether
//! the path is a directory or a file, and whether it is local, follows from that
//! record alone, so the table does not depend on the order of the inputs.
use vstd::prelude::*;
use crate::names::{
    Name, Order, all_valid, compare_chars, is_valid_name, lemma_path_lt_asymmetric,
    lemma_path_lt_irreflexive, lemma_path_lt_transitive, names_view, names_wf, path_lt, valid_name,
};

verus! {

/// Which inputs gave a path.
#[derive(Clone, Copy, Debug, PartialEq, Eq, Structural)]
pub struct Origin {
    /// A remote key runs through it.
    pub remote_dir: bool,
    /// A remote key ends at it.
    pub remote_file: bool,
    /// It was made as a local directory.
    pub local_dir: bool,
    /// A local file or directory lies below it.
    pub local_ancestor: bool,
    /// It was made as a local file.
    pub local_file: bool,
}

impl Origin {
    pub open spec fn none() -> Origin {
        Origin {
            remote_dir: false,
            remote_file: false,
            local_dir: false,
            local_ancestor: false,
            local_file: false,
        }
    }

    pub open spec fn any(self) -> bool {
        self.remote_dir || self.remote_file || self.local_dir || self.local_ancestor
            || self.local_file
    }

    pub open spec fn join(self, o: Origin) -> Origin {
        Origin {
            remote_dir: self.remote_dir || o.remote_dir,
            remote_file: self.remote_file || o.remote_file,
            local_dir: self.local_dir || o.local_dir,
            local_ancestor: self.local_ancestor || o.local_ancestor,
            local_file: self.local_file || o.local_file,
        }
    }

    /// A directory wins over a file at the same path.
    pub open spec fn is_dir(self) -> bool {
        self.remote_dir || self.local_dir || self.local_ancestor
    }

    /// A directory is local when it was made locally, or when only local paths
    /// run through it; a file is local when it was made locally.
    pub open spec fn is_local(self) -> bool {
        if self.is_dir() {
            self.local_dir || (self.local_ancestor && !self.remote_dir)
        } else {
            self.local_file
        }
    }

    pub fn merge(&self, o: &Origin) -> (r: Origin)
        ensures
            r == self.join(*o),
    {
        Origin {
            remote_dir: self.remote_dir || o.remote_dir,
            remote_file: self.remote_file || o.remote_file,
            local_dir: self.local_dir || o.local_dir,
            local_ancestor: self.local_ancestor || o.local_ancestor,
            local_file: self.local_file || o.local_file,
        }
    }
}

/// One path of the tree, other than the root, and where it came from.
#[derive(Debug)]
pub struct Entry {
    pub path: Vec<Name>,
    pub origin: Origin,
}

pub open spec fn entry_path(e: Entry) -> Seq<Seq<char>> {
    names_view(e.path@)
}

/// The entries are in strictly increasing order of path.
pub open spec fn sorted(es: Seq<Entry>) -> bool {
    forall|i: int, j: int|
        0 <= i < j < es.len() ==> #[trigger] path_lt(entry_path(es[i]), entry_path(es[j]))
}

/// Every entry has well-formed names, is not the root, and came from some input.
pub open spec fn entries_wf(es: Seq<Entry>) -> bool {
    forall|i: int|
        0 <= i < es.len() ==> {
            &&& names_wf(#[trigger] es[i].path@)
            &&& es[i].origin.any()
            &&& es[i].path@.len() >= 1
        }
}

pub open spec fn names_wf_at(es: Seq<Entry>, i: int) -> bool {
    names_wf(es[i].path@) && es[i].path@.len() >= 1
}

pub open spec fn has_path(es: Seq<Entry>, p: Seq<Seq<char>>) -> bool {
    exists|i: int| 0 <= i < es.len() && entry_path(es[i]) == p
}

/// What the table records of a path: nothing where it holds no entry for it.
pub open spec fn origin_at(es: Seq<Entry>, p: Seq<Seq<char>>) -> Origin {
    if has_path(es, p) {
        es[choose|i: int| 0 <= i < es.len() && entry_path(es[i]) == p].origin
    } else {
        Origin::none()
    }
}

pub proof fn lemma_origin_at_index(es: Seq<Entry>, i: int)
    requires
        sorted(es),
        0 <= i < es.len(),
    ensures
        has_path(es, entry_path(es[i])),
        origin_at(es, entry_path(es[i])) == es[i].origin,
{
    let p = entry_path(es[i]);
    assert(has_path(es, p));
    let j = choose|j: int| 0 <= j < es.len() && entry_path(es[j]) == p;
    if j < i {
        assert(path_lt(entry_path(es[j]), entry_path(es[i])));
        lemma_path_lt_irreflexive(p);
    } else if j > i {
        assert(path_lt(entry_path(es[i]), entry_path(es[j])));
        lemma_path_lt_irreflexive(p);
    }
}

/// Compares two paths name by name.
pub fn compare_paths(a: &Vec<Name>, b: &Vec<Name>) -> (r: Order)
    ensures
        (r == Order::Less) == path_lt(names_view(a@), names_view(b@)),
        (r == Order::Equal) == (names_view(a@) == names_view(b@)),
        (r == Order::Greater) == path_lt(names_view(b@), names_view(a@)),
{
    let ghost va = names_view(a@);
    let ghost vb = names_view(b@);
    let mut i: usize = 0;
    assert(va.skip(0) =~= va);
    assert(vb.skip(0) =~= vb);
    loop
        invariant
            va == names_view(a@),
            vb == names_view(b@),
            i <= a.len(),
            i <= b.len(),
            path_lt(va, vb) == path_lt(va.skip(i as int), vb.skip(i as int)),
            path_lt(vb, va) == path_lt(vb.skip(i as int), va.skip(i as int)),
            (va == vb) == (va.skip(i as int) == vb.skip(i as int)),
        decreases a.len() - i,
    {
        let ghost sa = va.skip(i as int);
        let ghost sb = vb.skip(i as int);
        if i == a.len() && i == b.len() {
            assert(sa =~= sb);
            proof {
                lemma_path_lt_irreflexive(sa);
            }
            return Order::Equal;
        } else if i == a.len() {
            return Order::Less;
        } else if i == b.len() {
            return Order::Greater;
        }
        assert(sa[0] == a@[i as int]@);
        assert(sb[0] == b@[i as int]@);
        match compare_chars(&a[i].chars, &b[i].chars) {
            Order::Less => {
                return Order::Less;
            },
            Order::Greater => {
                return Order::Greater;
            },
            Order::Equal => {
                proof {
                    assert(sa.drop_first() =~= va.skip(i + 1));
                    assert(sb.drop_first() =~= vb.skip(i + 1));
                    assert(sa =~= seq![sa[0]] + sa.drop_first());
                    assert(sb =~= seq![sb[0]] + sb.drop_first());
                }
                i = i + 1;
            },
        }
    }
}

/// Records that `o` gave `path`: the entry for it is made, or its record widened.
pub fn insert_entry(es: &mut Vec<Entry>, path: Vec<Name>, o: Origin)
    requires
        sorted(old(es)@),
        entries_wf(old(es)@),
        names_wf(path@),
        path@.len() >= 1,
        o.any(),
    ensures
        sorted(final(es)@),
        entries_wf(final(es)@),
        origin_at(final(es)@, names_view(path@)) == origin_at(old(es)@, names_view(path@)).join(o),
        forall|p: Seq<Seq<char>>|
            p != names_view(path@) ==> #[trigger] origin_at(final(es)@, p) == origin_at(old(es)@, p),
{
    let ghost old_es = es@;
    let ghost np = names_view(path@);
    let mut i: usize = 0;
    let mut found = false;
    loop
        invariant_except_break
            !found,
        invariant
            es@ == old_es,
            sorted(old_es),
            entries_wf(old_es),
            np == names_view(path@),
            i <= es.len(),
            forall|k: int| 0 <= k < i ==> path_lt(#[trigger] entry_path(old_es[k]), np),
        ensures
            es@ == old_es,
            i <= es.len(),
            forall|k: int| 0 <= k < i ==> path_lt(#[trigger] entry_path(old_es[k]), np),
            found ==> i < es.len() && entry_path(old_es[i as int]) == np,
            !found ==> (i < es.len() ==> path_lt(np, entry_path(old_es[i as int]))),
        decreases es.len() - i,
    {
        if i == es.len() {
            break;
        }
        match compare_paths(&es[i].path, &path) {
            Order::Less => {
                i = i + 1;
            },
            Order::Equal => {
                found = true;
                break;
            },
            Order::Greater => {
                break;
            },
        }
    }
    if found {
        let merged = es[i].origin.merge(&o);
        let mut e = es.remove(i);
        e.origin = merged;
        es.insert(i, e);
        proof {
            assert(es@ =~= old_es.update(i as int, es@[i as int]));
            assert(sorted(es@)) by {
                assert forall|a: int, b: int| 0 <= a < b < es@.len() implies #[trigger] path_lt(
                    entry_path(es@[a]),
                    entry_path(es@[b]),
                ) by {
                    assert(path_lt(entry_path(old_es[a]), entry_path(old_es[b])));
                }
            }
            assert(entries_wf(es@)) by {
                assert forall|k: int| 0 <= k < es@.len() implies {
                    &&& names_wf(#[trigger] es@[k].path@)
                    &&& es@[k].origin.any()
                    &&& es@[k].path@.len() >= 1
                } by {
                    if k != i {
                        assert(es@[k] == old_es[k]);
                    }
                }
            }
            lemma_origin_at_index(old_es, i as int);
            lemma_origin_at_index(es@, i as int);
            assert forall|p: Seq<Seq<char>>| p != np implies #[trigger] origin_at(es@, p) == origin_at(old_es, p) by {
                if has_path(old_es, p) {
                    let k = choose|k: int| 0 <= k < old_es.len() && entry_path(old_es[k]) == p;
                    lemma_origin_at_index(old_es, k);
                    lemma_origin_at_index(es@, k);
                } else if has_path(es@, p) {
                    let k = choose|k: int| 0 <= k < es@.len() && entry_path(es@[k]) == p;
                    assert(entry_path(old_es[k]) == p);
                }
            }
        }
        return;
    }
    let e = Entry { path, origin: o };
    es.insert(i, e);
    proof {
        let new_es = es@;
        assert(new_es =~= old_es.insert(i as int, e));
        assert forall|k: int| i <= k < old_es.len() implies path_lt(np, #[trigger] entry_path(old_es[k])) by {
            assert(path_lt(np, entry_path(old_es[i as int])));
            if k > i {
                assert(path_lt(entry_path(old_es[i as int]), entry_path(old_es[k])));
                lemma_path_lt_transitive(np, entry_path(old_es[i as int]), entry_path(old_es[k]));
            }
        }
        assert(!has_path(old_es, np)) by {
            if has_path(old_es, np) {
                let k = choose|k: int| 0 <= k < old_es.len() && entry_path(old_es[k]) == np;
                lemma_path_lt_irreflexive(np);
                if k < i {
                    assert(path_lt(entry_path(old_es[k]), np));
                } else {
                    assert(path_lt(np, entry_path(old_es[k])));
                }
            }
        }
        assert(sorted(new_es)) by {
            assert forall|a: int, b: int| 0 <= a < b < new_es.len() implies #[trigger] path_lt(
                entry_path(new_es[a]),
                entry_path(new_es[b]),
            ) by {
                if b < i {
                    assert(path_lt(entry_path(old_es[a]), entry_path(old_es[b])));
                } else if b == i {
                    assert(path_lt(entry_path(old_es[a]), np));
                } else if a < i {
                    assert(path_lt(entry_path(old_es[a]), np));
                    assert(path_lt(np, entry_path(old_es[b - 1])));
                    lemma_path_lt_transitive(entry_path(old_es[a]), np, entry_path(old_es[b - 1]));
                } else if a == i {
                    assert(path_lt(np, entry_path(old_es[b - 1])));
                } else {
                    assert(path_lt(entry_path(old_es[a - 1]), entry_path(old_es[b - 1])));
                }
            }
        }
        assert(entries_wf(new_es)) by {
            assert forall|k: int| 0 <= k < new_es.len() implies {
                &&& names_wf(#[trigger] new_es[k].path@)
                &&& new_es[k].origin.any()
                &&& new_es[k].path@.len() >= 1
            } by {
                if k < i {
                    assert(new_es[k] == old_es[k]);
                } else if k > i {
                    assert(new_es[k] == old_es[k - 1]);
                }
            }
        }
        lemma_origin_at_index(new_es, i as int);
        assert(Origin::none().join(o) == o);
        assert forall|p: Seq<Seq<char>>| p != np implies #[trigger] origin_at(new_es, p) == origin_at(old_es, p) by {
            {
                if has_path(old_es, p) {
                    let k = choose|k: int| 0 <= k < old_es.len() && entry_path(old_es[k]) == p;
                    lemma_origin_at_index(old_es, k);
                    if k < i {
                        assert(new_es[k] == old_es[k]);
                        lemma_origin_at_index(new_es, k);
                    } else {
                        assert(new_es[k + 1] == old_es[k]);
                        lemma_origin_at_index(new_es, k + 1);
                    }
                } else if has_path(new_es, p) {
                    let k = choose|k: int| 0 <= k < new_es.len() && entry_path(new_es[k]) == p;
                    if k < i {
                        assert(new_es[k] == old_es[k]);
                    } else if k > i {
                        assert(new_es[k] == old_es[k - 1]);
                    }
                }
            }
        }
    }
}


/// `p` is a directory that key `k` runs through: a proper, non-empty prefix of
/// it made of valid names.
pub open spec fn runs_through(k: Seq<Seq<char>>, p: Seq<Seq<char>>) -> bool {
    1 <= p.len() < k.len() && p == k.take(p.len() as int) && all_valid(p)
}

/// `p` is a proper, non-empty prefix of `q`.
pub open spec fn is_ancestor(p: Seq<Seq<char>>, q: Seq<Seq<char>>) -> bool {
    1 <= p.len() < q.len() && p == q.take(p.len() as int)
}

/// What remote key `k` gives path `p`.
pub open spec fn key_origin(k: Seq<Seq<char>>, p: Seq<Seq<char>>) -> Origin {
    Origin {
        remote_dir: runs_through(k, p),
        remote_file: p == k && all_valid(k),
        local_dir: false,
        local_ancestor: false,
        local_file: false,
    }
}

/// What a local file or directory at `q` gives path `p`.
pub open spec fn local_origin(q: Seq<Seq<char>>, is_dir: bool, p: Seq<Seq<char>>) -> Origin {
    Origin {
        remote_dir: false,
        remote_file: false,
        local_dir: is_dir && p == q,
        local_ancestor: is_ancestor(p, q),
        local_file: !is_dir && p == q,
    }
}

/// What the inputs together give path `p`.
pub open spec fn model_origin(
    remote: Seq<Seq<Seq<char>>>,
    files: Seq<Seq<Seq<char>>>,
    dirs: Seq<Seq<Seq<char>>>,
    p: Seq<Seq<char>>,
) -> Origin {
    Origin {
        remote_dir: exists|i: int| 0 <= i < remote.len() && #[trigger] runs_through(remote[i], p),
        remote_file: all_valid(p) && exists|i: int| 0 <= i < remote.len() && #[trigger] remote[i] == p,
        local_dir: exists|i: int| 0 <= i < dirs.len() && #[trigger] dirs[i] == p,
        local_ancestor: (exists|i: int| 0 <= i < files.len() && #[trigger] is_ancestor(p, files[i]))
            || (exists|i: int| 0 <= i < dirs.len() && #[trigger] is_ancestor(p, dirs[i])),
        local_file: exists|i: int| 0 <= i < files.len() && #[trigger] files[i] == p,
    }
}

pub proof fn lemma_model_push_remote(
    remote: Seq<Seq<Seq<char>>>,
    files: Seq<Seq<Seq<char>>>,
    dirs: Seq<Seq<Seq<char>>>,
    k: Seq<Seq<char>>,
    p: Seq<Seq<char>>,
)
    ensures
        model_origin(remote.push(k), files, dirs, p) == model_origin(remote, files, dirs, p).join(
            key_origin(k, p),
        ),
{
    let r2 = remote.push(k);
    assert(r2[remote.len() as int] == k);
    assert forall|i: int| 0 <= i < remote.len() implies r2[i] == remote[i] by {}
    if runs_through(k, p) {
        assert(runs_through(r2[remote.len() as int], p));
    }
    if p == k && all_valid(k) {
        assert(r2[remote.len() as int] == p);
    }
}

pub proof fn lemma_model_push_local(
    remote: Seq<Seq<Seq<char>>>,
    files: Seq<Seq<Seq<char>>>,
    dirs: Seq<Seq<Seq<char>>>,
    q: Seq<Seq<char>>,
    is_dir: bool,
    p: Seq<Seq<char>>,
)
    ensures
        is_dir ==> model_origin(remote, files, dirs.push(q), p) == model_origin(
            remote,
            files,
            dirs,
            p,
        ).join(local_origin(q, true, p)),
        !is_dir ==> model_origin(remote, files.push(q), dirs, p) == model_origin(
            remote,
            files,
            dirs,
            p,
        ).join(local_origin(q, false, p)),
{
    let d2 = dirs.push(q);
    let f2 = files.push(q);
    assert(d2[dirs.len() as int] == q);
    assert(f2[files.len() as int] == q);
    assert forall|i: int| 0 <= i < dirs.len() implies d2[i] == dirs[i] by {}
    assert forall|i: int| 0 <= i < files.len() implies f2[i] == files[i] by {}
    if is_ancestor(p, q) {
        assert(is_ancestor(p, d2[dirs.len() as int]));
        assert(is_ancestor(p, f2[files.len() as int]));
    }
}

/// The first `n` names of a path, copied.
pub fn take_names(k: &Vec<Name>, n: usize) -> (r: Vec<Name>)
    requires
        names_wf(k@),
        n <= k@.len(),
    ensures
        names_wf(r@),
        names_view(r@) == names_view(k@).take(n as int),
        r@.len() == n,
{
    let mut out: Vec<Name> = Vec::new();
    let mut i: usize = 0;
    while i < n
        invariant
            names_wf(k@),
            n <= k@.len(),
            i <= n,
            names_wf(out@),
            out@.len() == i,
            names_view(out@) == names_view(k@).take(i as int),
        decreases n - i,
    {
        assert(k@[i as int].wf());
        let c = k[i].duplicate();
        proof {
            assert(names_view(out@.push(c)) =~= names_view(out@).push(c@));
            assert(names_view(k@).take(i + 1) =~= names_view(k@).take(i as int).push(k@[i as int]@));
        }
        out.push(c);
        i = i + 1;
    }
    out
}

/// Records what remote key `k` gives: the directories it runs through, up to
/// its first invalid name, and the file it ends at, if all its names are valid.
pub fn add_remote_key(es: &mut Vec<Entry>, k: &Vec<Name>)
    requires
        sorted(old(es)@),
        entries_wf(old(es)@),
        names_wf(k@),
        k@.len() >= 1,
    ensures
        sorted(final(es)@),
        entries_wf(final(es)@),
        forall|p: Seq<Seq<char>>|
            #[trigger] origin_at(final(es)@, p) == origin_at(old(es)@, p).join(
                key_origin(names_view(k@), p),
            ),
{
    let ghost old_es = es@;
    let ghost kv = names_view(k@);
    let mut j: usize = 1;
    let mut stopped = false;
    assert(kv.take(0) =~= Seq::<Seq<char>>::empty());
    assert forall|p: Seq<Seq<char>>| #[trigger] origin_at(es@, p) == origin_at(old_es, p).join(
        Origin { remote_dir: 1 <= p.len() < 1, ..Origin::none() },
    ) by {}
    while j < k.len()
        invariant_except_break
            !stopped,
        invariant
            1 <= j <= k@.len(),
            kv == names_view(k@),
            kv.len() == k@.len(),
            names_wf(k@),
            sorted(es@),
            entries_wf(es@),
            all_valid(kv.take(j - 1)),
            forall|p: Seq<Seq<char>>| #[trigger] origin_at(es@, p) == origin_at(old_es, p).join(
                Origin {
                    remote_dir: 1 <= p.len() < j && p == kv.take(p.len() as int) && all_valid(p),
                    ..Origin::none()
                },
            ),
        ensures
            1 <= j <= k@.len(),
            sorted(es@),
            entries_wf(es@),
            stopped ==> !valid_name(kv[j - 1]),
            !stopped ==> j == k@.len(),
            all_valid(kv.take(j - 1)),
            forall|p: Seq<Seq<char>>| #[trigger] origin_at(es@, p) == origin_at(old_es, p).join(
                Origin {
                    remote_dir: 1 <= p.len() < j && p == kv.take(p.len() as int) && all_valid(p),
                    ..Origin::none()
                },
            ),
        decreases k@.len() - j,
    {
        assert(k@[j - 1].wf());
        if !is_valid_name(&k[j - 1].chars) {
            stopped = true;
            break;
        }
        let prefix = take_names(k, j);
        let ghost pv = names_view(prefix@);
        insert_entry(
            es,
            prefix,
            Origin {
                remote_dir: true,
                remote_file: false,
                local_dir: false,
                local_ancestor: false,
                local_file: false,
            },
        );
        proof {
            assert(pv =~= kv.take(j as int));
            assert(all_valid(kv.take(j as int))) by {
                assert forall|i: int| 0 <= i < j implies #[trigger] valid_name(kv.take(j as int)[i]) by {
                    if i < j - 1 {
                        assert(kv.take(j as int)[i] == kv.take(j - 1)[i]);
                    }
                }
            }
            assert forall|p: Seq<Seq<char>>| #[trigger] origin_at(es@, p) == origin_at(old_es, p).join(
                Origin {
                    remote_dir: 1 <= p.len() < j + 1 && p == kv.take(p.len() as int) && all_valid(p),
                    ..Origin::none()
                },
            ) by {
                if p == pv {
                    assert(p.len() == j);
                }
            }
        }
        j = j + 1;
    }
    if stopped {
        proof {
            assert forall|p: Seq<Seq<char>>| #[trigger] origin_at(es@, p) == origin_at(old_es, p).join(
                key_origin(kv, p),
            ) by {
                if j <= p.len() < kv.len() && p == kv.take(p.len() as int) {
                    assert(kv.take(p.len() as int)[j - 1] == kv[j - 1]);
                    assert(!all_valid(p));
                }
                if p == kv {
                    assert(p[j - 1] == kv[j - 1]);
                }
            }
        }
    } else {
        let last = k.len() - 1;
        assert(k@[last as int].wf());
        let file_ok = is_valid_name(&k[last].chars);
        proof {
            assert(kv.take(kv.len() as int) =~= kv);
            if file_ok {
                assert(all_valid(kv)) by {
                    assert forall|i: int| 0 <= i < kv.len() implies #[trigger] valid_name(kv[i]) by {
                        if i < kv.len() - 1 {
                            assert(kv.take(j - 1)[i] == kv[i]);
                        }
                    }
                }
            } else {
                assert(!valid_name(kv[kv.len() - 1]));
                assert(!all_valid(kv));
            }
        }
        if file_ok {
            let whole = take_names(k, k.len());
            insert_entry(
                es,
                whole,
                Origin {
                    remote_dir: false,
                    remote_file: true,
                    local_dir: false,
                    local_ancestor: false,
                    local_file: false,
                },
            );
        }
        proof {
            assert forall|p: Seq<Seq<char>>| #[trigger] origin_at(es@, p) == origin_at(old_es, p).join(
                key_origin(kv, p),
            ) by {
                if p == kv {
                    assert(p.len() == kv.len());
                }
            }
        }
    }
}

/// Records what a local file or directory at `q` gives: the directories above
/// it, and itself.
pub fn add_local(es: &mut Vec<Entry>, q: &Vec<Name>, is_dir: bool)
    requires
        sorted(old(es)@),
        entries_wf(old(es)@),
        names_wf(q@),
        q@.len() >= 1,
    ensures
        sorted(final(es)@),
        entries_wf(final(es)@),
        forall|p: Seq<Seq<char>>|
            #[trigger] origin_at(final(es)@, p) == origin_at(old(es)@, p).join(
                local_origin(names_view(q@), is_dir, p),
            ),
{
    let ghost old_es = es@;
    let ghost qv = names_view(q@);
    let mut j: usize = 1;
    assert forall|p: Seq<Seq<char>>| #[trigger] origin_at(es@, p) == origin_at(old_es, p).join(
        Origin { local_ancestor: 1 <= p.len() < 1, ..Origin::none() },
    ) by {}
    while j < q.len()
        invariant
            1 <= j <= q@.len(),
            qv == names_view(q@),
            qv.len() == q@.len(),
            names_wf(q@),
            sorted(es@),
            entries_wf(es@),
            forall|p: Seq<Seq<char>>| #[trigger] origin_at(es@, p) == origin_at(old_es, p).join(
                Origin {
                    local_ancestor: 1 <= p.len() < j && p == qv.take(p.len() as int),
                    ..Origin::none()
                },
            ),
        decreases q@.len() - j,
    {
        let prefix = take_names(q, j);
        let ghost pv = names_view(prefix@);
        insert_entry(
            es,
            prefix,
            Origin {
                remote_dir: false,
                remote_file: false,
                local_dir: false,
                local_ancestor: true,
                local_file: false,
            },
        );
        proof {
            assert(pv =~= qv.take(j as int));
            assert forall|p: Seq<Seq<char>>| #[trigger] origin_at(es@, p) == origin_at(old_es, p).join(
                Origin {
                    local_ancestor: 1 <= p.len() < j + 1 && p == qv.take(p.len() as int),
                    ..Origin::none()
                },
            ) by {
                if p == pv {
                    assert(p.len() == j);
                }
            }
        }
        j = j + 1;
    }
    let whole = take_names(q, q.len());
    assert(names_view(whole@) =~= qv);
    insert_entry(
        es,
        whole,
        Origin {
            remote_dir: false,
            remote_file: false,
            local_dir: is_dir,
            local_ancestor: false,
            local_file: !is_dir,
        },
    );
    proof {
        assert forall|p: Seq<Seq<char>>| #[trigger] origin_at(es@, p) == origin_at(old_es, p).join(
            local_origin(qv, is_dir, p),
        ) by {
            if p == qv {
                assert(p.len() == qv.len());
            }
        }
    }
}

/// The paths of remote keys, local files and local directories, as sequences of names.
pub open spec fn paths_view(v: Seq<Vec<Name>>) -> Seq<Seq<Seq<char>>> {
    v.map_values(|x: Vec<Name>| names_view(x@))
}

/// Every path holds at least one name, each well formed.
pub open spec fn paths_wf(v: Seq<Vec<Name>>) -> bool {
    forall|i: int| 0 <= i < v.len() ==> names_wf(#[trigger] v[i]@) && v[i]@.len() >= 1
}

/// The table of the tree that the inputs give: one entry for each path that
/// some input gives, in order.
pub open spec fn table_of(
    es: Seq<Entry>,
    remote: Seq<Seq<Seq<char>>>,
    files: Seq<Seq<Seq<char>>>,
    dirs: Seq<Seq<Seq<char>>>,
) -> bool {
    &&& sorted(es)
    &&& entries_wf(es)
    &&& forall|p: Seq<Seq<char>>| #[trigger] origin_at(es, p) == model_origin(remote, files, dirs, p)
}

/// Builds the table for remote keys, local directories and local files.
pub fn build_entries(remote: &Vec<Vec<Name>>, files: &Vec<Vec<Name>>, dirs: &Vec<Vec<Name>>) -> (r:
    Vec<Entry>)
    requires
        paths_wf(remote@),
        paths_wf(files@),
        paths_wf(dirs@),
    ensures
        table_of(r@, paths_view(remote@), paths_view(files@), paths_view(dirs@)),
{
    let ghost rv = paths_view(remote@);
    let ghost fv = paths_view(files@);
    let ghost dv = paths_view(dirs@);
    let ghost empty = Seq::<Seq<Seq<char>>>::empty();
    let mut es: Vec<Entry> = Vec::new();
    let mut i: usize = 0;
    assert forall|p: Seq<Seq<char>>| #[trigger] origin_at(es@, p) == model_origin(rv.take(0), empty, empty, p) by {
        assert(!has_path(es@, p));
    }
    while i < remote.len()
        invariant
            paths_wf(remote@),
            rv == paths_view(remote@),
            i <= remote@.len(),
            table_of(es@, rv.take(i as int), empty, empty),
        decreases remote@.len() - i,
    {
        assert(names_wf(remote@[i as int]@) && remote@[i as int]@.len() >= 1);
        let ghost before = es@;
        add_remote_key(&mut es, &remote[i]);
        proof {
            assert(rv.take(i + 1) =~= rv.take(i as int).push(rv[i as int]));
            assert forall|p: Seq<Seq<char>>| #[trigger] origin_at(es@, p) == model_origin(rv.take(i + 1), empty, empty, p) by {
                lemma_model_push_remote(rv.take(i as int), empty, empty, rv[i as int], p);
            }
        }
        i = i + 1;
    }
    assert(rv.take(remote@.len() as int) =~= rv);
    let mut i: usize = 0;
    while i < dirs.len()
        invariant
            paths_wf(dirs@),
            dv == paths_view(dirs@),
            i <= dirs@.len(),
            table_of(es@, rv, empty, dv.take(i as int)),
        decreases dirs@.len() - i,
    {
        assert(names_wf(dirs@[i as int]@) && dirs@[i as int]@.len() >= 1);
        add_local(&mut es, &dirs[i], true);
        proof {
            assert(dv.take(i + 1) =~= dv.take(i as int).push(dv[i as int]));
            assert forall|p: Seq<Seq<char>>| #[trigger] origin_at(es@, p) == model_origin(rv, empty, dv.take(i + 1), p) by {
                lemma_model_push_local(rv, empty, dv.take(i as int), dv[i as int], true, p);
            }
        }
        i = i + 1;
    }
    assert(dv.take(dirs@.len() as int) =~= dv);
    let mut i: usize = 0;
    while i < files.len()
        invariant
            paths_wf(files@),
            fv == paths_view(files@),
            i <= files@.len(),
            table_of(es@, rv, fv.take(i as int), dv),
        decreases files@.len() - i,
    {
        assert(names_wf(files@[i as int]@) && files@[i as int]@.len() >= 1);
        add_local(&mut es, &files[i], false);
        proof {
            assert(fv.take(i + 1) =~= fv.take(i as int).push(fv[i as int]));
            assert forall|p: Seq<Seq<char>>| #[trigger] origin_at(es@, p) == model_origin(rv, fv.take(i + 1), dv, p) by {
                lemma_model_push_local(rv, fv.take(i as int), dv, fv[i as int], false, p);
            }
        }
        i = i + 1;
    }
    assert(fv.take(files@.len() as int) =~= fv);
    es
}

/// Where the entry for path `p` stands in the table.
pub open spec fn index_of(es: Seq<Entry>, p: Seq<Seq<char>>) -> int {
    choose|j: int| 0 <= j < es.len() && entry_path(es[j]) == p
}

/// The slot of the parent of entry `i`: slot 0 is the root, slot `j + 1` holds
/// entry `j`.
pub open spec fn parent_slot(es: Seq<Entry>, i: int) -> int {
    if entry_path(es[i]).len() == 1 {
        0
    } else {
        index_of(es, entry_path(es[i]).drop_last()) + 1
    }
}

/// The directory above every entry holds an entry too.
pub open spec fn prefix_closed(es: Seq<Entry>) -> bool {
    forall|i: int|
        0 <= i < es.len() && #[trigger] entry_path(es[i]).len() >= 2 ==> {
            &&& has_path(es, entry_path(es[i]).drop_last())
            &&& origin_at(es, entry_path(es[i]).drop_last()).is_dir()
        }
}

pub proof fn lemma_index_of(es: Seq<Entry>, j: int)
    requires
        sorted(es),
        0 <= j < es.len(),
    ensures
        index_of(es, entry_path(es[j])) == j,
{
    let p = entry_path(es[j]);
    let k = index_of(es, p);
    assert(0 <= k < es.len() && entry_path(es[k]) == p);
    if k < j {
        assert(path_lt(entry_path(es[k]), entry_path(es[j])));
        lemma_path_lt_irreflexive(p);
    } else if k > j {
        assert(path_lt(entry_path(es[j]), entry_path(es[k])));
        lemma_path_lt_irreflexive(p);
    }
}

/// The model gives a directory above every path it gives.
pub proof fn lemma_model_parent(
    remote: Seq<Seq<Seq<char>>>,
    files: Seq<Seq<Seq<char>>>,
    dirs: Seq<Seq<Seq<char>>>,
    p: Seq<Seq<char>>,
)
    requires
        model_origin(remote, files, dirs, p).any(),
        p.len() >= 2,
    ensures
        model_origin(remote, files, dirs, p.drop_last()).is_dir(),
{
    let q = p.drop_last();
    let o = model_origin(remote, files, dirs, p);
    if o.remote_dir {
        let i = choose|i: int| 0 <= i < remote.len() && #[trigger] runs_through(remote[i], p);
        let k = remote[i];
        assert(q =~= k.take(q.len() as int));
        assert(all_valid(q)) by {
            assert forall|n: int| 0 <= n < q.len() implies #[trigger] valid_name(q[n]) by {
                assert(q[n] == p[n]);
            }
        }
        assert(runs_through(remote[i], q));
    } else if o.remote_file {
        let i = choose|i: int| 0 <= i < remote.len() && #[trigger] remote[i] == p;
        assert(q =~= p.take(q.len() as int));
        assert(all_valid(q)) by {
            assert forall|n: int| 0 <= n < q.len() implies #[trigger] valid_name(q[n]) by {
                assert(q[n] == p[n]);
            }
        }
        assert(runs_through(remote[i], q));
    } else if o.local_dir {
        let i = choose|i: int| 0 <= i < dirs.len() && #[trigger] dirs[i] == p;
        assert(q =~= p.take(q.len() as int));
        assert(is_ancestor(q, dirs[i]));
    } else if o.local_file {
        let i = choose|i: int| 0 <= i < files.len() && #[trigger] files[i] == p;
        assert(q =~= p.take(q.len() as int));
        assert(is_ancestor(q, files[i]));
    } else if exists|i: int| 0 <= i < files.len() && #[trigger] is_ancestor(p, files[i]) {
        let i = choose|i: int| 0 <= i < files.len() && #[trigger] is_ancestor(p, files[i]);
        assert(q =~= files[i].take(q.len() as int));
        assert(is_ancestor(q, files[i]));
    } else {
        let i = choose|i: int| 0 <= i < dirs.len() && #[trigger] is_ancestor(p, dirs[i]);
        assert(q =~= dirs[i].take(q.len() as int));
        assert(is_ancestor(q, dirs[i]));
    }
}

pub proof fn lemma_table_prefix_closed(
    es: Seq<Entry>,
    remote: Seq<Seq<Seq<char>>>,
    files: Seq<Seq<Seq<char>>>,
    dirs: Seq<Seq<Seq<char>>>,
)
    requires
        table_of(es, remote, files, dirs),
    ensures
        prefix_closed(es),
{
    assert forall|i: int|
        0 <= i < es.len() && #[trigger] entry_path(es[i]).len() >= 2 implies {
            &&& has_path(es, entry_path(es[i]).drop_last())
            &&& origin_at(es, entry_path(es[i]).drop_last()).is_dir()
        } by {
        let p = entry_path(es[i]);
        lemma_origin_at_index(es, i);
        assert(origin_at(es, p) == model_origin(remote, files, dirs, p));
        lemma_model_parent(remote, files, dirs, p);
        assert(origin_at(es, p.drop_last()) == model_origin(remote, files, dirs, p.drop_last()));
    }
}

/// Finds the entry for path `target`.
pub fn find_entry(es: &Vec<Entry>, target: &Vec<Name>) -> (r: Option<usize>)
    requires
        sorted(es@),
    ensures
        match r {
            Some(j) => j < es@.len() && entry_path(es@[j as int]) == names_view(target@),
            None => !has_path(es@, names_view(target@)),
        },
{
    let ghost t = names_view(target@);
    let mut lo: usize = 0;
    let mut hi: usize = es.len();
    let mut found: Option<usize> = None;
    while lo < hi
        invariant_except_break
            found is None,
        invariant
            sorted(es@),
            t == names_view(target@),
            lo <= hi <= es@.len(),
            forall|k: int| 0 <= k < lo ==> path_lt(#[trigger] entry_path(es@[k]), t),
            forall|k: int| hi <= k < es@.len() ==> path_lt(t, #[trigger] entry_path(es@[k])),
        ensures
            match found {
                Some(j) => j < es@.len() && entry_path(es@[j as int]) == t,
                None => lo >= hi,
            },
        decreases hi - lo,
    {
        let mid = lo + (hi - lo) / 2;
        match compare_paths(&es[mid].path, target) {
            Order::Less => {
                proof {
                    assert forall|k: int| 0 <= k < mid + 1 implies path_lt(#[trigger] entry_path(es@[k]), t) by {
                        if k < mid {
                            assert(path_lt(entry_path(es@[k]), entry_path(es@[mid as int])));
                            lemma_path_lt_transitive(entry_path(es@[k]), entry_path(es@[mid as int]), t);
                        }
                    }
                }
                lo = mid + 1;
            },
            Order::Greater => {
                proof {
                    assert forall|k: int| mid <= k < es@.len() implies path_lt(t, #[trigger] entry_path(es@[k])) by {
                        if k > mid {
                            assert(path_lt(entry_path(es@[mid as int]), entry_path(es@[k])));
                            lemma_path_lt_transitive(t, entry_path(es@[mid as int]), entry_path(es@[k]));
                        }
                    }
                }
                hi = mid;
            },
            Order::Equal => {
                found = Some(mid);
                break;
            },
        }
    }
    if found.is_none() {
        proof {
            if has_path(es@, t) {
                let k = choose|k: int| 0 <= k < es@.len() && entry_path(es@[k]) == t;
                lemma_path_lt_irreflexive(t);
                if k < lo {
                    assert(path_lt(entry_path(es@[k]), t));
                } else {
                    assert(path_lt(t, entry_path(es@[k])));
                }
            }
        }
    }
    found
}

/// The slot of each entry's parent, with the root, its own parent, in slot 0.
pub fn parent_slots(es: &Vec<Entry>) -> (r: Vec<usize>)
    requires
        sorted(es@),
        entries_wf(es@),
        prefix_closed(es@),
    ensures
        r@.len() == es@.len() + 1,
        r@[0] == 0,
        forall|i: int| 0 <= i < es@.len() ==> #[trigger] r@[i + 1] as int == parent_slot(es@, i),
        forall|i: int| 0 <= i < r@.len() ==> #[trigger] r@[i] < r@.len(),
{
    let mut out: Vec<usize> = Vec::new();
    out.push(0);
    let mut i: usize = 0;
    while i < es.len()
        invariant
            sorted(es@),
            entries_wf(es@),
            prefix_closed(es@),
            i <= es@.len(),
            out@.len() == i + 1,
            out@[0] == 0,
            forall|k: int| 0 <= k < i ==> #[trigger] out@[k + 1] as int == parent_slot(es@, k),
            forall|k: int| 0 <= k < out@.len() ==> #[trigger] out@[k] <= es@.len(),
        decreases es@.len() - i,
    {
        let path = &es[i].path;
        assert(names_wf(path@) && path@.len() >= 1);
        let slot: usize;
        if path.len() == 1 {
            slot = 0;
        } else {
            let up = take_names(path, path.len() - 1);
            proof {
                assert(names_view(up@) =~= entry_path(es@[i as int]).drop_last());
            }
            match find_entry(es, &up) {
                Some(j) => {
                    proof {
                        lemma_index_of(es@, j as int);
                    }
                    slot = j + 1;
                },
                None => {
                    slot = 0;
                },
            }
        }
        out.push(slot);
        i = i + 1;
    }
    out
}

/// The slots whose parent is slot `t`, among the first `n`, in order; the root
/// is no child of itself.
pub open spec fn kids(parents: Seq<usize>, t: int, n: int) -> Seq<usize>
    decreases n,
{
    if n <= 1 {
        Seq::<usize>::empty()
    } else {
        let pre = kids(parents, t, n - 1);
        if parents[n - 1] as int == t {
            pre.push((n - 1) as usize)
        } else {
            pre
        }
    }
}

/// The children of every slot, in order.
pub fn child_lists(parents: &Vec<usize>) -> (r: Vec<Vec<usize>>)
    requires
        forall|i: int| 0 <= i < parents@.len() ==> #[trigger] parents@[i] < parents@.len(),
    ensures
        r@.len() == parents@.len(),
        forall|t: int| 0 <= t < r@.len() ==> #[trigger] r@[t]@ == kids(parents@, t, parents@.len() as int),
{
    let n = parents.len();
    let mut out: Vec<Vec<usize>> = Vec::new();
    let mut t: usize = 0;
    while t < n
        invariant
            t <= n,
            n == parents@.len(),
            out@.len() == t,
            forall|k: int| 0 <= k < t ==> #[trigger] out@[k]@ == Seq::<usize>::empty(),
        decreases n - t,
    {
        out.push(Vec::new());
        t = t + 1;
    }
    let mut u: usize = 1;
    assert forall|k: int| 0 <= k < n implies #[trigger] out@[k]@ == kids(parents@, k, 1) by {}
    while u < n
        invariant
            1 <= u <= n || n == 0,
            n == parents@.len(),
            out@.len() == n,
            forall|i: int| 0 <= i < parents@.len() ==> #[trigger] parents@[i] < parents@.len(),
            forall|k: int| 0 <= k < n ==> #[trigger] out@[k]@ == kids(parents@, k, u as int),
        decreases n - u,
    {
        let p = parents[u];
        out[p].push(u);
        proof {
            assert forall|k: int| 0 <= k < n implies #[trigger] out@[k]@ == kids(parents@, k, u + 1) by {
                assert(kids(parents@, k, u + 1) == if parents@[u as int] as int == k {
                    kids(parents@, k, u as int).push(u)
                } else {
                    kids(parents@, k, u as int)
                });
            }
        }
        u = u + 1;
    }
    out
}

pub proof fn lemma_sorted_drop_first(a: Seq<Entry>)
    requires
        sorted(a),
        a.len() > 0,
    ensures
        sorted(a.drop_first()),
{
    let t = a.drop_first();
    assert(sorted(t)) by {
        assert forall|i: int, j: int| 0 <= i < j < t.len() implies #[trigger] path_lt(
            entry_path(t[i]),
            entry_path(t[j]),
        ) by {
            assert(path_lt(entry_path(a[i + 1]), entry_path(a[j + 1])));
        }
    }
}

pub proof fn lemma_drop_first_origin(a: Seq<Entry>, p: Seq<Seq<char>>)
    requires
        sorted(a),
        a.len() > 0,
        p != entry_path(a[0]),
    ensures
        origin_at(a.drop_first(), p) == origin_at(a, p),
{
    let t = a.drop_first();
    lemma_sorted_drop_first(a);
    if has_path(a, p) {
        let k = choose|k: int| 0 <= k < a.len() && entry_path(a[k]) == p;
        lemma_origin_at_index(a, k);
        assert(k != 0);
        assert(t[k - 1] == a[k]);
        lemma_origin_at_index(t, k - 1);
    } else if has_path(t, p) {
        let k = choose|k: int| 0 <= k < t.len() && entry_path(t[k]) == p;
        assert(entry_path(a[k + 1]) == p);
    }
}

/// Two tables that record the same of every path hold the same paths, in the
/// same order, with the same records.
pub proof fn lemma_table_unique(a: Seq<Entry>, b: Seq<Entry>)
    requires
        sorted(a),
        sorted(b),
        entries_wf(a),
        entries_wf(b),
        forall|p: Seq<Seq<char>>| #[trigger] origin_at(a, p) == origin_at(b, p),
    ensures
        a.len() == b.len(),
        forall|i: int| 0 <= i < a.len() ==> #[trigger] entry_path(a[i]) == entry_path(b[i]) && a[i].origin
            == b[i].origin,
    decreases a.len(),
{
    if a.len() == 0 || b.len() == 0 {
        if a.len() > 0 {
            lemma_origin_at_index(a, 0);
            assert(origin_at(b, entry_path(a[0])).any());
        }
        if b.len() > 0 {
            lemma_origin_at_index(b, 0);
            assert(origin_at(a, entry_path(b[0])).any());
        }
    } else {
        let x = entry_path(a[0]);
        let y = entry_path(b[0]);
        lemma_origin_at_index(a, 0);
        lemma_origin_at_index(b, 0);
        assert(origin_at(b, x).any());
        assert(origin_at(a, y).any());
        let k = choose|k: int| 0 <= k < b.len() && entry_path(b[k]) == x;
        let m = choose|m: int| 0 <= m < a.len() && entry_path(a[m]) == y;
        if x != y {
            assert(k > 0 && m > 0);
            assert(path_lt(y, x));
            assert(path_lt(x, y));
            lemma_path_lt_asymmetric(x, y);
        }
        let a2 = a.drop_first();
        let b2 = b.drop_first();
        assert forall|p: Seq<Seq<char>>| #[trigger] origin_at(a2, p) == origin_at(b2, p) by {
            if p != x {
                lemma_drop_first_origin(a, p);
                lemma_drop_first_origin(b, p);
            } else {
                assert(!has_path(a2, p)) by {
                    if has_path(a2, p) {
                        let j = choose|j: int| 0 <= j < a2.len() && entry_path(a2[j]) == p;
                        assert(path_lt(entry_path(a[0]), entry_path(a[j + 1])));
                        lemma_path_lt_irreflexive(p);
                    }
                }
                assert(!has_path(b2, p)) by {
                    if has_path(b2, p) {
                        let j = choose|j: int| 0 <= j < b2.len() && entry_path(b2[j]) == p;
                        assert(path_lt(entry_path(b[0]), entry_path(b[j + 1])));
                        lemma_path_lt_irreflexive(p);
                    }
                }
            }
        }
        lemma_sorted_drop_first(a);
        lemma_sorted_drop_first(b);
        lemma_table_unique(a2, b2);
        assert forall|i: int| 0 <= i < a.len() implies #[trigger] entry_path(a[i]) == entry_path(b[i]) && a[i].origin
            == b[i].origin by {
            if i > 0 {
                assert(a2[i - 1] == a[i]);
                assert(b2[i - 1] == b[i]);
            }
        }
    }
}

} // verus!
