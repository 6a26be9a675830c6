//! File names, paths and their order.
//!
//! A name is a sequence of characters; a path is a sequence of names. Both are
//! ordered lexicographically, names by code point, which is the order of their
//! UTF-8 bytes.
use vstd::prelude::*;
use vstd::std_specs::iter::IteratorSpec;

verus! {

broadcast use vstd::string::group_string_axioms;

/// A name may stand in the tree: it is not empty, not `.` or `..`, and holds no NUL.
pub open spec fn valid_name(c: Seq<char>) -> bool {
    &&& c.len() > 0
    &&& c != seq!['.']
    &&& c != seq!['.', '.']
    &&& !c.contains('\0')
}

/// Every name of the path may stand in the tree.
pub open spec fn all_valid(p: Seq<Seq<char>>) -> bool {
    forall|i: int| 0 <= i < p.len() ==> #[trigger] valid_name(p[i])
}

/// `a` sorts strictly before `b`.
pub open spec fn name_lt(a: Seq<char>, b: Seq<char>) -> bool
    decreases a.len(),
{
    if a.len() == 0 {
        b.len() > 0
    } else if b.len() == 0 {
        false
    } else if a[0] != b[0] {
        (a[0] as int) < (b[0] as int)
    } else {
        name_lt(a.drop_first(), b.drop_first())
    }
}

/// Path `a` sorts strictly before path `b`: names compared one by one, a proper
/// prefix first.
pub open spec fn path_lt(a: Seq<Seq<char>>, b: Seq<Seq<char>>) -> bool
    decreases a.len(),
{
    if a.len() == 0 {
        b.len() > 0
    } else if b.len() == 0 {
        false
    } else if a[0] != b[0] {
        name_lt(a[0], b[0])
    } else {
        path_lt(a.drop_first(), b.drop_first())
    }
}

pub proof fn lemma_name_lt_irreflexive(a: Seq<char>)
    ensures
        !name_lt(a, a),
    decreases a.len(),
{
    if a.len() > 0 {
        lemma_name_lt_irreflexive(a.drop_first());
    }
}

pub proof fn lemma_name_lt_transitive(a: Seq<char>, b: Seq<char>, c: Seq<char>)
    requires
        name_lt(a, b),
        name_lt(b, c),
    ensures
        name_lt(a, c),
    decreases a.len(),
{
    if a.len() > 0 && b.len() > 0 && c.len() > 0 {
        if a[0] == b[0] && b[0] == c[0] {
            lemma_name_lt_transitive(a.drop_first(), b.drop_first(), c.drop_first());
        }
    }
}

pub proof fn lemma_name_lt_asymmetric(a: Seq<char>, b: Seq<char>)
    requires
        name_lt(a, b),
    ensures
        !name_lt(b, a),
{
    if name_lt(b, a) {
        lemma_name_lt_transitive(a, b, a);
        lemma_name_lt_irreflexive(a);
    }
}

pub proof fn lemma_path_lt_irreflexive(a: Seq<Seq<char>>)
    ensures
        !path_lt(a, a),
    decreases a.len(),
{
    if a.len() > 0 {
        lemma_path_lt_irreflexive(a.drop_first());
    }
}

pub proof fn lemma_path_lt_transitive(a: Seq<Seq<char>>, b: Seq<Seq<char>>, c: Seq<Seq<char>>)
    requires
        path_lt(a, b),
        path_lt(b, c),
    ensures
        path_lt(a, c),
    decreases a.len(),
{
    if a.len() > 0 && b.len() > 0 && c.len() > 0 {
        if a[0] == b[0] && b[0] == c[0] {
            lemma_path_lt_transitive(a.drop_first(), b.drop_first(), c.drop_first());
        } else if a[0] == b[0] {
        } else if b[0] == c[0] {
        } else {
            lemma_name_lt_transitive(a[0], b[0], c[0]);
            if a[0] == c[0] {
                lemma_name_lt_irreflexive(a[0]);
                lemma_name_lt_asymmetric(a[0], b[0]);
            }
        }
    }
}

pub proof fn lemma_path_lt_asymmetric(a: Seq<Seq<char>>, b: Seq<Seq<char>>)
    requires
        path_lt(a, b),
    ensures
        !path_lt(b, a),
{
    if path_lt(b, a) {
        lemma_path_lt_transitive(a, b, a);
        lemma_path_lt_irreflexive(a);
    }
}

/// The result of comparing two names or two paths.
#[derive(Clone, Copy, Debug, PartialEq, Eq, Structural)]
pub enum Order {
    Less,
    Equal,
    Greater,
}

/// Compares two names by code point.
pub fn compare_chars(a: &Vec<char>, b: &Vec<char>) -> (r: Order)
    ensures
        (r == Order::Less) == name_lt(a@, b@),
        (r == Order::Equal) == (a@ == b@),
        (r == Order::Greater) == name_lt(b@, a@),
{
    let mut i: usize = 0;
    assert(a@.skip(0) =~= a@);
    assert(b@.skip(0) =~= b@);
    while i < a.len() && i < b.len() && a[i] == b[i]
        invariant
            i <= a.len(),
            i <= b.len(),
            a@.take(i as int) == b@.take(i as int),
            name_lt(a@, b@) == name_lt(a@.skip(i as int), b@.skip(i as int)),
            name_lt(b@, a@) == name_lt(b@.skip(i as int), a@.skip(i as int)),
            (a@ == b@) == (a@.skip(i as int) == b@.skip(i as int)),
        decreases a.len() - i,
    {
        proof {
            let sa = a@.skip(i as int);
            let sb = b@.skip(i as int);
            assert(sa.drop_first() =~= a@.skip(i + 1));
            assert(sb.drop_first() =~= b@.skip(i + 1));
            assert(a@.take(i + 1) =~= a@.take(i as int).push(a@[i as int]));
            assert(b@.take(i + 1) =~= b@.take(i as int).push(b@[i as int]));
            assert(sa[0] == sb[0]);
            assert(sa =~= seq![sa[0]] + sa.drop_first());
            assert(sb =~= seq![sb[0]] + sb.drop_first());
        }
        i = i + 1;
    }
    let sa = Ghost(a@.skip(i as int));
    let sb = Ghost(b@.skip(i as int));
    if i == a.len() && i == b.len() {
        assert(sa@ =~= sb@);
        proof {
            lemma_name_lt_irreflexive(sa@);
        }
        Order::Equal
    } else if i == a.len() {
        Order::Less
    } else if i == b.len() {
        Order::Greater
    } else if a[i] < b[i] {
        assert(sa@[0] != sb@[0]);
        Order::Less
    } else {
        assert(sa@[0] != sb@[0]);
        Order::Greater
    }
}

/// The characters of a string, in order.
pub fn chars_of(s: &str) -> (r: Vec<char>)
    ensures
        r@ == s@,
{
    let mut out: Vec<char> = Vec::new();
    let mut it = s.chars();
    loop
        invariant
            it.remaining() == s@.skip(out@.len() as int),
            out@ == s@.take(out@.len() as int),
            out@.len() <= s@.len(),
            it.obeys_prophetic_iter_laws(),
        decreases s@.len() - out@.len(),
    {
        let next = it.next();
        match next {
            Some(c) => {
                proof {
                    assert(s@.skip(out@.len() as int).drop_first() =~= s@.skip(out@.len() + 1 as int));
                    assert(s@.take(out@.len() + 1 as int) =~= s@.take(out@.len() as int).push(c));
                }
                out.push(c);
            },
            None => {
                assert(out@ =~= s@);
                return out;
            },
        }
    }
}

/// Checks that a name may stand in the tree.
pub fn is_valid_name(c: &Vec<char>) -> (r: bool)
    ensures
        r == valid_name(c@),
{
    if c.len() == 0 {
        return false;
    }
    if c.len() == 1 && c[0] == '.' {
        assert(c@ =~= seq!['.']);
        return false;
    }
    if c.len() == 2 && c[0] == '.' && c[1] == '.' {
        assert(c@ =~= seq!['.', '.']);
        return false;
    }
    let mut i: usize = 0;
    while i < c.len()
        invariant
            i <= c.len(),
            forall|j: int| 0 <= j < i ==> c@[j] != '\0',
        decreases c.len() - i,
    {
        if c[i] == '\0' {
            return false;
        }
        i = i + 1;
    }
    assert(c@ != seq!['.']) by {
        if c@ == seq!['.'] {
            assert(c@.len() == 1 && c@[0] == '.');
        }
    }
    assert(c@ != seq!['.', '.']) by {
        if c@ == seq!['.', '.'] {
            assert(c@.len() == 2 && c@[0] == '.' && c@[1] == '.');
        }
    }
    true
}

} // verus!

verus! {

/// A name held both as a string and as its characters.
#[derive(Debug)]
pub struct Name {
    pub text: String,
    pub chars: Vec<char>,
}

impl View for Name {
    type V = Seq<char>;

    open spec fn view(&self) -> Seq<char> {
        self.chars@
    }
}

impl Name {
    /// The string and the characters agree.
    pub open spec fn wf(&self) -> bool {
        self.text@ == self.chars@
    }

    pub fn duplicate(&self) -> (r: Name)
        requires
            self.wf(),
        ensures
            r.wf(),
            r@ == self@,
    {
        let text = self.text.clone();
        let mut chars: Vec<char> = Vec::new();
        let mut i: usize = 0;
        while i < self.chars.len()
            invariant
                i <= self.chars.len(),
                chars@ == self.chars@.take(i as int),
            decreases self.chars.len() - i,
        {
            assert(self.chars@.take(i + 1) =~= self.chars@.take(i as int).push(self.chars@[i as int]));
            chars.push(self.chars[i]);
            i = i + 1;
        }
        assert(chars@ =~= self.chars@);
        Name { text, chars }
    }
}

/// The names of a path, as character sequences.
pub open spec fn names_view(p: Seq<Name>) -> Seq<Seq<char>> {
    p.map_values(|n: Name| n@)
}

/// Every name of the sequence is well formed.
pub open spec fn names_wf(p: Seq<Name>) -> bool {
    forall|i: int| 0 <= i < p.len() ==> #[trigger] p[i].wf()
}

/// `s` cut at every `/`: one more piece than it has slashes.
pub open spec fn split_slash(s: Seq<char>) -> Seq<Seq<char>>
    decreases s.len(),
{
    if s.len() == 0 {
        seq![Seq::<char>::empty()]
    } else {
        let init = split_slash(s.drop_last());
        if s.last() == '/' {
            init.push(Seq::<char>::empty())
        } else {
            init.update(init.len() - 1, init.last().push(s.last()))
        }
    }
}

/// The names of a path joined with `/`.
pub open spec fn join_slash(p: Seq<Seq<char>>) -> Seq<char>
    decreases p.len(),
{
    if p.len() == 0 {
        Seq::<char>::empty()
    } else if p.len() == 1 {
        p[0]
    } else {
        join_slash(p.drop_last()) + seq!['/'] + p.last()
    }
}

pub proof fn lemma_split_slash_nonempty(s: Seq<char>)
    ensures
        split_slash(s).len() >= 1,
    decreases s.len(),
{
    if s.len() > 0 {
        lemma_split_slash_nonempty(s.drop_last());
    }
}

/// Cuts `s`, from its character `start` on, at every `/`.
pub fn split_names(s: &str, start: usize) -> (r: Vec<Name>)
    requires
        start <= s@.len(),
    ensures
        names_view(r@) == split_slash(s@.skip(start as int)),
        names_wf(r@),
{
    let chars = chars_of(s);
    let mut out: Vec<Name> = Vec::new();
    let mut cur: Vec<char> = Vec::new();
    let mut seg_start: usize = start;
    let mut i: usize = start;
    assert(s@.subrange(start as int, start as int) =~= Seq::<char>::empty());
    assert(names_view(out@).push(cur@) =~= seq![Seq::<char>::empty()]);
    while i < chars.len()
        invariant
            chars@ == s@,
            start <= seg_start <= i <= chars@.len(),
            cur@ == s@.subrange(seg_start as int, i as int),
            names_view(out@).push(cur@) == split_slash(s@.subrange(start as int, i as int)),
            names_wf(out@),
        decreases chars.len() - i,
    {
        let c = chars[i];
        let ghost sub = s@.subrange(start as int, i + 1);
        assert(sub.drop_last() =~= s@.subrange(start as int, i as int));
        assert(sub.last() == c);
        if c == '/' {
            let text = String::from_str(s.substring_char(seg_start, i));
            let name = Name { text, chars: cur };
            proof {
                assert(names_view(out@.push(name)) =~= names_view(out@).push(name@));
            }
            out.push(name);
            cur = Vec::new();
            seg_start = i + 1;
            assert(s@.subrange(seg_start as int, i + 1) =~= Seq::<char>::empty());
            assert(names_view(out@).push(cur@) =~= split_slash(sub));
        } else {
            let ghost before = cur@;
            cur.push(c);
            assert(cur@ =~= s@.subrange(seg_start as int, i + 1));
            assert(names_view(out@).push(cur@) =~= split_slash(sub));
        }
        i = i + 1;
    }
    let text = String::from_str(s.substring_char(seg_start, i));
    let name = Name { text, chars: cur };
    proof {
        assert(names_view(out@.push(name)) =~= names_view(out@).push(name@));
        assert(s@.subrange(start as int, i as int) =~= s@.skip(start as int));
    }
    out.push(name);
    out
}

/// Joins the names of a path with `/`.
pub fn join_names(p: &Vec<Name>) -> (r: String)
    requires
        names_wf(p@),
    ensures
        r@ == join_slash(names_view(p@)),
{
    let mut out = String::new();
    let mut i: usize = 0;
    while i < p.len()
        invariant
            names_wf(p@),
            i <= p.len(),
            out@ == join_slash(names_view(p@).take(i as int)),
        decreases p.len() - i,
    {
        let ghost pre = names_view(p@).take(i + 1);
        assert(pre.drop_last() =~= names_view(p@).take(i as int));
        assert(p@[i as int].wf());
        let ghost before = out@;
        if i > 0 {
            proof {
                reveal_strlit("/");
            }
            out.append("/");
            assert(out@ =~= before + seq!['/']);
        }
        out.append(p[i].text.as_str());
        proof {
            if i == 0 {
                assert(out@ =~= pre[0]);
            } else {
                assert(out@ =~= join_slash(pre.drop_last()) + seq!['/'] + pre.last());
            }
        }
        i = i + 1;
    }
    assert(names_view(p@).take(p@.len() as int) =~= names_view(p@));
    out
}

/// `s` splits into two pieces or more exactly when it holds a `/`.
pub proof fn lemma_split_slash_two(s: Seq<char>)
    ensures
        split_slash(s).len() >= 2 <==> s.contains('/'),
    decreases s.len(),
{
    if s.len() > 0 {
        lemma_split_slash_two(s.drop_last());
        lemma_split_slash_nonempty(s.drop_last());
        if s.last() == '/' {
            assert(s[s.len() - 1] == '/');
        } else {
            if s.contains('/') {
                let i = choose|i: int| 0 <= i < s.len() && s[i] == '/';
                assert(s.drop_last()[i] == '/');
            }
            if s.drop_last().contains('/') {
                let i = choose|i: int| 0 <= i < s.drop_last().len() && s.drop_last()[i] == '/';
                assert(s[i] == '/');
            }
        }
    }
}

} // verus!
