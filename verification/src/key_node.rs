//! The diff tree: what differs at one point of a JSON tree, and below it.

use vstd::prelude::*;
use vstd::string::StringExecFns;
use crate::assoc::{distinct_keys, find, first_at, holds_key, lemma_first_exists, lemma_slot, slot};
use crate::json::{same_json, Json, JsonValue};

verus! {

/// A diff at one point of a JSON tree.
///
/// `Nil` says that nothing differs here, or, as a child in a tree of keys that
/// exist on one side only, that the key itself is the finding. `Value` holds
/// the two values that differ. `Node` holds, by key, the diffs below an object.
#[derive(Debug)]
pub enum KeyNode {
    Nil,
    Value(Json, Json),
    Node(Vec<(String, KeyNode)>),
}

/// What a diff tree stands for: a branch is a mapping from keys to subtrees.
pub enum KeyTree {
    Nil,
    Value(JsonValue, JsonValue),
    Node(Map<Seq<char>, KeyTree>),
}

/// What the entries of a branch stand for: each key that some entry carries,
/// with the subtree of the first entry that carries it.
pub open spec fn branches_model(s: Seq<(String, KeyNode)>) -> Map<Seq<char>, KeyTree>
    decreases s,
{
    Map::new(
        |k: Seq<char>| holds_key(s, k),
        |k: Seq<char>|
            {
                let i = slot(s, k);
                if 0 <= i < s.len() {
                    node_model(s[i].1)
                } else {
                    KeyTree::Nil
                }
            },
    )
}

/// What a diff tree stands for.
pub open spec fn node_model(n: KeyNode) -> KeyTree
    decreases n,
{
    match n {
        KeyNode::Nil => KeyTree::Nil,
        KeyNode::Value(a, b) => KeyTree::Value(a@, b@),
        KeyNode::Node(m) => KeyTree::Node(branches_model(m@)),
    }
}

impl View for KeyNode {
    type V = KeyTree;

    open spec fn view(&self) -> KeyTree {
        node_model(*self)
    }
}

impl KeyTree {
    /// No branch, at any depth, is empty.
    pub open spec fn populated(self) -> bool
        decreases self,
    {
        match self {
            KeyTree::Node(m) => (exists|k: Seq<char>| m.contains_key(k)) && forall|k: Seq<char>|
                m.contains_key(k) ==> (#[trigger] m[k]).populated(),
            _ => true,
        }
    }
}

impl KeyNode {
    /// No branch, at any depth, holds a key twice.
    pub open spec fn wf(self) -> bool
        decreases self,
    {
        match self {
            KeyNode::Node(m) => distinct_keys(m@) && forall|i: int|
                0 <= i < m@.len() ==> (#[trigger] m@[i]).1.wf(),
            _ => true,
        }
    }

    /// Tells whether this is `Nil`.
    pub fn is_nil(&self) -> (r: bool)
        ensures
            r == (*self is Nil),
            r == (self@ is Nil),
    {
        match self {
            KeyNode::Nil => true,
            _ => false,
        }
    }
}

/// The model of a branch at a key is the model of the first entry that carries
/// the key.
pub proof fn lemma_branch(s: Seq<(String, KeyNode)>, k: Seq<char>, i: int)
    requires
        first_at(s, k, i),
    ensures
        branches_model(s).contains_key(k),
        branches_model(s)[k] == s[i].1@,
{
    lemma_slot(s, k, i);
}

/// Appending an entry under a new key adds that key to the mapping and leaves
/// the rest as it was.
pub proof fn lemma_branch_push(s: Seq<(String, KeyNode)>, e: (String, KeyNode))
    requires
        !holds_key(s, e.0@),
    ensures
        branches_model(s.push(e)) == branches_model(s).insert(e.0@, e.1@),
{
    let t = s.push(e);
    assert forall|k: Seq<char>| holds_key(t, k) implies holds_key(s, k) || k == e.0@ by {
        let i = choose|i: int| 0 <= i < t.len() && (#[trigger] t[i]).0@ == k;
        if i < s.len() {
            assert(s[i] == t[i]);
        }
    }
    assert forall|k: Seq<char>| holds_key(s, k) implies holds_key(t, k) && branches_model(t)[k]
        == branches_model(s)[k] by {
        lemma_first_exists(s, k);
        let i = slot(s, k);
        assert(t[i] == s[i]);
        assert forall|j: int| 0 <= j < i implies (#[trigger] t[j]).0@ != k by {
            assert(t[j] == s[j]);
        }
        lemma_slot(t, k, i);
    }
    assert(first_at(t, e.0@, s.len() as int)) by {
        assert(t[s.len() as int] == e);
        assert forall|j: int| 0 <= j < s.len() implies (#[trigger] t[j]).0@ != e.0@ by {
            assert(t[j] == s[j]);
        }
    }
    lemma_slot(t, e.0@, s.len() as int);
    assert(branches_model(t) =~= branches_model(s).insert(e.0@, e.1@));
}

/// Equality of branches: the same keys, and equal subtrees under each.
fn same_branches(x: &Vec<(String, KeyNode)>, y: &Vec<(String, KeyNode)>) -> (r: bool)
    ensures
        r == (branches_model(x@) == branches_model(y@)),
    decreases *x,
{
    let mut i: usize = 0;
    while i < x.len()
        invariant
            i <= x.len(),
            forall|t: int|
                0 <= t < i ==> holds_key(y@, (#[trigger] x@[t]).0@) && branches_model(
                    x@,
                )[x@[t].0@] == branches_model(y@)[x@[t].0@],
        decreases x.len() - i,
    {
        let ghost k = x@[i as int].0@;
        match (find(x, &x[i].0), find(y, &x[i].0)) {
            (Some(f), Some(j)) => {
                proof {
                    lemma_branch(x@, k, f as int);
                    lemma_branch(y@, k, j as int);
                }
                if !same_node(&x[f].1, &y[j].1) {
                    return false;
                }
            },
            (_, None) => {
                proof {
                    assert(holds_key(x@, k));
                    assert(branches_model(x@).contains_key(k));
                    assert(!branches_model(y@).contains_key(k));
                }
                return false;
            },
            (None, _) => {
                proof {
                    assert(holds_key(x@, k));
                    assert(false);
                }
                return false;
            },
        }
        i += 1;
    }
    let mut j: usize = 0;
    while j < y.len()
        invariant
            j <= y.len(),
            forall|t: int| 0 <= t < j ==> holds_key(x@, (#[trigger] y@[t]).0@),
        decreases y.len() - j,
    {
        if find(x, &y[j].0).is_none() {
            proof {
                let k = y@[j as int].0@;
                assert(holds_key(y@, k));
                assert(branches_model(y@).contains_key(k));
                assert(!branches_model(x@).contains_key(k));
            }
            return false;
        }
        j += 1;
    }
    assert(branches_model(x@) =~= branches_model(y@)) by {
        assert forall|k: Seq<char>| holds_key(x@, k) implies holds_key(y@, k) by {
            let t = choose|t: int| 0 <= t < x@.len() && (#[trigger] x@[t]).0@ == k;
            assert(holds_key(y@, x@[t].0@));
        }
        assert forall|k: Seq<char>| holds_key(y@, k) implies holds_key(x@, k) by {
            let t = choose|t: int| 0 <= t < y@.len() && (#[trigger] y@[t]).0@ == k;
            assert(holds_key(x@, y@[t].0@));
        }
        assert forall|k: Seq<char>| holds_key(x@, k) implies branches_model(x@)[k]
            == branches_model(y@)[k] by {
            let t = choose|t: int| 0 <= t < x@.len() && (#[trigger] x@[t]).0@ == k;
            assert(branches_model(x@)[x@[t].0@] == branches_model(y@)[x@[t].0@]);
        }
    }
    true
}

/// Equality of diff trees: branches are equal when they map the same keys to
/// equal subtrees, in whatever order they hold them; leaves when both of
/// their values are deep-equal.
pub fn same_node(a: &KeyNode, b: &KeyNode) -> (r: bool)
    ensures
        r == (a@ == b@),
    decreases *a,
{
    match (a, b) {
        (KeyNode::Nil, KeyNode::Nil) => true,
        (KeyNode::Value(p, q), KeyNode::Value(s, t)) => same_json(p, s) && same_json(q, t),
        (KeyNode::Node(x), KeyNode::Node(y)) => same_branches(x, y),
        _ => false,
    }
}

/// The dotted path of `key` below `prefix`: the key alone at the root.
pub open spec fn extend(prefix: Option<Seq<char>>, key: Seq<char>) -> Seq<char> {
    match prefix {
        Some(p) => p + seq!['.'] + key,
        None => key,
    }
}

/// The texts of a list of strings.
pub open spec fn texts(v: Seq<String>) -> Seq<Seq<char>> {
    Seq::new(v.len(), |i: int| v[i]@)
}

/// The text of a path that may be absent.
pub open spec fn text_of(path: Option<String>) -> Option<Seq<char>> {
    match path {
        Some(p) => Some(p@),
        None => None,
    }
}

/// The dotted paths that flattening `n` yields when `n` stands at `prefix`.
///
/// Below a branch these are the paths of its children, in the order in which
/// the branch holds them. A `Nil` or a `Value` yields the path it stands at,
/// and nothing at the root, where there is no path to name.
pub open spec fn node_paths(n: KeyNode, prefix: Option<Seq<char>>) -> Seq<Seq<char>>
    decreases n, 0nat,
{
    match n {
        KeyNode::Node(m) => branch_paths(m@, prefix, m@.len()),
        _ => match prefix {
            Some(p) => seq![p],
            None => Seq::empty(),
        },
    }
}

/// The dotted paths below the first `n` children of a branch at `prefix`.
pub open spec fn branch_paths(s: Seq<(String, KeyNode)>, prefix: Option<Seq<char>>, n: nat) -> Seq<
    Seq<char>,
>
    decreases s, n,
{
    if n == 0 || n > s.len() {
        Seq::empty()
    } else {
        branch_paths(s, prefix, (n - 1) as nat) + node_paths(
            s[n - 1].1,
            Some(extend(prefix, s[n - 1].0@)),
        )
    }
}

/// Following the keys of `path` from the root of `t` ends at a `Nil` or a
/// `Value`.
pub open spec fn reaches(t: KeyTree, path: Seq<Seq<char>>) -> bool
    decreases path.len(),
{
    match t {
        KeyTree::Node(m) => path.len() > 0 && m.contains_key(path[0]) && reaches(
            m[path[0]],
            path.drop_first(),
        ),
        _ => path.len() == 0,
    }
}

/// The key paths of a tree: every sequence of keys that leads from the root to
/// a `Nil` or a `Value`.
pub open spec fn key_paths(t: KeyTree) -> Set<Seq<Seq<char>>> {
    Set::new(|path: Seq<Seq<char>>| reaches(t, path))
}

/// The dotted path of a key path below `prefix`; at the root, the empty key
/// path has none.
pub open spec fn join(prefix: Option<Seq<char>>, path: Seq<Seq<char>>) -> Option<Seq<char>>
    decreases path.len(),
{
    if path.len() == 0 {
        prefix
    } else {
        join(Some(extend(prefix, path[0])), path.drop_first())
    }
}

/// A text is in a concatenation when it is in one of the two parts.
proof fn lemma_contains_concat(a: Seq<Seq<char>>, b: Seq<Seq<char>>, x: Seq<char>)
    ensures
        (a + b).contains(x) <==> a.contains(x) || b.contains(x),
{
    if a.contains(x) {
        let i = choose|i: int| 0 <= i < a.len() && a[i] == x;
        assert((a + b)[i] == x);
    }
    if b.contains(x) {
        let i = choose|i: int| 0 <= i < b.len() && b[i] == x;
        assert((a + b)[a.len() + i] == x);
    }
    if (a + b).contains(x) {
        let i = choose|i: int| 0 <= i < (a + b).len() && (a + b)[i] == x;
        if i < a.len() {
            assert(a[i] == x);
        } else {
            assert(b[i - a.len()] == x);
        }
    }
}

/// The paths below the first `n` children of a branch are the dotted forms of
/// the key paths of those children, each below the key of its child.
proof fn lemma_branch_paths(s: Seq<(String, KeyNode)>, prefix: Option<Seq<char>>, n: nat)
    requires
        n <= s.len(),
        forall|i: int| 0 <= i < s.len() ==> (#[trigger] s[i]).1.wf(),
    ensures
        forall|x: Seq<char>|
            branch_paths(s, prefix, n).contains(x) <==> exists|i: int, p: Seq<Seq<char>>|
                0 <= i < n && #[trigger] reaches(s[i].1@, p) && join(
                    Some(extend(prefix, s[i].0@)),
                    p,
                ) == Some(x),
    decreases s, n,
{
    if n == 0 {
        assert forall|x: Seq<char>| !branch_paths(s, prefix, n).contains(x) by {}
    } else {
        let last = (n - 1) as nat;
        let head = branch_paths(s, prefix, last);
        let under = Some(extend(prefix, s[last as int].0@));
        let tail = node_paths(s[last as int].1, under);
        lemma_branch_paths(s, prefix, last);
        flattening_yields_the_key_paths(s[last as int].1, under);
        assert forall|x: Seq<char>|
            branch_paths(s, prefix, n).contains(x) <==> exists|i: int, p: Seq<Seq<char>>|
                0 <= i < n && #[trigger] reaches(s[i].1@, p) && join(
                    Some(extend(prefix, s[i].0@)),
                    p,
                ) == Some(x) by {
            lemma_contains_concat(head, tail, x);
            if head.contains(x) {
                let (i, p) = choose|i: int, p: Seq<Seq<char>>|
                    0 <= i < last && #[trigger] reaches(s[i].1@, p) && join(
                        Some(extend(prefix, s[i].0@)),
                        p,
                    ) == Some(x);
                assert(0 <= i < n && reaches(s[i].1@, p));
            }
            if tail.contains(x) {
                let p = choose|p: Seq<Seq<char>>|
                    reaches(s[last as int].1@, p) && join(under, p) == Some(x);
                assert(reaches(s[last as int].1@, p));
            }
            if exists|i: int, p: Seq<Seq<char>>|
                0 <= i < n && #[trigger] reaches(s[i].1@, p) && join(
                    Some(extend(prefix, s[i].0@)),
                    p,
                ) == Some(x) {
                let (i, p) = choose|i: int, p: Seq<Seq<char>>|
                    0 <= i < n && #[trigger] reaches(s[i].1@, p) && join(
                        Some(extend(prefix, s[i].0@)),
                        p,
                    ) == Some(x);
                if i < last {
                    assert(head.contains(x));
                } else {
                    assert(tail.contains(x));
                }
            }
        }
    }
}

/// Flattening yields the key paths of the tree, each as a dotted path: a text
/// is among the paths of a well-formed tree exactly when it is the dotted form
/// of one of the tree's key paths.
pub proof fn flattening_yields_the_key_paths(n: KeyNode, prefix: Option<Seq<char>>)
    requires
        n.wf(),
    ensures
        forall|x: Seq<char>|
            node_paths(n, prefix).contains(x) <==> exists|p: Seq<Seq<char>>|
                #[trigger] reaches(n@, p) && join(prefix, p) == Some(x),
    decreases n, 0nat,
{
    match n {
        KeyNode::Node(m) => {
            let s = m@;
            let model = branches_model(s);
            let flat = branch_paths(s, prefix, s.len());
            lemma_branch_paths(s, prefix, s.len());
            assert(node_paths(n, prefix) == flat);
            assert forall|x: Seq<char>|
                node_paths(n, prefix).contains(x) <==> exists|p: Seq<Seq<char>>|
                    #[trigger] reaches(n@, p) && join(prefix, p) == Some(x) by {
                if node_paths(n, prefix).contains(x) {
                    assert(flat.contains(x));
                    let (i, q) = choose|i: int, q: Seq<Seq<char>>|
                        0 <= i < s.len() && #[trigger] reaches(s[i].1@, q) && join(
                            Some(extend(prefix, s[i].0@)),
                            q,
                        ) == Some(x);
                    let p = seq![s[i].0@] + q;
                    crate::assoc::lemma_distinct_first(s, i);
                    lemma_branch(s, s[i].0@, i);
                    assert(p.drop_first() =~= q);
                    assert(reaches(n@, p));
                    assert(join(prefix, p) == Some(x));
                }
                if exists|p: Seq<Seq<char>>| #[trigger] reaches(n@, p) && join(prefix, p) == Some(x) {
                    let p = choose|p: Seq<Seq<char>>|
                        #[trigger] reaches(n@, p) && join(prefix, p) == Some(x);
                    assert(model.contains_key(p[0]));
                    let i = choose|i: int| 0 <= i < s.len() && (#[trigger] s[i]).0@ == p[0];
                    crate::assoc::lemma_distinct_first(s, i);
                    lemma_branch(s, p[0], i);
                    assert(reaches(s[i].1@, p.drop_first()));
                    assert(join(Some(extend(prefix, s[i].0@)), p.drop_first()) == Some(x));
                    assert(flat.contains(x));
                }
            }
        },
        _ => {
            assert forall|x: Seq<char>|
                node_paths(n, prefix).contains(x) <==> exists|p: Seq<Seq<char>>|
                    #[trigger] reaches(n@, p) && join(prefix, p) == Some(x) by {
                let empty = Seq::<Seq<char>>::empty();
                if node_paths(n, prefix).contains(x) {
                    assert(node_paths(n, prefix)[0] == x);
                    assert(reaches(n@, empty) && join(prefix, empty) == Some(x));
                }
                if exists|p: Seq<Seq<char>>| #[trigger] reaches(n@, p) && join(prefix, p) == Some(x) {
                    let p = choose|p: Seq<Seq<char>>|
                        #[trigger] reaches(n@, p) && join(prefix, p) == Some(x);
                    assert(p.len() == 0);
                    assert(node_paths(n, prefix)[0] == x);
                }
            }
        },
    }
}

/// The path of `key` below `prefix`.
fn child_key(prefix: &Option<String>, key: &String) -> (r: String)
    ensures
        r@ == extend(text_of(*prefix), key@),
{
    match prefix {
        Some(p) => {
            let mut path = p.clone();
            proof {
                reveal_strlit(".");
            }
            path.append(".");
            path.append(key.as_str());
            assert(path@ =~= p@ + seq!['.'] + key@);
            path
        },
        None => key.clone(),
    }
}

/// Appends the paths below the children of a branch at `prefix`.
fn branch_keys(m: &Vec<(String, KeyNode)>, keys: &mut Vec<String>, prefix: &Option<String>)
    ensures
        texts(final(keys)@) == texts(old(keys)@) + branch_paths(m@, text_of(*prefix), m@.len()),
    decreases *m,
{
    let ghost start = keys@;
    let mut i: usize = 0;
    assert(texts(keys@) =~= texts(start) + branch_paths(m@, text_of(*prefix), 0));
    while i < m.len()
        invariant
            i <= m.len(),
            texts(keys@) == texts(start) + branch_paths(m@, text_of(*prefix), i as nat),
        decreases m.len() - i,
    {
        let ghost before = keys@;
        let child = child_key(prefix, &m[i].0);
        m[i].1.absolute_keys(keys, Some(child));
        assert(texts(keys@) =~= texts(start) + branch_paths(
            m@,
            text_of(*prefix),
            (i + 1) as nat,
        ));
        i += 1;
    }
}

impl KeyNode {
    /// Flattens the tree into dotted key paths, appended to `keys`.
    ///
    /// `key_from_root` is the path at which this node stands, `None` for the
    /// root. Each `Nil` and each `Value` below the root adds its path; children
    /// come in the order in which their branch holds them.
    pub fn absolute_keys(&self, keys: &mut Vec<String>, key_from_root: Option<String>)
        ensures
            texts(final(keys)@) == texts(old(keys)@) + node_paths(*self, text_of(key_from_root)),
        decreases self,
    {
        match self {
            KeyNode::Node(m) => {
                branch_keys(m, keys, &key_from_root);
            },
            _ => {
                match key_from_root {
                    Some(path) => {
                        let ghost before = keys@;
                        keys.push(path);
                        assert(texts(keys@) =~= texts(before) + seq![path@]);
                    },
                    None => {
                        assert(texts(keys@) =~= texts(keys@) + Seq::<Seq<char>>::empty());
                    },
                }
            },
        }
    }
}

impl PartialEq for KeyNode {
    /// Equality of diff trees, as `same_node` computes it.
    fn eq(&self, other: &KeyNode) -> (r: bool) {
        same_node(self, other)
    }
}

impl vstd::std_specs::cmp::PartialEqSpecImpl for KeyNode {
    open spec fn obeys_eq_spec() -> bool {
        true
    }

    open spec fn eq_spec(&self, other: &KeyNode) -> bool {
        self@ == other@
    }
}

} // verus!
