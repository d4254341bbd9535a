use vstd::prelude::*;
use std::cmp::Ordering;
use crate::fsnodetypes::FSnode;

verus! {

/// Lexicographic order on byte strings, the order of `String`'s `cmp`:
/// a proper prefix comes first, otherwise the first differing byte decides.
pub open spec fn bytes_lt(a: Seq<u8>, b: Seq<u8>) -> bool
    decreases a.len(),
{
    if a.len() == 0 {
        b.len() > 0
    } else if b.len() == 0 {
        false
    } else if a[0] != b[0] {
        a[0] < b[0]
    } else {
        bytes_lt(a.drop_first(), b.drop_first())
    }
}

pub proof fn lemma_bytes_lt_irreflexive(a: Seq<u8>)
    ensures
        !bytes_lt(a, a),
    decreases a.len(),
{
    if a.len() > 0 {
        lemma_bytes_lt_irreflexive(a.drop_first());
    }
}

pub proof fn lemma_bytes_lt_transitive(a: Seq<u8>, b: Seq<u8>, c: Seq<u8>)
    requires
        bytes_lt(a, b),
        bytes_lt(b, c),
    ensures
        bytes_lt(a, c),
    decreases a.len(),
{
    if a.len() > 0 && b.len() > 0 && c.len() > 0 && a[0] == b[0] && b[0] == c[0] {
        lemma_bytes_lt_transitive(a.drop_first(), b.drop_first(), c.drop_first());
    }
}

/// Two byte strings that neither precedes are equal.
pub proof fn lemma_bytes_lt_total(a: Seq<u8>, b: Seq<u8>)
    requires
        !bytes_lt(a, b),
        !bytes_lt(b, a),
    ensures
        a == b,
    decreases a.len(),
{
    if a.len() == 0 {
        assert(a =~= b);
    } else {
        lemma_bytes_lt_total(a.drop_first(), b.drop_first());
        assert(a =~= seq![a[0]] + a.drop_first());
        assert(b =~= seq![b[0]] + b.drop_first());
    }
}

impl FSnode {
    pub open spec fn is_dir(self) -> bool {
        self is DirLike
    }

    /// The bytes of the node's name, as `String` compares them.
    pub open spec fn key_bytes(self) -> Seq<u8> {
        vstd::utf8::encode_utf8(self.name_of())
    }
}

/// The order in which a directory's entries are listed: directories before
/// files, and within each kind by name.
pub open spec fn node_lt(a: FSnode, b: FSnode) -> bool {
    ||| a.is_dir() && !b.is_dir()
    ||| a.is_dir() == b.is_dir() && bytes_lt(a.key_bytes(), b.key_bytes())
}

pub proof fn lemma_node_lt_irreflexive(a: FSnode)
    ensures
        !node_lt(a, a),
{
    lemma_bytes_lt_irreflexive(a.key_bytes());
}

pub proof fn lemma_node_lt_transitive(a: FSnode, b: FSnode, c: FSnode)
    requires
        node_lt(a, b),
        node_lt(b, c),
    ensures
        node_lt(a, c),
{
    if a.is_dir() == b.is_dir() && b.is_dir() == c.is_dir() {
        lemma_bytes_lt_transitive(a.key_bytes(), b.key_bytes(), c.key_bytes());
    }
}

/// What comes before `b` comes before anything that `b` does not follow.
pub proof fn lemma_node_lt_le(a: FSnode, b: FSnode, c: FSnode)
    requires
        node_lt(a, b),
        !node_lt(c, b),
    ensures
        node_lt(a, c),
{
    if node_lt(b, c) {
        lemma_node_lt_transitive(a, b, c);
    } else {
        if b.is_dir() == c.is_dir() {
            lemma_bytes_lt_total(b.key_bytes(), c.key_bytes());
        }
    }
}

/// Whether `a` comes before `b` in byte order.
pub fn bytes_less(a: &[u8], b: &[u8]) -> (r: bool)
    ensures
        r == bytes_lt(a@, b@),
{
    let mut i: usize = 0;
    assert(a@.skip(0) =~= a@);
    assert(b@.skip(0) =~= b@);
    while i < a.len() && i < b.len() && a[i] == b[i]
        invariant
            i <= a@.len(),
            i <= b@.len(),
            bytes_lt(a@, b@) == bytes_lt(a@.skip(i as int), b@.skip(i as int)),
        decreases a@.len() - i,
    {
        assert(a@.skip(i as int).drop_first() =~= a@.skip(i + 1));
        assert(b@.skip(i as int).drop_first() =~= b@.skip(i + 1));
        i += 1;
    }
    if i < a.len() && i < b.len() {
        a[i] < b[i]
    } else {
        i == a.len() && i < b.len()
    }
}

/// Whether `a` is listed before `b`.
pub fn node_less(a: &FSnode, b: &FSnode) -> (r: bool)
    ensures
        r == node_lt(*a, *b),
{
    let a_dir = match a {
        FSnode::DirLike(_) => true,
        FSnode::Leaf(_) => false,
    };
    let b_dir = match b {
        FSnode::DirLike(_) => true,
        FSnode::Leaf(_) => false,
    };
    if a_dir != b_dir {
        a_dir
    } else {
        bytes_less(a.get_name().as_bytes(), b.get_name().as_bytes())
    }
}

/// Compares two entries of a directory for listing: directories come before
/// files, and entries of the same kind are ordered by name.
pub fn orderer(first: &FSnode, second: &FSnode) -> (r: Ordering)
    ensures
        (r == Ordering::Less) == node_lt(*first, *second),
        (r == Ordering::Greater) == node_lt(*second, *first),
{
    proof {
        if node_lt(*first, *second) && node_lt(*second, *first) {
            lemma_node_lt_transitive(*first, *second, *first);
            lemma_node_lt_irreflexive(*first);
        }
    }
    if node_less(first, second) {
        Ordering::Less
    } else if node_less(second, first) {
        Ordering::Greater
    } else {
        Ordering::Equal
    }
}


/// No line of `r` comes before an earlier one.
pub open spec fn sorted_nodes(r: Seq<FSnode>) -> bool {
    forall|k: int, l: int| 0 <= k < l < r.len() ==> !node_lt(#[trigger] r[l], #[trigger] r[k])
}

/// `r` holds the first `n` lines of `s`, line `k` of `r` being line `p[k]` of
/// `s`, in listing order, lines that compare equal keeping their order.
pub open spec fn sorts_prefix(r: Seq<FSnode>, s: Seq<FSnode>, p: Seq<int>, n: int) -> bool {
    &&& 0 <= n <= s.len()
    &&& r.len() == n
    &&& p.len() == n
    &&& forall|k: int| 0 <= k < n ==> 0 <= #[trigger] p[k] < n && r[k] == s[p[k]]
    &&& forall|k: int, l: int| 0 <= k < l < n ==> #[trigger] p[k] != #[trigger] p[l]
    &&& sorted_nodes(r)
    &&& forall|k: int, l: int|
        0 <= k < l < n && !node_lt(#[trigger] r[k], #[trigger] r[l]) ==> p[k] < p[l]
}

/// `r` is `s` sorted in listing order by a stable sort.
pub open spec fn stable_sorted(r: Seq<FSnode>, s: Seq<FSnode>) -> bool {
    exists|p: Seq<int>| sorts_prefix(r, s, p, s.len() as int)
}

proof fn lemma_insert_step(
    r: Seq<FSnode>,
    s: Seq<FSnode>,
    p: Seq<int>,
    i: int,
    t: int,
)
    requires
        sorts_prefix(r, s, p, i),
        i < s.len(),
        0 <= t <= r.len(),
        forall|k: int| 0 <= k < t ==> !node_lt(s[i], #[trigger] r[k]),
        t < r.len() ==> node_lt(s[i], r[t]),
    ensures
        sorts_prefix(r.insert(t, s[i]), s, p.insert(t, i), i + 1),
{
    let x = s[i];
    let r2 = r.insert(t, x);
    let p2 = p.insert(t, i);
    assert(r2.len() == i + 1);
    assert(p2.len() == i + 1);
    assert forall|k: int| 0 <= k < i + 1 implies r2[k] == (if k < t {
        r[k]
    } else if k == t {
        x
    } else {
        r[k - 1]
    }) && p2[k] == (if k < t {
        p[k]
    } else if k == t {
        i
    } else {
        p[k - 1]
    }) by {}
    assert forall|k: int| 0 <= k < i + 1 implies 0 <= #[trigger] p2[k] < i + 1 && r2[k]
        == s[p2[k]] by {
        if k < t {
        } else if k > t {
            assert(p2[k] == p[k - 1]);
        }
    }
    assert forall|k: int, l: int| 0 <= k < l < i + 1 implies #[trigger] p2[k] != #[trigger] p2[l] by {
        if k < t && l > t {
            assert(p2[l] == p[l - 1]);
        } else if k > t {
            assert(p2[k] == p[k - 1]);
            assert(p2[l] == p[l - 1]);
        } else if k == t && l > t {
            assert(p2[l] == p[l - 1]);
        }
    }
    assert forall|k: int, l: int| 0 <= k < l < i + 1 implies !node_lt(
        #[trigger] r2[l],
        #[trigger] r2[k],
    ) by {
        if l == t {
        } else if k == t {
            assert(r2[l] == r[l - 1]);
            if t < l - 1 {
                assert(!node_lt(r[l - 1], r[t]));
            } else {
                lemma_node_lt_irreflexive(r[t]);
            }
            if node_lt(r[l - 1], x) {
                lemma_node_lt_transitive(r[l - 1], x, r[t]);
            }
        } else if k < t && l > t {
            assert(r2[l] == r[l - 1]);
            assert(!node_lt(r[l - 1], r[k]));
        } else if k > t {
            assert(r2[k] == r[k - 1]);
            assert(r2[l] == r[l - 1]);
            assert(!node_lt(r[l - 1], r[k - 1]));
        }
    }
    assert forall|k: int, l: int|
        0 <= k < l < i + 1 && !node_lt(#[trigger] r2[k], #[trigger] r2[l]) implies p2[k]
        < p2[l] by {
        if l == t {
            assert(p2[k] == p[k]);
        } else if k == t {
            assert(r2[l] == r[l - 1]);
            if t < l - 1 {
                assert(!node_lt(r[l - 1], r[t]));
                lemma_node_lt_le(x, r[t], r[l - 1]);
            }
        } else if k < t && l > t {
            assert(r2[l] == r[l - 1]);
            assert(p2[l] == p[l - 1]);
            assert(!node_lt(r[k], r[l - 1]));
        } else if k > t {
            assert(r2[k] == r[k - 1]);
            assert(r2[l] == r[l - 1]);
            assert(p2[k] == p[k - 1]);
            assert(p2[l] == p[l - 1]);
            assert(!node_lt(r[k - 1], r[l - 1]));
        }
    }
}

/// Sorts nodes into listing order, keeping the order of nodes that compare
/// equal (a stable sort, as `sort_by` is).
pub fn sort_nodes(nodes: Vec<FSnode>) -> (r: Vec<FSnode>)
    ensures
        stable_sorted(r@, nodes@),
{
    let ghost s = nodes@;
    let mut rest = nodes;
    let mut r: Vec<FSnode> = Vec::new();
    let ghost mut p: Seq<int> = Seq::empty();
    while rest.len() > 0
        invariant
            r@.len() + rest@.len() == s.len(),
            rest@ == s.skip(r@.len() as int),
            sorts_prefix(r@, s, p, r@.len() as int),
        decreases rest@.len(),
    {
        let ghost i = r@.len() as int;
        let x = rest.remove(0);
        assert(x == s[i]);
        assert(rest@ =~= s.skip(i + 1));
        let mut t: usize = 0;
        while t < r.len() && !node_less(&x, &r[t])
            invariant
                t <= r@.len(),
                forall|k: int| 0 <= k < t ==> !node_lt(x, #[trigger] r@[k]),
            decreases r@.len() - t,
        {
            t += 1;
        }
        proof {
            lemma_insert_step(r@, s, p, i, t as int);
            p = p.insert(t as int, i);
        }
        r.insert(t, x);
    }
    assert(sorts_prefix(r@, s, p, s.len() as int));
    r
}

} // verus!
