//! A trie over trails: strings of octal digits and dashes that encode a path of
//! coordinates. The nodes live in one flat vector; a node holds its value in
//! slot 0 and one link per trail character in the other slots. Zero means "no
//! link" and "no value".

use vstd::prelude::*;
use vstd::string::*;

verus! {

/// How the coordinates of a path are written in a trail.
#[derive(Debug)]
pub enum Base {
    Octal,
    Decimal,
    Hex,
}

/// The radix of a base.
pub fn base_radix(base: &Base) -> (r: usize)
    ensures
        r == (match base {
            Base::Octal => 8usize,
            Base::Decimal => 10usize,
            Base::Hex => 16usize,
        }),
{
    match base {
        Base::Octal => 8,
        Base::Decimal => 10,
        Base::Hex => 16,
    }
}

/// A node: its value, then a link for `-` and for each of the digits `0` to `7`.
pub type TrieNode = [usize; 10];

/// A trie of trails written in base eight.
pub struct Trie {
    pub nodes: Vec<TrieNode>,
}

/// The bytes a trail is made of: `-` and the octal digits.
pub open spec fn is_trail_byte(c: u8) -> bool {
    c == 45 || (48 <= c && c <= 55)
}

/// The slot of a node that holds the link for trail byte `c`.
pub open spec fn trail_slot(c: u8) -> int {
    if c == 45 {
        1
    } else {
        c - 46
    }
}

/// The node that `trail` leads to from the root, if every link on the way exists.
pub open spec fn reach(nodes: Seq<TrieNode>, trail: Seq<u8>) -> Option<int>
    decreases trail.len(),
{
    if trail.len() == 0 {
        Some(0)
    } else {
        match reach(nodes, trail.drop_last()) {
            Some(p) => {
                let c = trail.last();
                if !is_trail_byte(c) {
                    None
                } else {
                    let q = nodes[p]@[trail_slot(c)];
                    if q == 0 {
                        None
                    } else {
                        Some(q as int)
                    }
                }
            },
            None => None,
        }
    }
}

/// The value stored for `trail`; zero when there is none.
pub open spec fn trail_value(nodes: Seq<TrieNode>, trail: Seq<u8>) -> usize {
    match reach(nodes, trail) {
        Some(k) => nodes[k]@[0],
        None => 0,
    }
}

/// There is a root; every link points forward to an existing node; no two links
/// point to the same node.
pub open spec fn trie_wf(nodes: Seq<TrieNode>) -> bool {
    &&& nodes.len() >= 1
    &&& forall|i: int, s: int|
        0 <= i < nodes.len() && 1 <= s < 10 ==> (#[trigger] nodes[i]@[s]) == 0 || (i < nodes[i]@[s]
            < nodes.len())
    &&& forall|i: int, s: int, j: int, u: int|
        0 <= i < nodes.len() && 1 <= s < 10 && 0 <= j < nodes.len() && 1 <= u < 10
            && #[trigger] nodes[i]@[s] == #[trigger] nodes[j]@[u] && nodes[i]@[s] != 0 ==> i == j
            && s == u
}

/// `new` came from `old` by appending nodes without value and by filling empty
/// links of old nodes with links to appended nodes.
pub open spec fn trie_grown(old: Seq<TrieNode>, new: Seq<TrieNode>) -> bool {
    &&& old.len() <= new.len()
    &&& forall|i: int, s: int|
        0 <= i < old.len() && 0 <= s < 10 ==> #[trigger] new[i]@[s] == old[i]@[s] || (1 <= s
            && old[i]@[s] == 0 && new[i]@[s] >= old.len())
    &&& forall|k: int| old.len() <= k < new.len() ==> #[trigger] new[k]@[0] == 0
}

/// The length of the longest prefix of `trail` whose path already exists.
pub open spec fn known_depth(nodes: Seq<TrieNode>, trail: Seq<u8>) -> nat
    decreases trail.len(),
{
    if reach(nodes, trail) is Some || trail.len() == 0 {
        trail.len()
    } else {
        known_depth(nodes, trail.drop_last())
    }
}

/// Reading `trail` never runs into a byte outside the alphabet: wherever such a
/// byte stands, the part before it already leads nowhere.
pub open spec fn read_stops_in_alphabet(nodes: Seq<TrieNode>, trail: Seq<u8>) -> bool {
    forall|i: int|
        0 <= i < trail.len() && !is_trail_byte(#[trigger] trail[i]) ==> reach(nodes, trail.take(i))
            is None
}

/// Every byte of `trail` is in the alphabet.
pub open spec fn is_trail(trail: Seq<u8>) -> bool {
    forall|i: int| 0 <= i < trail.len() ==> is_trail_byte(#[trigger] trail[i])
}


/// The octal digit character for `d < 8`.
pub open spec fn octal_char(d: nat) -> char {
    if d == 0 { '0' } else if d == 1 { '1' } else if d == 2 { '2' } else if d == 3 { '3' }
    else if d == 4 { '4' } else if d == 5 { '5' } else if d == 6 { '6' } else { '7' }
}

/// `n` written in base eight, without leading zeros (zero is `0`).
pub open spec fn octal_text(n: nat) -> Seq<char>
    decreases n,
{
    if n < 8 {
        seq![octal_char(n)]
    } else {
        octal_text(n / 8) + seq![octal_char(n % 8)]
    }
}

/// A coordinate written in base eight: its 32-bit two's complement, as Rust's `{:o}` does.
pub open spec fn coord_octal(v: i32) -> Seq<char> {
    octal_text(v as u32 as nat)
}

/// The trail of a path: each coordinate pair as `x-y-` in base eight.
pub open spec fn trail_text(path: Seq<(i32, i32)>) -> Seq<char>
    decreases path.len(),
{
    if path.len() == 0 {
        Seq::empty()
    } else {
        trail_text(path.drop_last()) + coord_octal(path.last().0) + seq!['-'] + coord_octal(
            path.last().1,
        ) + seq!['-']
    }
}

fn octal_digit_str(d: u32) -> (r: &'static str)
    requires
        d < 8,
    ensures
        r@ == seq![octal_char(d as nat)],
{
    proof {
        reveal_strlit("0");
        reveal_strlit("1");
        reveal_strlit("2");
        reveal_strlit("3");
        reveal_strlit("4");
        reveal_strlit("5");
        reveal_strlit("6");
        reveal_strlit("7");
    }
    if d == 0 {
        "0"
    } else if d == 1 {
        "1"
    } else if d == 2 {
        "2"
    } else if d == 3 {
        "3"
    } else if d == 4 {
        "4"
    } else if d == 5 {
        "5"
    } else if d == 6 {
        "6"
    } else {
        "7"
    }
}

fn push_octal(s: &mut String, n: u32)
    ensures
        final(s)@ == old(s)@ + octal_text(n as nat),
    decreases n,
{
    if n >= 8 {
        push_octal(s, n / 8);
    }
    s.append(octal_digit_str(n % 8));
    proof {
        if n < 8 {
            assert(n % 8 == n);
        }
    }
    assert(s@ =~= old(s)@ + octal_text(n as nat));
}

fn push_coord(s: &mut String, v: i32)
    ensures
        final(s)@ == old(s)@ + coord_octal(v) + seq!['-'],
{
    push_octal(s, v as u32);
    proof {
        reveal_strlit("-");
    }
    s.append("-");
    assert(s@ =~= old(s)@ + coord_octal(v) + seq!['-']);
}

proof fn lemma_reach_bounds(nodes: Seq<TrieNode>, t: Seq<u8>)
    requires
        trie_wf(nodes),
    ensures
        reach(nodes, t) matches Some(k) ==> 0 <= k < nodes.len(),
    decreases t.len(),
{
    if t.len() > 0 {
        lemma_reach_bounds(nodes, t.drop_last());
    }
}

proof fn lemma_reach_grown(old: Seq<TrieNode>, new: Seq<TrieNode>, t: Seq<u8>)
    requires
        trie_wf(old),
        trie_grown(old, new),
    ensures
        reach(old, t) is Some ==> reach(new, t) == reach(old, t),
    decreases t.len(),
{
    if t.len() > 0 {
        lemma_reach_grown(old, new, t.drop_last());
        lemma_reach_bounds(old, t.drop_last());
    }
}

proof fn lemma_reach_back(old: Seq<TrieNode>, new: Seq<TrieNode>, t: Seq<u8>)
    requires
        trie_wf(new),
        trie_grown(old, new),
    ensures
        reach(new, t) is Some && reach(new, t)->0 < old.len() ==> reach(old, t) == reach(new, t),
    decreases t.len(),
{
    if t.len() > 0 {
        lemma_reach_back(old, new, t.drop_last());
        lemma_reach_bounds(new, t.drop_last());
    }
}

proof fn lemma_value_grown(old: Seq<TrieNode>, new: Seq<TrieNode>, t: Seq<u8>)
    requires
        trie_wf(old),
        trie_wf(new),
        trie_grown(old, new),
    ensures
        trail_value(new, t) == trail_value(old, t),
{
    lemma_reach_grown(old, new, t);
    lemma_reach_back(old, new, t);
    lemma_reach_bounds(old, t);
    lemma_reach_bounds(new, t);
    match reach(new, t) {
        Some(k) => {
            if k < old.len() {
                assert(new[k]@[0] == old[k]@[0]);
            } else {
                assert(new[k]@[0] == 0);
            }
        },
        None => {},
    }
}

proof fn lemma_reach_same_links(a: Seq<TrieNode>, b: Seq<TrieNode>, t: Seq<u8>)
    requires
        a.len() == b.len(),
        forall|i: int, s: int| 0 <= i < a.len() && 1 <= s < 10 ==> #[trigger] a[i]@[s] == b[i]@[s],
        trie_wf(a),
    ensures
        reach(a, t) == reach(b, t),
    decreases t.len(),
{
    if t.len() > 0 {
        lemma_reach_same_links(a, b, t.drop_last());
        lemma_reach_bounds(a, t.drop_last());
    }
}

proof fn lemma_reach_injective(nodes: Seq<TrieNode>, t1: Seq<u8>, t2: Seq<u8>)
    requires
        trie_wf(nodes),
        reach(nodes, t1) is Some,
        reach(nodes, t1) == reach(nodes, t2),
    ensures
        t1 == t2,
    decreases t1.len(),
{
    lemma_reach_bounds(nodes, t1);
    if t1.len() == 0 {
        if t2.len() > 0 {
            lemma_reach_bounds(nodes, t2.drop_last());
        }
        assert(t1 =~= t2);
    } else {
        lemma_reach_bounds(nodes, t1.drop_last());
        if t2.len() == 0 {
            assert(false);
        } else {
            lemma_reach_bounds(nodes, t2.drop_last());
            let p1 = reach(nodes, t1.drop_last())->0;
            let p2 = reach(nodes, t2.drop_last())->0;
            let s1 = trail_slot(t1.last());
            let s2 = trail_slot(t2.last());
            assert(nodes[p1]@[s1] == nodes[p2]@[s2]);
            assert(p1 == p2 && s1 == s2);
            lemma_reach_injective(nodes, t1.drop_last(), t2.drop_last());
            assert(t1 =~= t1.drop_last().push(t1.last()));
            assert(t2 =~= t2.drop_last().push(t2.last()));
        }
    }
}

proof fn lemma_reach_prefix_none(nodes: Seq<TrieNode>, t: Seq<u8>, i: int)
    requires
        0 <= i <= t.len(),
        reach(nodes, t.take(i)) is None,
    ensures
        reach(nodes, t) is None,
    decreases t.len() - i,
{
    if i == t.len() {
        assert(t.take(i) =~= t);
    } else {
        assert(t.take(i + 1).drop_last() =~= t.take(i));
        lemma_reach_prefix_none(nodes, t, i + 1);
    }
}

proof fn lemma_known_depth(nodes: Seq<TrieNode>, b: Seq<u8>, m: int, k: int)
    requires
        0 <= m <= k <= b.len(),
        m < b.len(),
        reach(nodes, b.take(m)) is Some,
        reach(nodes, b.take(m + 1)) is None,
    ensures
        known_depth(nodes, b.take(k)) == m,
    decreases k,
{
    if k > m {
        let bk = b.take(k);
        assert(bk.take(m + 1) =~= b.take(m + 1));
        lemma_reach_prefix_none(nodes, bk, m + 1);
        assert(bk.drop_last() =~= b.take(k - 1));
        lemma_known_depth(nodes, b, m, k - 1);
    }
}

proof fn lemma_single_root(nodes: Seq<TrieNode>, t: Seq<u8>)
    requires
        nodes.len() == 1,
        forall|s: int| 0 <= s < 10 ==> #[trigger] nodes[0]@[s] == 0,
    ensures
        reach(nodes, t) == (if t.len() == 0 { Some(0int) } else { None }),
    decreases t.len(),
{
    if t.len() > 0 {
        lemma_single_root(nodes, t.drop_last());
    }
}

/// Appending an empty node and linking it from an empty slot keeps the trie well
/// formed and only grows it.
proof fn lemma_link_new_node(
    old0: Seq<TrieNode>,
    nodes: Seq<TrieNode>,
    new: Seq<TrieNode>,
    ti: int,
    slot: int,
)
    requires
        trie_wf(nodes),
        trie_grown(old0, nodes),
        0 <= ti < nodes.len(),
        nodes.len() < usize::MAX,
        1 <= slot < 10,
        nodes[ti]@[slot] == 0,
        new.len() == nodes.len() + 1,
        new[ti]@ == nodes[ti]@.update(slot, nodes.len() as usize),
        forall|k: int| 0 <= k < nodes.len() && k != ti ==> #[trigger] new[k] == nodes[k],
        forall|s: int| 0 <= s < 10 ==> #[trigger] new[nodes.len() as int]@[s] == 0,
        new[ti]@.len() == 10,
    ensures
        trie_wf(new),
        trie_grown(old0, new),
        trie_grown(nodes, new),
{
    let n = nodes.len() as int;
    assert forall|i: int, s: int| 0 <= i < new.len() && 1 <= s < 10 implies (#[trigger] new[i]@[s])
        == 0 || (i < new[i]@[s] < new.len()) by {
        if i < n && i != ti {
            assert(new[i] == nodes[i]);
        }
    }
    assert forall|i: int, s: int, j: int, u: int|
        0 <= i < new.len() && 1 <= s < 10 && 0 <= j < new.len() && 1 <= u < 10
            && #[trigger] new[i]@[s] == #[trigger] new[j]@[u] && new[i]@[s] != 0 implies i == j && s
        == u by {
        if i < n && i != ti {
            assert(new[i] == nodes[i]);
        }
        if j < n && j != ti {
            assert(new[j] == nodes[j]);
        }
        if i == ti && s == slot {
            if !(j == ti && u == slot) {
                assert(new[j]@[u] == nodes[j]@[u]);
            }
        } else if j == ti && u == slot {
            assert(new[i]@[s] == nodes[i]@[s]);
        } else {
            assert(new[i]@[s] == nodes[i]@[s]);
            assert(new[j]@[u] == nodes[j]@[u]);
        }
    }
    assert forall|i: int, s: int| 0 <= i < old0.len() && 0 <= s < 10 implies #[trigger] new[i]@[s]
        == old0[i]@[s] || (1 <= s && old0[i]@[s] == 0 && new[i]@[s] >= old0.len()) by {
        if i != ti {
            assert(new[i] == nodes[i]);
        }
        assert(nodes[i]@[s] == old0[i]@[s] || (1 <= s && old0[i]@[s] == 0 && nodes[i]@[s]
            >= old0.len()));
    }
    assert forall|k: int| old0.len() <= k < new.len() implies #[trigger] new[k]@[0] == 0 by {
        if k < n && k != ti {
            assert(new[k] == nodes[k]);
        }
        if k == ti {
            assert(nodes[k]@[0] == 0);
        }
    }
    assert forall|i: int, s: int| 0 <= i < nodes.len() && 0 <= s < 10 implies #[trigger] new[i]@[s]
        == nodes[i]@[s] || (1 <= s && nodes[i]@[s] == 0 && new[i]@[s] >= nodes.len()) by {
        if i != ti {
            assert(new[i] == nodes[i]);
        }
    }
}

impl Trie {
    /// The trie is well formed (see `trie_wf`).
    pub open spec fn wf(&self) -> bool {
        trie_wf(self.nodes@)
    }

    /// The value stored for the trail with bytes `trail`; zero when there is none.
    pub open spec fn value_of(&self, trail: Seq<u8>) -> usize {
        trail_value(self.nodes@, trail)
    }

    /// An empty trie: a lone root, and no trail holds a value.
    pub fn new() -> (r: Trie)
        ensures
            r.wf(),
            r.nodes@.len() == 1,
            forall|s: int| 0 <= s < 10 ==> #[trigger] r.nodes@[0]@[s] == 0,
            forall|t: Seq<u8>| #[trigger] r.value_of(t) == 0,
    {
        let r = Trie { nodes: vec![[0usize; 10]] };
        proof {
            assert forall|t: Seq<u8>| #[trigger] r.value_of(t) == 0 by {
                lemma_single_root(r.nodes@, t);
            }
        }
        r
    }

    /// The value stored for `trail`, zero when there is none. The trie is not changed.
    pub fn read(&mut self, trail: &str, trace: bool) -> (r: usize)
        requires
            old(self).wf(),
            read_stops_in_alphabet(old(self).nodes@, trail.spec_bytes()),
        ensures
            final(self).nodes@ == old(self).nodes@,
            r == old(self).value_of(trail.spec_bytes()),
    {
        self.walk(trail, false, 0, false, trace)
    }

    /// Store `value` for `trail`, creating the nodes it needs. Unless `clobber`
    /// is set, the trail must not hold a value yet. No other trail changes.
    pub fn write(&mut self, trail: &str, value: usize, clobber: bool, trace: bool)
        requires
            old(self).wf(),
            is_trail(trail.spec_bytes()),
            clobber || old(self).value_of(trail.spec_bytes()) == 0,
            old(self).nodes@.len() + trail.spec_bytes().len() <= usize::MAX,
        ensures
            final(self).wf(),
            final(self).value_of(trail.spec_bytes()) == value,
            forall|t: Seq<u8>| t != trail.spec_bytes() ==> #[trigger] final(self).value_of(t)
                == old(self).value_of(t),
            final(self).nodes@.len() == old(self).nodes@.len() + trail.spec_bytes().len()
                - known_depth(old(self).nodes@, trail.spec_bytes()),
            forall|i: int, s: int|
                0 <= i < old(self).nodes@.len() && 1 <= s < 10 ==> #[trigger] final(self).nodes@[i]@[s]
                    == old(self).nodes@[i]@[s] || (old(self).nodes@[i]@[s] == 0
                    && final(self).nodes@[i]@[s] >= old(self).nodes@.len()),
            reach(final(self).nodes@, trail.spec_bytes()) is Some,
            forall|i: int|
                0 <= i < final(self).nodes@.len() && reach(final(self).nodes@, trail.spec_bytes())
                    != Some(i) ==> #[trigger] final(self).nodes@[i]@[0] == (if i < old(
                    self).nodes@.len() {
                    old(self).nodes@[i]@[0]
                } else {
                    0
                }),
            reach(old(self).nodes@, trail.spec_bytes()) is Some && old(self).value_of(
                trail.spec_bytes(),
            ) == value ==> final(self).nodes@ == old(self).nodes@,
    {
        self.walk(trail, true, value, clobber, trace);
    }


    /// The trail of `path`: every `(x, y)` written as `x-y-` in base eight (negative
    /// coordinates as their 32-bit two's complement).
    pub fn path_to_trail(&self, path: &Vec<(i32, i32)>, _trace: bool) -> (r: String)
        ensures
            r@ == trail_text(path@),
    {
        let mut hash = String::new();
        let mut i: usize = 0;
        while i < path.len()
            invariant
                i <= path@.len(),
                hash@ == trail_text(path@.take(i as int)),
            decreases path@.len() - i,
        {
            let (x, y) = path[i];
            push_coord(&mut hash, x);
            push_coord(&mut hash, y);
            assert(path@.take(i + 1).drop_last() =~= path@.take(i as int));
            assert(hash@ =~= trail_text(path@.take(i + 1)));
            i = i + 1;
        }
        assert(path@.take(path@.len() as int) =~= path@);
        hash
    }

    /// Follow `trail` from the root. Reading returns the value found (zero where a
    /// link is missing); writing creates the missing nodes and stores `value`.
    fn walk(&mut self, trail: &str, write: bool, value: usize, clobber: bool, _trace: bool) -> (r:
        usize)
        requires
            old(self).wf(),
            write ==> is_trail(trail.spec_bytes()),
            write ==> clobber || old(self).value_of(trail.spec_bytes()) == 0,
            write ==> old(self).nodes@.len() + trail.spec_bytes().len() <= usize::MAX,
            !write ==> read_stops_in_alphabet(old(self).nodes@, trail.spec_bytes()),
        ensures
            final(self).wf(),
            !write ==> final(self).nodes@ == old(self).nodes@,
            !write ==> r == old(self).value_of(trail.spec_bytes()),
            write ==> r == value,
            write ==> final(self).value_of(trail.spec_bytes()) == value,
            write ==> forall|t: Seq<u8>| t != trail.spec_bytes() ==> #[trigger] final(self).value_of(
                t) == old(self).value_of(t),
            write ==> final(self).nodes@.len() == old(self).nodes@.len() + trail.spec_bytes().len()
                - known_depth(old(self).nodes@, trail.spec_bytes()),
            write ==> forall|i: int, s: int|
                0 <= i < old(self).nodes@.len() && 1 <= s < 10 ==> #[trigger] final(self).nodes@[i]@[s]
                    == old(self).nodes@[i]@[s] || (old(self).nodes@[i]@[s] == 0
                    && final(self).nodes@[i]@[s] >= old(self).nodes@.len()),
            write ==> reach(final(self).nodes@, trail.spec_bytes()) is Some,
            write ==> forall|i: int|
                0 <= i < final(self).nodes@.len() && reach(final(self).nodes@, trail.spec_bytes())
                    != Some(i) ==> #[trigger] final(self).nodes@[i]@[0] == (if i < old(
                    self).nodes@.len() {
                    old(self).nodes@[i]@[0]
                } else {
                    0
                }),
            write ==> (reach(old(self).nodes@, trail.spec_bytes()) is Some && old(self).value_of(
                trail.spec_bytes(),
            ) == value ==> final(self).nodes@ == old(self).nodes@),
    {
        let bytes = trail.as_bytes();
        let ghost b = bytes@;
        let ghost old_nodes = self.nodes@;
        let mut t: TrieNode = self.nodes[0];
        let mut ti: usize = 0;
        let mut writing: bool = false;
        let mut len: usize = self.nodes.len();
        let mut i: usize = 0;
        let ghost mut ws: int = 0;
        assert(b.take(0) =~= Seq::<u8>::empty());
        while i < bytes.len()
            invariant
                bytes@ == b,
                b == trail.spec_bytes(),
                0 <= i <= b.len(),
                trie_wf(old_nodes),
                trie_wf(self.nodes@),
                len == self.nodes@.len(),
                ti < len,
                t == self.nodes@[ti as int],
                reach(self.nodes@, b.take(i as int)) == Some(ti as int),
                !writing ==> self.nodes@ == old_nodes,
                writing ==> write,
                write ==> trie_grown(old_nodes, self.nodes@),
                write ==> is_trail(b),
                write ==> old_nodes.len() + b.len() <= usize::MAX,
                len <= old_nodes.len() + i,
                !write ==> read_stops_in_alphabet(old_nodes, b),
                !write ==> self.nodes@ == old_nodes,
                old_nodes == old(self).nodes@,
                writing ==> forall|s: int| 0 <= s < 10 ==> #[trigger] t@[s] == 0,
                writing ==> 0 <= ws <= i && ws < b.len() && known_depth(old_nodes, b) == ws && len
                    == old_nodes.len() + (i - ws),
            decreases b.len() - i,
        {
            let c = bytes[i];
            assert(b.take(i + 1).drop_last() =~= b.take(i as int));
            assert(b.take(i + 1).last() == c);
            assert(is_trail_byte(c));
            let slot: usize = if c == 45 {
                1
            } else {
                (c - 46) as usize
            };
            let mut linked = false;
            if !writing {
                let next_ti = t[slot];
                if next_ti != 0 {
                    ti = next_ti;
                    t = self.nodes[ti];
                    linked = true;
                } else if !write {
                    proof {
                        lemma_reach_prefix_none(self.nodes@, b, i + 1);
                    }
                    return 0;
                } else {
                    proof {
                        lemma_known_depth(old_nodes, b, i as int, b.len() as int);
                        assert(b.take(b.len() as int) =~= b);
                        ws = i as int;
                    }
                    writing = true;
                }
            }
            if !linked {
                let ghost before = self.nodes@;
                let mut node = self.nodes[ti];
                node[slot] = len;
                self.nodes.set(ti, node);
                let fresh: TrieNode = [0usize; 10];
                self.nodes.push(fresh);
                proof {
                    lemma_link_new_node(old_nodes, before, self.nodes@, ti as int, slot as int);
                    lemma_reach_grown(before, self.nodes@, b.take(i as int));
                }
                ti = len;
                t = fresh;
                len = len + 1;
            }
            i = i + 1;
        }
        assert(b.take(b.len() as int) =~= b);
        if write {
            proof {
                lemma_value_grown(old_nodes, self.nodes@, b);
            }
            let ghost grown = self.nodes@;
            assert(reach(grown, b) == Some(ti as int));
            let mut node = self.nodes[ti];
            node[0] = value;
            self.nodes.set(ti, node);
            proof {
                if !writing {
                    assert(known_depth(old_nodes, b) == b.len());
                    if trail_value(old_nodes, b) == value {
                        assert(node =~= old_nodes[ti as int]);
                        assert(self.nodes@ =~= old_nodes);
                    }
                }
                lemma_reach_same_links(grown, self.nodes@, b);
                assert forall|k: int|
                    0 <= k < self.nodes@.len() && reach(self.nodes@, b) != Some(k) implies #[trigger] self.nodes@[k]@[0]
                    == (if k < old_nodes.len() { old_nodes[k]@[0] } else { 0 }) by {
                    assert(self.nodes@[k] == grown[k]);
                    if k < old_nodes.len() {
                        assert(grown[k]@[0] == old_nodes[k]@[0] || (1 <= 0int && old_nodes[k]@[0] == 0 && grown[k]@[0] >= old_nodes.len()));
                    }
                }
                assert forall|k: int, s: int|
                    0 <= k < old_nodes.len() && 1 <= s < 10 implies #[trigger] self.nodes@[k]@[s]
                    == old_nodes[k]@[s] || (old_nodes[k]@[s] == 0 && self.nodes@[k]@[s] >= old_nodes.len()) by {
                    if k == ti {
                        assert(self.nodes@[k]@[s] == grown[k]@[s]);
                    } else {
                        assert(self.nodes@[k] == grown[k]);
                    }
                }
                assert forall|tt: Seq<u8>| tt != b implies #[trigger] trail_value(self.nodes@, tt)
                    == trail_value(old_nodes, tt) by {
                    lemma_reach_same_links(grown, self.nodes@, tt);
                    lemma_value_grown(old_nodes, grown, tt);
                    lemma_reach_bounds(grown, tt);
                    if reach(grown, tt) == Some(ti as int) {
                        lemma_reach_injective(grown, tt, b);
                    }
                    if reach(grown, tt) is Some {
                        let k = reach(grown, tt)->0;
                        assert(self.nodes@[k] == grown[k]);
                    }
                }
            }
            return value;
        }
        t[0]
    }
}

} // verus!
