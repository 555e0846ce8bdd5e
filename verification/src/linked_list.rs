use vstd::prelude::*;

use crate::keyed::Keyed;
use crate::text::Render;
use crate::text::push_str;

verus! {

/// One list element: a value and the arena index of the next node, or
/// `None` for the last node.
struct Node<T> {
    val: T,
    next: Option<usize>,
}

/// A singly linked list with a cached tail handle for O(1) append.
///
/// Nodes live in an arena owned by the list and are linked by index, so
/// every node has exactly one owner and no two lists ever share a node.
/// `head` names the first node, `tail` the last; `length` counts the nodes.
/// The abstract value of a list (its view) is the sequence of the values
/// held by its nodes, in link order.
pub struct LinkedList<T> {
    length: usize,
    nodes: Vec<Node<T>>,
    head: Option<usize>,
    tail: Option<usize>,
}

impl<T> View for LinkedList<T> {
    type V = Seq<T>;

    closed spec fn view(&self) -> Seq<T> {
        self.nodes@.map(|i: int, n: Node<T>| n.val)
    }
}

impl<T> LinkedList<T> {
    /// Structural invariant: the count equals the number of nodes, `head`
    /// and `tail` are absent exactly when the list is empty, and following
    /// `next` links from the head visits every node once and ends at the
    /// tail, which has no successor.
    pub closed spec fn wf(&self) -> bool {
        &&& self.length == self.nodes@.len()
        &&& (self.length == 0 <==> self.head is None)
        &&& (self.length == 0 <==> self.tail is None)
        &&& (self.length > 0 ==> self.head == Some(0usize) && self.tail == Some(
            (self.length - 1) as usize,
        ))
        &&& forall|i: int|
            0 <= i < self.nodes@.len() ==> (#[trigger] self.nodes@[i].next) == (if i + 1
                < self.nodes@.len() {
                Some((i + 1) as usize)
            } else {
                None::<usize>
            })
    }

    /// The position reached after walking `steps` links from the head:
    /// the index of that node, or `None` once the walk has left the list.
    spec fn cursor_at(&self, steps: int) -> Option<usize> {
        if steps < self@.len() {
            Some(steps as usize)
        } else {
            None
        }
    }

    /// Returns an empty list.
    pub fn new() -> (r: Self)
        ensures
            r.wf(),
            r@ == Seq::<T>::empty(),
    {
        let r = LinkedList { length: 0, nodes: Vec::new(), head: None, tail: None };
        proof {
            assert(r@ =~= Seq::<T>::empty());
        }
        r
    }

    /// The number of elements in the list.
    pub fn len(&self) -> (r: usize)
        requires
            self.wf(),
        ensures
            r == self@.len(),
    {
        self.length
    }

    /// Appends `value` as the new last node: the previous tail is linked to
    /// it, and it becomes the tail (and the head too, when the list was
    /// empty). The count grows by exactly one; no other element changes.
    pub fn add(&mut self, value: T)
        requires
            old(self).wf(),
        ensures
            final(self).wf(),
            final(self)@ == old(self)@.push(value),
    {
        let idx = self.nodes.len();
        match self.tail {
            None => {
                self.head = Some(idx);
            },
            Some(t) => {
                self.nodes[t].next = Some(idx);
            },
        }
        self.nodes.push(Node { val: value, next: None });
        self.tail = Some(idx);
        self.length = self.nodes.len();
        proof {
            assert(self@ =~= old(self)@.push(value));
        }
    }

    /// Returns the value at zero-based position `index`, reached by walking
    /// `index` links from the head, or `None` when `index` is negative or
    /// at least the count. The list is not changed.
    pub fn get(&self, index: i32) -> (r: Option<&T>)
        requires
            self.wf(),
        ensures
            match r {
                Some(v) => 0 <= index < self@.len() && *v == self@[index as int],
                None => index < 0 || index >= self@.len(),
            },
    {
        if index < 0 {
            return None;
        }
        let mut remaining: i32 = index;
        let mut cur: Option<usize> = self.head;
        while remaining > 0
            invariant
                self.wf(),
                0 <= remaining <= index,
                cur == self.cursor_at(index - remaining),
            decreases remaining,
        {
            match cur {
                Some(k) => {
                    cur = self.nodes[k].next;
                },
                None => {},
            }
            remaining = remaining - 1;
        }
        match cur {
            Some(k) => Some(&self.nodes[k].val),
            None => None,
        }
    }
}

impl<T> Default for LinkedList<T> {
    /// An empty list, the same as `new`.
    fn default() -> (r: Self)
        ensures
            r.wf(),
            r@ == Seq::<T>::empty(),
    {
        LinkedList::new()
    }
}

/// The textual form of a sequence of values: each value's own form in
/// order, separated by a comma and a space, with no trailing separator;
/// the empty sequence renders as the empty text.
pub open spec fn render_elems<T: Render>(s: Seq<T>) -> Seq<char>
    decreases s.len(),
{
    if s.len() == 0 {
        Seq::empty()
    } else if s.len() == 1 {
        s[0].rendered()
    } else {
        render_elems(s.drop_last()) + ", "@ + s.last().rendered()
    }
}

impl<T: Render> LinkedList<T> {
    /// Renders the list left to right, visiting each node once: the values'
    /// textual forms separated by a comma and a space, with no trailing
    /// separator; an empty list renders as the empty string.
    pub fn render(&self) -> (r: String)
        requires
            self.wf(),
        ensures
            r@ == render_elems(self@),
    {
        let mut out = String::new();
        let mut cur: Option<usize> = self.head;
        let ghost mut i: int = 0;
        proof {
            assert(self@.take(0) =~= Seq::<T>::empty());
        }
        while cur.is_some()
            invariant
                self.wf(),
                0 <= i <= self@.len(),
                cur == self.cursor_at(i),
                out@ == render_elems(self@.take(i)),
            decreases self@.len() - i,
        {
            let k = cur.unwrap();
            if k > 0 {
                push_str(&mut out, ", ");
            }
            let piece = self.nodes[k].val.render_value();
            push_str(&mut out, piece.as_str());
            cur = self.nodes[k].next;
            proof {
                let t1 = self@.take(i + 1);
                assert(t1.drop_last() =~= self@.take(i));
                assert(t1.last() == self@[i]);
                if i == 0 {
                    assert(t1 =~= seq![self@[0]]);
                    assert(out@ =~= render_elems(t1));
                } else {
                    assert(out@ =~= render_elems(t1));
                }
                i = i + 1;
            }
        }
        proof {
            assert(self@.take(i) =~= self@);
        }
        out
    }
}

/// Holds when the sequence is sorted in non-decreasing key order.
pub open spec fn sorted_by_key<T: Keyed>(s: Seq<T>) -> bool {
    forall|i: int, j: int| 0 <= i <= j < s.len() ==> s[i].key() <= s[j].key()
}

/// The merge of two sequences, in non-decreasing key order when each input
/// is sorted: at each step the head with the lesser key is taken, and on a
/// tie the head of the first sequence, so the merge is stable and
/// left-biased.
pub open spec fn merge_seq<T: Keyed>(a: Seq<T>, b: Seq<T>) -> Seq<T>
    decreases a.len() + b.len(),
{
    if a.len() == 0 {
        b
    } else if b.len() == 0 {
        a
    } else if a[0].key() <= b[0].key() {
        seq![a[0]] + merge_seq(a.drop_first(), b)
    } else {
        seq![b[0]] + merge_seq(a, b.drop_first())
    }
}

/// Merge length law: the merge of two sequences has exactly the sum of
/// their lengths, whatever their contents.
pub proof fn lemma_merge_seq_len<T: Keyed>(a: Seq<T>, b: Seq<T>)
    ensures
        merge_seq(a, b).len() == a.len() + b.len(),
    decreases a.len() + b.len(),
{
    if a.len() == 0 {
    } else if b.len() == 0 {
    } else if a[0].key() <= b[0].key() {
        lemma_merge_seq_len(a.drop_first(), b);
    } else {
        lemma_merge_seq_len(a, b.drop_first());
    }
}

/// Merge with an empty second input: the result is the first input itself,
/// equal in content and order. (With an empty first input the result is the
/// second input by definition, so merging two empty sequences is empty.)
pub proof fn lemma_merge_seq_empty_right<T: Keyed>(a: Seq<T>)
    ensures
        merge_seq(a, Seq::<T>::empty()) == a,
{
}

/// Merge content law: the merge holds exactly the elements of its two
/// inputs, with multiplicity, whether or not the inputs are sorted.
pub proof fn lemma_merge_seq_content<T: Keyed>(a: Seq<T>, b: Seq<T>)
    ensures
        merge_seq(a, b).to_multiset() == a.to_multiset().add(b.to_multiset()),
    decreases a.len() + b.len(),
{
    broadcast use vstd::seq_lib::group_to_multiset_ensures;
    broadcast use vstd::multiset::group_multiset_axioms;
    broadcast use vstd::multiset::lemma_multiset_empty_len;

    if a.len() == 0 {
        assert(a.to_multiset().len() == 0);
        assert(merge_seq(a, b).to_multiset() =~= a.to_multiset().add(b.to_multiset()));
    } else if b.len() == 0 {
        assert(b.to_multiset().len() == 0);
        assert(merge_seq(a, b).to_multiset() =~= a.to_multiset().add(b.to_multiset()));
    } else if a[0].key() <= b[0].key() {
        lemma_merge_seq_content(a.drop_first(), b);
        assert(merge_seq(a, b) == seq![a[0]] + merge_seq(a.drop_first(), b));
        vstd::seq_lib::lemma_multiset_commutative(seq![a[0]], merge_seq(a.drop_first(), b));
        assert(a =~= seq![a[0]] + a.drop_first());
        vstd::seq_lib::lemma_multiset_commutative(seq![a[0]], a.drop_first());
        assert(merge_seq(a, b).to_multiset() =~= a.to_multiset().add(b.to_multiset()));
    } else {
        lemma_merge_seq_content(a, b.drop_first());
        assert(merge_seq(a, b) == seq![b[0]] + merge_seq(a, b.drop_first()));
        vstd::seq_lib::lemma_multiset_commutative(seq![b[0]], merge_seq(a, b.drop_first()));
        assert(b =~= seq![b[0]] + b.drop_first());
        vstd::seq_lib::lemma_multiset_commutative(seq![b[0]], b.drop_first());
        assert(merge_seq(a, b).to_multiset() =~= a.to_multiset().add(b.to_multiset()));
    }
}

/// The head of a merge is the head of one of its inputs: the one with the
/// lesser key, and the first input's head on a tie.
pub proof fn lemma_merge_seq_head<T: Keyed>(a: Seq<T>, b: Seq<T>)
    requires
        a.len() + b.len() > 0,
    ensures
        merge_seq(a, b).len() > 0,
        a.len() > 0 && (b.len() == 0 || a[0].key() <= b[0].key()) ==> merge_seq(a, b)[0] == a[0],
        b.len() > 0 && (a.len() == 0 || a[0].key() > b[0].key()) ==> merge_seq(a, b)[0] == b[0],
{
    lemma_merge_seq_len(a, b);
}

/// Merge tie-break law: when the two heads carry equal keys, the merge
/// begins with the head of the first input (left bias), so merging the
/// singletons `[x]` and `[y]` with equal keys yields `[x, y]`.
pub proof fn lemma_merge_seq_left_bias<T: Keyed>(a: Seq<T>, b: Seq<T>)
    requires
        a.len() > 0,
        b.len() > 0,
        a[0].key() == b[0].key(),
    ensures
        merge_seq(a, b).len() > 0,
        merge_seq(a, b)[0] == a[0],
        a.len() == 1 && b.len() == 1 ==> merge_seq(a, b) == seq![a[0], b[0]],
{
    lemma_merge_seq_head(a, b);
    if a.len() == 1 && b.len() == 1 {
        assert(a.drop_first().len() == 0);
        assert(merge_seq(a.drop_first(), b) == b);
        assert(b =~= seq![b[0]]);
        assert(merge_seq(a, b) =~= seq![a[0], b[0]]);
    }
}

/// Merge ordering law: when each input is sorted in non-decreasing key
/// order, so is the merge.
pub proof fn lemma_merge_seq_sorted<T: Keyed>(a: Seq<T>, b: Seq<T>)
    requires
        sorted_by_key(a),
        sorted_by_key(b),
    ensures
        sorted_by_key(merge_seq(a, b)),
    decreases a.len() + b.len(),
{
    if a.len() == 0 {
    } else if b.len() == 0 {
    } else {
        let m = merge_seq(a, b);
        if a[0].key() <= b[0].key() {
            let rest = merge_seq(a.drop_first(), b);
            assert(sorted_by_key(a.drop_first())) by {
                assert forall|i: int, j: int|
                    0 <= i <= j < a.drop_first().len() implies a.drop_first()[i].key()
                    <= a.drop_first()[j].key() by {
                    assert(a[i + 1].key() <= a[j + 1].key());
                }
            }
            lemma_merge_seq_sorted(a.drop_first(), b);
            if rest.len() > 0 {
                lemma_merge_seq_head(a.drop_first(), b);
                assert(a[0].key() <= rest[0].key());
            }
            assert forall|i: int, j: int| 0 <= i <= j < m.len() implies m[i].key()
                <= m[j].key() by {
                if i == 0 && j > 0 {
                    assert(rest[0].key() <= rest[j - 1].key());
                }
            }
        } else {
            let rest = merge_seq(a, b.drop_first());
            assert(sorted_by_key(b.drop_first())) by {
                assert forall|i: int, j: int|
                    0 <= i <= j < b.drop_first().len() implies b.drop_first()[i].key()
                    <= b.drop_first()[j].key() by {
                    assert(b[i + 1].key() <= b[j + 1].key());
                }
            }
            lemma_merge_seq_sorted(a, b.drop_first());
            if rest.len() > 0 {
                lemma_merge_seq_head(a, b.drop_first());
                assert(b[0].key() <= rest[0].key());
            }
            assert forall|i: int, j: int| 0 <= i <= j < m.len() implies m[i].key()
                <= m[j].key() by {
                if i == 0 && j > 0 {
                    assert(rest[0].key() <= rest[j - 1].key());
                }
            }
        }
    }
}

impl<T: Keyed> LinkedList<T> {
    /// Consumes two lists and produces a fresh third list holding a copy of
    /// every element of both. The result is exactly the stable left-biased
    /// merge of the two views: when each input is individually sorted in
    /// non-decreasing key order the result is sorted, and its length is
    /// always the sum of the input lengths, sorted inputs or not.
    pub fn merge(list_a: LinkedList<T>, list_b: LinkedList<T>) -> (r: LinkedList<T>)
        requires
            list_a.wf(),
            list_b.wf(),
        ensures
            r.wf(),
            r@ == merge_seq(list_a@, list_b@),
            r@.len() == list_a@.len() + list_b@.len(),
            sorted_by_key(list_a@) && sorted_by_key(list_b@) ==> sorted_by_key(r@),
    {
        let mut merged: LinkedList<T> = LinkedList::new();
        let mut ptr_a: Option<usize> = list_a.head;
        let mut ptr_b: Option<usize> = list_b.head;
        let ghost mut ia: int = 0;
        let ghost mut jb: int = 0;

        proof {
            assert(list_a@.skip(0) =~= list_a@);
            assert(list_b@.skip(0) =~= list_b@);
            assert(merged@ + merge_seq(list_a@, list_b@) =~= merge_seq(list_a@, list_b@));
        }
        // Walk both lists, taking the lesser head (the first list's on a tie).
        while ptr_a.is_some() && ptr_b.is_some()
            invariant
                list_a.wf(),
                list_b.wf(),
                merged.wf(),
                0 <= ia <= list_a@.len(),
                0 <= jb <= list_b@.len(),
                ptr_a == list_a.cursor_at(ia),
                ptr_b == list_b.cursor_at(jb),
                merged@ + merge_seq(list_a@.skip(ia), list_b@.skip(jb)) == merge_seq(
                    list_a@,
                    list_b@,
                ),
            decreases list_a@.len() - ia + list_b@.len() - jb,
        {
            let ka = ptr_a.unwrap();
            let kb = ptr_b.unwrap();
            let ghost sa = list_a@.skip(ia);
            let ghost sb = list_b@.skip(jb);
            proof {
                assert(sa[0] == list_a@[ia]);
                assert(sb[0] == list_b@[jb]);
            }
            if list_a.nodes[ka].val.le(&list_b.nodes[kb].val) {
                merged.add(list_a.nodes[ka].val.duplicate());
                ptr_a = list_a.nodes[ka].next;
                proof {
                    ia = ia + 1;
                    assert(sa.drop_first() =~= list_a@.skip(ia));
                    assert(merged@ + merge_seq(list_a@.skip(ia), sb) =~= merge_seq(
                        list_a@,
                        list_b@,
                    ));
                }
            } else {
                merged.add(list_b.nodes[kb].val.duplicate());
                ptr_b = list_b.nodes[kb].next;
                proof {
                    jb = jb + 1;
                    assert(sb.drop_first() =~= list_b@.skip(jb));
                    assert(merged@ + merge_seq(sa, list_b@.skip(jb)) =~= merge_seq(
                        list_a@,
                        list_b@,
                    ));
                }
            }
        }
        // Append what remains of the first list, already in order.
        while ptr_a.is_some()
            invariant
                list_a.wf(),
                list_b.wf(),
                merged.wf(),
                0 <= ia <= list_a@.len(),
                0 <= jb <= list_b@.len(),
                ptr_a == list_a.cursor_at(ia),
                ptr_b == list_b.cursor_at(jb),
                ptr_a.is_some() ==> jb == list_b@.len(),
                merged@ + merge_seq(list_a@.skip(ia), list_b@.skip(jb)) == merge_seq(
                    list_a@,
                    list_b@,
                ),
            decreases list_a@.len() - ia,
        {
            let ka = ptr_a.unwrap();
            let ghost sa = list_a@.skip(ia);
            proof {
                assert(list_b@.skip(jb) =~= Seq::<T>::empty());
                lemma_merge_seq_empty_right(sa);
                assert(sa[0] == list_a@[ia]);
            }
            merged.add(list_a.nodes[ka].val.duplicate());
            ptr_a = list_a.nodes[ka].next;
            proof {
                ia = ia + 1;
                lemma_merge_seq_empty_right(list_a@.skip(ia));
                assert(merged@ + merge_seq(list_a@.skip(ia), list_b@.skip(jb)) =~= merge_seq(
                    list_a@,
                    list_b@,
                ));
            }
        }
        // Append what remains of the second list, already in order.
        while ptr_b.is_some()
            invariant
                list_a.wf(),
                list_b.wf(),
                merged.wf(),
                ia == list_a@.len(),
                0 <= jb <= list_b@.len(),
                ptr_b == list_b.cursor_at(jb),
                merged@ + merge_seq(list_a@.skip(ia), list_b@.skip(jb)) == merge_seq(
                    list_a@,
                    list_b@,
                ),
            decreases list_b@.len() - jb,
        {
            let kb = ptr_b.unwrap();
            let ghost sb = list_b@.skip(jb);
            proof {
                assert(list_a@.skip(ia).len() == 0);
                assert(sb[0] == list_b@[jb]);
            }
            merged.add(list_b.nodes[kb].val.duplicate());
            ptr_b = list_b.nodes[kb].next;
            proof {
                jb = jb + 1;
                assert(merged@ + merge_seq(list_a@.skip(ia), list_b@.skip(jb)) =~= merge_seq(
                    list_a@,
                    list_b@,
                ));
            }
        }
        proof {
            assert(list_a@.skip(ia).len() == 0);
            assert(list_b@.skip(jb).len() == 0);
            assert(merged@ + merge_seq(list_a@.skip(ia), list_b@.skip(jb)) =~= merged@);
            lemma_merge_seq_len(list_a@, list_b@);
            if sorted_by_key(list_a@) && sorted_by_key(list_b@) {
                lemma_merge_seq_sorted(list_a@, list_b@);
            }
        }
        merged
    }
}

} // verus!
