//! Merging two decode trees according to the list and overflow rules.
//!
//! The rules are stated on the shapes of the trees ([`merge_tree`]); the
//! executable merge follows them node for node.

use vstd::prelude::*;

use crate::error::DecodeError;
use crate::node::{
    entry_tree, entry_trees, lemma_entries_push, lemma_entries_update, lemma_entry_trees,
    lemma_trees_of, lemma_trees_push, lemma_trees_update, tree_of, trees_of, Node, Tree,
};
use crate::options::DecodeOptions;
use crate::overflow::{
    array_to_numeric_object, canonical_index, index_text, index_to_string, max_canonical,
    max_index, max_numeric_index, numeric_entries, parse_canonical_index,
};
use crate::value::Value;

verus! {

// ---------------------------------------------------------------------------
// The rules, on shapes.
// ---------------------------------------------------------------------------

/// Whether a tree is the placeholder.
pub open spec fn is_undef(t: Tree) -> bool {
    t is Undefined
}

/// Whether a tree is an object or an overflow object.
pub open spec fn map_like(t: Tree) -> bool {
    t is Object || t is Overflow
}

/// Whether some item of a list is the placeholder.
pub open spec fn has_undefined(s: Seq<Tree>) -> bool {
    exists|i: int| 0 <= i < s.len() && is_undef(#[trigger] s[i])
}

/// Whether every item of a list is a placeholder, an object or an overflow object.
pub open spec fn all_map_like_or_undefined(s: Seq<Tree>) -> bool {
    forall|i: int| 0 <= i < s.len() ==> is_undef(#[trigger] s[i]) || map_like(s[i])
}

/// The items of a list that are not placeholders, in order.
pub open spec fn defined(s: Seq<Tree>) -> Seq<Tree>
    decreases s.len(),
{
    if s.len() == 0 {
        Seq::empty()
    } else if is_undef(s.last()) {
        defined(s.drop_last())
    } else {
        defined(s.drop_last()).push(s.last())
    }
}

/// A list with holes, overlaid position by position with the defined items
/// of a source list, and stretched with placeholders to the longer length.
pub open spec fn fill(ts: Seq<Tree>, ss: Seq<Tree>) -> Seq<Tree> {
    Seq::new(
        if ss.len() > ts.len() {
            ss.len()
        } else {
            ts.len()
        },
        |i: int|
            if i < ss.len() && !is_undef(ss[i]) {
                ss[i]
            } else if i < ts.len() {
                ts[i]
            } else {
                Tree::Undefined
            },
    )
}

/// A merged list: kept as a list, unless lists are not parsed and a hole
/// remains, in which case it becomes its numeric object.
pub open spec fn list_result(items: Seq<Tree>, parse_lists: bool) -> Tree {
    if !parse_lists && has_undefined(items) {
        Tree::Object(numeric_entries(items, false))
    } else {
        Tree::List(items)
    }
}

/// The position of the first entry with key `k`.
pub open spec fn find_key(es: Seq<(Seq<char>, Tree)>, k: Seq<char>) -> Option<int>
    decreases es.len(),
{
    if es.len() == 0 {
        None
    } else {
        match find_key(es.drop_last(), k) {
            Some(j) => Some(j),
            None => if es.last().0 == k {
                Some(es.len() - 1)
            } else {
                None
            },
        }
    }
}

/// Sets the value under `k`: in place when the key is present, appended
/// otherwise.
pub open spec fn map_insert(es: Seq<(Seq<char>, Tree)>, k: Seq<char>, v: Tree) -> Seq<(Seq<char>, Tree)> {
    match find_key(es, k) {
        Some(j) => es.update(j, (es[j].0, v)),
        None => es.push((k, v)),
    }
}

/// The next overflow index, saturating at the largest `usize`.
pub open spec fn next_index(m: nat) -> nat {
    if m < usize::MAX {
        m + 1
    } else {
        m
    }
}

/// The entries of an object or overflow object.
pub open spec fn source_entries(s: Tree) -> Seq<(Seq<char>, Tree)> {
    match s {
        Tree::Object(es) => es,
        Tree::Overflow(es, _) => es,
        _ => Seq::empty(),
    }
}

/// The first `n` source items merged into a list position by position: a
/// placeholder leaves its position alone, other items merge into the item
/// there, and items past the end are appended.
pub open spec fn list_fold(acc0: Seq<Tree>, ss: Seq<Tree>, n: nat, p: bool) -> Seq<Tree>
    decreases ss, n,
{
    if n == 0 || n > ss.len() {
        acc0
    } else {
        let acc = list_fold(acc0, ss, (n - 1) as nat, p);
        let k = n - 1;
        if k < acc.len() {
            if is_undef(ss[k]) {
                acc
            } else {
                acc.update(k, merge_tree(acc[k], ss[k], p))
            }
        } else {
            acc.push(ss[k])
        }
    }
}

/// The first `n` source items merged into an object under the text of their
/// positions, placeholders left out.
pub open spec fn map_list_fold(es0: Seq<(Seq<char>, Tree)>, ss: Seq<Tree>, n: nat, p: bool) -> Seq<(Seq<char>, Tree)>
    decreases ss, n,
{
    if n == 0 || n > ss.len() {
        es0
    } else {
        let es = map_list_fold(es0, ss, (n - 1) as nat, p);
        let k = n - 1;
        if is_undef(ss[k]) {
            es
        } else {
            match find_key(es, index_text(k as nat)) {
                Some(j) => es.update(j, (es[j].0, merge_tree(es[j].1, ss[k], p))),
                None => es.push((index_text(k as nat), ss[k])),
            }
        }
    }
}

/// The first `n` source entries merged into an object: a present key merges
/// its value into the value there, a new key is appended.
pub open spec fn entries_fold(es0: Seq<(Seq<char>, Tree)>, ses: Seq<(Seq<char>, Tree)>, n: nat, p: bool) -> Seq<(Seq<char>, Tree)>
    decreases ses, n,
{
    if n == 0 || n > ses.len() {
        es0
    } else {
        let es = entries_fold(es0, ses, (n - 1) as nat, p);
        let k = n - 1;
        match find_key(es, ses[k].0) {
            Some(j) => es.update(j, (es[j].0, merge_tree(es[j].1, ses[k].1, p))),
            None => es.push(ses[k]),
        }
    }
}

/// The first `n` source items appended to an overflow object, each under the
/// next index; placeholders are skipped.
pub open spec fn overflow_list_fold(es0: Seq<(Seq<char>, Tree)>, m0: nat, ss: Seq<Tree>, n: nat) -> (Seq<(Seq<char>, Tree)>, nat)
    decreases n,
{
    if n == 0 || n > ss.len() {
        (es0, m0)
    } else {
        let prev = overflow_list_fold(es0, m0, ss, (n - 1) as nat);
        let k = n - 1;
        if is_undef(ss[k]) {
            prev
        } else {
            let m = next_index(prev.1);
            (map_insert(prev.0, index_text(m), ss[k]), m)
        }
    }
}

/// The greatest index seen after the first `n` source keys: each canonical
/// key raises the tracked index to at least itself.
pub open spec fn track_max(m0: Option<usize>, ses: Seq<(Seq<char>, Tree)>, n: nat) -> Option<usize>
    decreases n,
{
    if n == 0 || n > ses.len() {
        m0
    } else {
        let m = track_max(m0, ses, (n - 1) as nat);
        match canonical_index(ses[n - 1].0) {
            Some(i) => Some(
                match m {
                    Some(x) => max_index(x, i),
                    None => i,
                },
            ),
            None => m,
        }
    }
}

/// The first `n` overflow entries moved one index up: canonical keys name
/// the next index, other keys stay.
pub open spec fn shift_fold(es0: Seq<(Seq<char>, Tree)>, ses: Seq<(Seq<char>, Tree)>, n: nat) -> Seq<(Seq<char>, Tree)>
    decreases n,
{
    if n == 0 || n > ses.len() {
        es0
    } else {
        let es = shift_fold(es0, ses, (n - 1) as nat);
        let k = n - 1;
        match canonical_index(ses[k].0) {
            Some(i) => map_insert(es, index_text(i as nat + 1), ses[k].1),
            None => map_insert(es, ses[k].0, ses[k].1),
        }
    }
}

/// `o`, or `d` when there is none.
pub open spec fn index_or(o: Option<usize>, d: usize) -> usize {
    match o {
        Some(x) => x,
        None => d,
    }
}

/// The merge of a source tree into a target tree.
///
/// A null source leaves the target. A source that is not object-like joins
/// lists (filling holes, merging object items position by position, or
/// appending), is added to objects under its position, appended to overflow
/// objects under the next index, or pairs with a scalar target in a list.
/// An object-like source merges key by key into objects, overflow objects
/// and the numeric object of a list, tracking the greatest index whenever an
/// overflow object takes part; it replaces a placeholder, shifts an overflow
/// source one index up behind a scalar target, and otherwise pairs with the
/// target in a list.
pub open spec fn merge_tree(t: Tree, s: Tree, p: bool) -> Tree
    decreases s, 0nat,
{
    if s == Tree::Leaf(Value::Null) {
        t
    } else if !map_like(s) {
        match t {
            Tree::List(ts) => {
                if has_undefined(ts) {
                    match s {
                        Tree::List(ss) => list_result(fill(ts, ss), p),
                        _ => list_result(ts.push(s), p),
                    }
                } else {
                    match s {
                        Tree::List(ss) => if all_map_like_or_undefined(ts) && all_map_like_or_undefined(ss) {
                            list_result(list_fold(ts, ss, ss.len(), p), p)
                        } else {
                            Tree::List(ts + defined(ss))
                        },
                        _ => Tree::List(ts.push(s)),
                    }
                }
            },
            Tree::Object(es) => match s {
                Tree::List(ss) => Tree::Object(map_list_fold(es, ss, ss.len(), p)),
                Tree::Undefined => t,
                _ => Tree::List(seq![t, s]),
            },
            Tree::Overflow(es, m) => match s {
                Tree::List(ss) => {
                    let r = overflow_list_fold(es, m, ss, ss.len());
                    Tree::Overflow(r.0, r.1)
                },
                Tree::Undefined => t,
                _ => Tree::Overflow(map_insert(es, index_text(next_index(m)), s), next_index(m)),
            },
            _ => match s {
                Tree::List(ss) => Tree::List(seq![t] + defined(ss)),
                _ => Tree::List(seq![t, s]),
            },
        }
    } else {
        match s {
            Tree::Object(ses) => match t {
                Tree::Object(es) => Tree::Object(entries_fold(es, ses, ses.len(), p)),
                Tree::Overflow(es, m) => {
                    let init = match max_canonical(ses) {
                        Some(x) => max_index(m as usize, x),
                        None => m as usize,
                    };
                    Tree::Overflow(
                        entries_fold(es, ses, ses.len(), p),
                        index_or(track_max(Some(init), ses, ses.len()), 0) as nat,
                    )
                },
                Tree::List(ts) => Tree::Object(
                    entries_fold(numeric_entries(ts, false), ses, ses.len(), p),
                ),
                Tree::Undefined => s,
                _ => Tree::List(seq![t, s]),
            },
            Tree::Overflow(ses, sm) => match t {
                Tree::Object(es) => {
                    let init = max_index(index_or(max_canonical(es), 0), sm as usize);
                    Tree::Overflow(
                        entries_fold(es, ses, ses.len(), p),
                        index_or(track_max(Some(init), ses, ses.len()), 0) as nat,
                    )
                },
                Tree::Overflow(es, m) => {
                    let init = max_index(m as usize, sm as usize);
                    Tree::Overflow(
                        entries_fold(es, ses, ses.len(), p),
                        index_or(track_max(Some(init), ses, ses.len()), 0) as nat,
                    )
                },
                Tree::List(ts) => {
                    let init = if ts.len() > 0 {
                        max_index((ts.len() - 1) as usize, sm as usize)
                    } else {
                        sm as usize
                    };
                    Tree::Overflow(
                        entries_fold(numeric_entries(ts, false), ses, ses.len(), p),
                        index_or(track_max(Some(init), ses, ses.len()), 0) as nat,
                    )
                },
                Tree::Undefined => s,
                _ => Tree::Overflow(
                    shift_fold(seq![(index_text(0), t)], ses, ses.len()),
                    sm + 1,
                ),
            },
            _ => t,
        }
    }
}

/// Every canonical key of `es` is below the largest `usize`.
pub open spec fn keys_fit(es: Seq<(Seq<char>, Tree)>) -> bool {
    forall|i: int|
        0 <= i < es.len() ==> (canonical_index(#[trigger] es[i].0) matches Some(k) ==> k
            < usize::MAX)
}

/// Whether merging `s` into `t` stays within `usize`: the only arithmetic
/// that could overflow moves an overflow source one index up behind a scalar
/// target, which needs its greatest index and its canonical keys below the
/// largest `usize`, at whatever depth that case arises.
pub open spec fn merge_ok(t: Tree, s: Tree, p: bool) -> bool
    decreases s, 0nat,
{
    if s == Tree::Leaf(Value::Null) {
        true
    } else if !map_like(s) {
        match t {
            Tree::List(ts) => match s {
                Tree::List(ss) => (!has_undefined(ts) && all_map_like_or_undefined(ts)
                    && all_map_like_or_undefined(ss)) ==> list_fold_ok(ts, ss, ss.len(), p),
                _ => true,
            },
            Tree::Object(es) => match s {
                Tree::List(ss) => map_list_fold_ok(es, ss, ss.len(), p),
                _ => true,
            },
            _ => true,
        }
    } else {
        match s {
            Tree::Object(ses) => match t {
                Tree::Object(es) => entries_fold_ok(es, ses, ses.len(), p),
                Tree::Overflow(es, _) => entries_fold_ok(es, ses, ses.len(), p),
                Tree::List(ts) => entries_fold_ok(numeric_entries(ts, false), ses, ses.len(), p),
                _ => true,
            },
            Tree::Overflow(ses, sm) => match t {
                Tree::Object(es) => entries_fold_ok(es, ses, ses.len(), p),
                Tree::Overflow(es, _) => entries_fold_ok(es, ses, ses.len(), p),
                Tree::List(ts) => entries_fold_ok(numeric_entries(ts, false), ses, ses.len(), p),
                Tree::Undefined => true,
                _ => sm < usize::MAX && keys_fit(ses),
            },
            _ => true,
        }
    }
}

/// Whether each child merge of [`list_fold`] stays within `usize`.
pub open spec fn list_fold_ok(acc0: Seq<Tree>, ss: Seq<Tree>, n: nat, p: bool) -> bool
    decreases ss, n,
{
    if n == 0 || n > ss.len() {
        true
    } else {
        let acc = list_fold(acc0, ss, (n - 1) as nat, p);
        let k = n - 1;
        list_fold_ok(acc0, ss, (n - 1) as nat, p) && ((k < acc.len() && !is_undef(ss[k]))
            ==> merge_ok(acc[k], ss[k], p))
    }
}

/// Whether each child merge of [`map_list_fold`] stays within `usize`.
pub open spec fn map_list_fold_ok(es0: Seq<(Seq<char>, Tree)>, ss: Seq<Tree>, n: nat, p: bool) -> bool
    decreases ss, n,
{
    if n == 0 || n > ss.len() {
        true
    } else {
        let es = map_list_fold(es0, ss, (n - 1) as nat, p);
        let k = n - 1;
        map_list_fold_ok(es0, ss, (n - 1) as nat, p) && (!is_undef(ss[k]) ==> match find_key(
            es,
            index_text(k as nat),
        ) {
            Some(j) => merge_ok(es[j].1, ss[k], p),
            None => true,
        })
    }
}

/// Whether each child merge of [`entries_fold`] stays within `usize`.
pub open spec fn entries_fold_ok(es0: Seq<(Seq<char>, Tree)>, ses: Seq<(Seq<char>, Tree)>, n: nat, p: bool) -> bool
    decreases ses, n,
{
    if n == 0 || n > ses.len() {
        true
    } else {
        let es = entries_fold(es0, ses, (n - 1) as nat, p);
        let k = n - 1;
        entries_fold_ok(es0, ses, (n - 1) as nat, p) && match find_key(es, ses[k].0) {
            Some(j) => merge_ok(es[j].1, ses[k].1, p),
            None => true,
        }
    }
}

/// A list fold that stays within `usize` does so on every prefix.
proof fn lemma_list_fold_ok_prefix(acc0: Seq<Tree>, ss: Seq<Tree>, n: nat, k: nat, p: bool)
    requires
        k <= n <= ss.len(),
        list_fold_ok(acc0, ss, n, p),
    ensures
        list_fold_ok(acc0, ss, k, p),
    decreases n - k,
{
    if k < n {
        lemma_list_fold_ok_prefix(acc0, ss, (n - 1) as nat, k, p);
    }
}

/// An object-from-list fold that stays within `usize` does so on every prefix.
proof fn lemma_map_list_fold_ok_prefix(es0: Seq<(Seq<char>, Tree)>, ss: Seq<Tree>, n: nat, k: nat, p: bool)
    requires
        k <= n <= ss.len(),
        map_list_fold_ok(es0, ss, n, p),
    ensures
        map_list_fold_ok(es0, ss, k, p),
    decreases n - k,
{
    if k < n {
        lemma_map_list_fold_ok_prefix(es0, ss, (n - 1) as nat, k, p);
    }
}

/// An entries fold that stays within `usize` does so on every prefix.
proof fn lemma_entries_fold_ok_prefix(
    es0: Seq<(Seq<char>, Tree)>,
    ses: Seq<(Seq<char>, Tree)>,
    n: nat,
    k: nat,
    p: bool,
)
    requires
        k <= n <= ses.len(),
        entries_fold_ok(es0, ses, n, p),
    ensures
        entries_fold_ok(es0, ses, k, p),
    decreases n - k,
{
    if k < n {
        lemma_entries_fold_ok_prefix(es0, ses, (n - 1) as nat, k, p);
    }
}

// ---------------------------------------------------------------------------
// Facts about the rules.
// ---------------------------------------------------------------------------

/// `find_key` gives the first position of a key, if the key is present.
pub proof fn lemma_find_key(es: Seq<(Seq<char>, Tree)>, k: Seq<char>)
    ensures
        match find_key(es, k) {
            Some(j) => 0 <= j < es.len() && es[j].0 == k && forall|i: int|
                0 <= i < j ==> (#[trigger] es[i]).0 != k,
            None => forall|i: int| 0 <= i < es.len() ==> (#[trigger] es[i]).0 != k,
        },
    decreases es.len(),
{
    if es.len() > 0 {
        lemma_find_key(es.drop_last(), k);
        assert forall|i: int| 0 <= i < es.len() - 1 implies es.drop_last()[i] == #[trigger] es[i] by {}
    }
}

/// The defined items of one more source item.
proof fn lemma_defined_step(s: Seq<Tree>, k: int)
    requires
        0 <= k < s.len(),
    ensures
        defined(s.take(k + 1)) == if is_undef(s[k]) {
            defined(s.take(k))
        } else {
            defined(s.take(k)).push(s[k])
        },
{
    assert(s.take(k + 1).drop_last() =~= s.take(k));
    assert(s.take(k + 1).last() == s[k]);
}

// ---------------------------------------------------------------------------
// Executable helpers.
// ---------------------------------------------------------------------------

/// Whether some item of `items` is the placeholder.
fn any_undefined(items: &Vec<Node>) -> (r: bool)
    ensures
        r == has_undefined(trees_of(items@)),
{
    proof {
        lemma_trees_of(items@);
    }
    let ghost ts = trees_of(items@);
    let mut i: usize = 0;
    while i < items.len()
        invariant
            i <= items@.len(),
            ts == trees_of(items@),
            ts.len() == items@.len(),
            forall|j: int| 0 <= j < items@.len() ==> #[trigger] ts[j] == tree_of(items@[j]),
            forall|j: int| 0 <= j < i ==> !is_undef(#[trigger] ts[j]),
        decreases items@.len() - i,
    {
        if items[i].is_undefined() {
            assert(is_undef(ts[i as int]));
            return true;
        }
        i = i + 1;
    }
    false
}

/// The entries of an object or an overflow object; none for other nodes.
pub fn map_entries(node: Node) -> (r: Vec<(String, Node)>)
    ensures
        entry_trees(r@) == source_entries(node@),
{
    match node {
        Node::Object(entries) => entries,
        Node::OverflowObject { entries, .. } => entries,
        _ => Vec::with_capacity(0),
    }
}

/// Whether every item of `items` is a placeholder, an object or an overflow object.
pub fn array_all_map_like_or_undefined(items: &[Node]) -> (r: bool)
    ensures
        r == all_map_like_or_undefined(trees_of(items@)),
{
    proof {
        lemma_trees_of(items@);
    }
    let ghost ts = trees_of(items@);
    let mut i: usize = 0;
    while i < items.len()
        invariant
            i <= items@.len(),
            ts == trees_of(items@),
            ts.len() == items@.len(),
            forall|j: int| 0 <= j < items@.len() ==> #[trigger] ts[j] == tree_of(items@[j]),
            forall|j: int| 0 <= j < i ==> is_undef(#[trigger] ts[j]) || map_like(ts[j]),
        decreases items@.len() - i,
    {
        if !(items[i].is_undefined() || items[i].is_map_like()) {
            assert(!(is_undef(ts[i as int]) || map_like(ts[i as int])));
            return false;
        }
        i = i + 1;
    }
    true
}

/// Overlays the defined items of `source` onto the list `target`, stretching
/// it with placeholders to the longer length.
fn fill_holes(target: Vec<Node>, source: Vec<Node>) -> (r: Vec<Node>)
    ensures
        trees_of(r@) == fill(trees_of(target@), trees_of(source@)),
{
    let ghost tt = trees_of(target@);
    let ghost st = trees_of(source@);
    let ghost so = source@;
    proof {
        lemma_trees_of(target@);
        lemma_trees_of(source@);
    }
    let mut out = target;
    let mut source = source;
    let n = source.len();
    let len = if n > out.len() {
        n
    } else {
        out.len()
    };
    while out.len() < n
        invariant
            tt.len() <= out@.len() <= len,
            len == (if n > tt.len() { n as nat } else { tt.len() }),
            forall|i: int| 0 <= i < out@.len() ==> tree_of(#[trigger] out@[i]) == (if i < tt.len() {
                tt[i]
            } else {
                Tree::Undefined
            }),
        decreases n - out@.len(),
    {
        out.push(Node::Undefined);
    }
    let mut k: usize = 0;
    while k < n
        invariant
            k <= n,
            n == source@.len(),
            n == so.len(),
            st.len() == n,
            forall|j: int| 0 <= j < n ==> #[trigger] st[j] == tree_of(so[j]),
            forall|j: int| k <= j < n ==> source@[j] == so[j],
            out@.len() == len,
            len == (if n > tt.len() { n as nat } else { tt.len() }),
            forall|i: int| 0 <= i < len ==> tree_of(#[trigger] out@[i]) == (if i < k && !is_undef(st[i]) {
                st[i]
            } else if i < tt.len() {
                tt[i]
            } else {
                Tree::Undefined
            }),
        decreases n - k,
    {
        let mut item = Node::Undefined;
        source.set_and_swap(k, &mut item);
        assert(tree_of(item) == st[k as int]);
        if !item.is_undefined() {
            out.set(k, item);
        }
        k = k + 1;
    }
    proof {
        lemma_trees_of(out@);
    }
    assert(trees_of(out@) =~= fill(tt, st));
    out
}

/// Closes a merged list: its numeric object when lists are not parsed and a
/// hole remains, the list otherwise.
fn finish_list(items: Vec<Node>, parse_lists: bool) -> (r: Node)
    ensures
        r@ == list_result(trees_of(items@), parse_lists),
{
    if !parse_lists && any_undefined(&items) {
        Node::Object(array_to_numeric_object(items, false))
    } else {
        Node::Array(items)
    }
}

/// Appends the items of `source` that are not placeholders.
fn append_defined(target: Vec<Node>, source: Vec<Node>) -> (r: Vec<Node>)
    ensures
        trees_of(r@) == trees_of(target@) + defined(trees_of(source@)),
{
    let ghost tt = trees_of(target@);
    let ghost st = trees_of(source@);
    let ghost so = source@;
    proof {
        lemma_trees_of(source@);
        assert(tt + defined(st.take(0)) =~= tt);
    }
    let mut out = target;
    let mut source = source;
    let n = source.len();
    let mut k: usize = 0;
    while k < n
        invariant
            k <= n,
            n == source@.len(),
            n == so.len(),
            st.len() == n,
            forall|j: int| 0 <= j < n ==> #[trigger] st[j] == tree_of(so[j]),
            forall|j: int| k <= j < n ==> source@[j] == so[j],
            trees_of(out@) == tt + defined(st.take(k as int)),
        decreases n - k,
    {
        let mut item = Node::Undefined;
        source.set_and_swap(k, &mut item);
        proof {
            lemma_defined_step(st, k as int);
        }
        if !item.is_undefined() {
            proof {
                lemma_trees_push(out@, item);
                assert(tt + defined(st.take(k as int)).push(st[k as int]) =~= (tt + defined(
                    st.take(k as int),
                )).push(tree_of(item)));
            }
            out.push(item);
        }
        k = k + 1;
    }
    assert(st.take(n as int) =~= st);
    out
}

/// The position of the first entry of `entries` with key `key`.
fn find_entry(entries: &Vec<(String, Node)>, key: &String) -> (r: Option<usize>)
    ensures
        match r {
            Some(j) => find_key(entry_trees(entries@), key@) == Some(j as int),
            None => find_key(entry_trees(entries@), key@) is None,
        },
{
    let ghost es = entry_trees(entries@);
    proof {
        lemma_entry_trees(entries@);
        lemma_find_key(es, key@);
    }
    let mut i: usize = 0;
    while i < entries.len()
        invariant
            i <= entries@.len(),
            es == entry_trees(entries@),
            es.len() == entries@.len(),
            forall|j: int| 0 <= j < entries@.len() ==> #[trigger] es[j] == entry_tree(entries@[j]),
            forall|j: int| 0 <= j < i ==> (#[trigger] es[j]).0 != key@,
        decreases entries@.len() - i,
    {
        if entries[i].0 == *key {
            proof {
                lemma_find_key(es, key@);
            }
            assert(es[i as int].0 == key@);
            return Some(i);
        }
        i = i + 1;
    }
    proof {
        lemma_find_key(es, key@);
    }
    None
}

/// Sets the value under `key`: in place when the key is present, appended
/// otherwise.
fn insert_entry(entries: Vec<(String, Node)>, key: String, value: Node) -> (r: Vec<(String, Node)>)
    ensures
        entry_trees(r@) == map_insert(entry_trees(entries@), key@, tree_of(value)),
{
    proof {
        lemma_entry_trees(entries@);
        lemma_find_key(entry_trees(entries@), key@);
    }
    let mut entries = entries;
    match find_entry(&entries, &key) {
        Some(j) => {
            let ghost before = entries@;
            let mut slot = (String::default(), Node::Undefined);
            entries.set_and_swap(j, &mut slot);
            let (old_key, _) = slot;
            entries.set(j, (old_key, value));
            proof {
                assert(entries@ =~= before.update(j as int, (old_key, value)));
                lemma_entries_update(before, j as int, (old_key, value));
            }
            entries
        },
        None => {
            proof {
                lemma_entries_push(entries@, (key, value));
            }
            entries.push((key, value));
            entries
        },
    }
}

/// Appends the items of `source` that are not placeholders to an overflow
/// object, each under the next index.
fn append_overflow_items(entries: Vec<(String, Node)>, max_index: usize, source: Vec<Node>) -> (r: (
    Vec<(String, Node)>,
    usize,
))
    ensures
        (entry_trees(r.0@), r.1 as nat) == overflow_list_fold(
            entry_trees(entries@),
            max_index as nat,
            trees_of(source@),
            source@.len() as nat,
        ),
{
    let ghost e0 = entry_trees(entries@);
    let ghost st = trees_of(source@);
    let ghost so = source@;
    proof {
        lemma_trees_of(source@);
    }
    let mut out = entries;
    let mut m = max_index;
    let mut source = source;
    let n = source.len();
    let mut k: usize = 0;
    while k < n
        invariant
            k <= n,
            n == source@.len(),
            n == so.len(),
            st.len() == n,
            forall|j: int| 0 <= j < n ==> #[trigger] st[j] == tree_of(so[j]),
            forall|j: int| k <= j < n ==> source@[j] == so[j],
            (entry_trees(out@), m as nat) == overflow_list_fold(e0, max_index as nat, st, k as nat),
        decreases n - k,
    {
        let mut item = Node::Undefined;
        source.set_and_swap(k, &mut item);
        assert(tree_of(item) == st[k as int]);
        if !item.is_undefined() {
            m = m.saturating_add(1);
            let key = index_to_string(m);
            out = insert_entry(out, key, item);
        }
        k = k + 1;
    }
    (out, m)
}

/// The greatest index after the canonical keys of `entries` have raised `start`.
fn track_max_index(start: Option<usize>, entries: &Vec<(String, Node)>) -> (r: Option<usize>)
    ensures
        r == track_max(start, entry_trees(entries@), entries@.len() as nat),
{
    let ghost es = entry_trees(entries@);
    proof {
        lemma_entry_trees(entries@);
    }
    let mut m = start;
    let mut i: usize = 0;
    while i < entries.len()
        invariant
            i <= entries@.len(),
            es == entry_trees(entries@),
            es.len() == entries@.len(),
            forall|j: int| 0 <= j < entries@.len() ==> #[trigger] es[j] == entry_tree(entries@[j]),
            m == track_max(start, es, i as nat),
        decreases entries@.len() - i,
    {
        assert(es[i as int].0 == entries@[i as int].0@);
        match parse_canonical_index(entries[i].0.as_str()) {
            Some(k) => {
                m = Some(
                    match m {
                        Some(x) => if x >= k {
                            x
                        } else {
                            k
                        },
                        None => k,
                    },
                );
            },
            None => {},
        }
        i = i + 1;
    }
    m
}

/// The entries of an overflow source moved one index up behind `first`,
/// which takes index zero.
fn shift_entries(first: Node, source: Vec<(String, Node)>) -> (r: Vec<(String, Node)>)
    requires
        keys_fit(entry_trees(source@)),
    ensures
        entry_trees(r@) == shift_fold(
            seq![(index_text(0), tree_of(first))],
            entry_trees(source@),
            source@.len() as nat,
        ),
{
    let ghost es = entry_trees(source@);
    let ghost so = source@;
    let ghost first_tree = tree_of(first);
    proof {
        lemma_entry_trees(source@);
    }
    let mut out: Vec<(String, Node)> = Vec::with_capacity(source.len());
    let zero = index_to_string(0);
    proof {
        lemma_entries_push(out@, (zero, first));
        assert(out@.push((zero, first)).drop_last() =~= out@);
        assert(entry_trees(out@) =~= Seq::<(Seq<char>, Tree)>::empty());
    }
    out.push((zero, first));
    assert(entry_trees(out@) =~= seq![(index_text(0), first_tree)]);
    let mut source = source;
    let n = source.len();
    let mut k: usize = 0;
    while k < n
        invariant
            k <= n,
            n == source@.len(),
            n == so.len(),
            es.len() == n,
            forall|j: int| 0 <= j < n ==> #[trigger] es[j] == entry_tree(so[j]),
            forall|j: int| k <= j < n ==> source@[j] == so[j],
            keys_fit(es),
            entry_trees(out@) == shift_fold(seq![(index_text(0), first_tree)], es, k as nat),
        decreases n - k,
    {
        let mut slot = (String::default(), Node::Undefined);
        source.set_and_swap(k, &mut slot);
        let (key, value) = slot;
        assert(es[k as int] == (key@, tree_of(value)));
        match parse_canonical_index(key.as_str()) {
            Some(i) => {
                assert(es[k as int].0 == key@);
                assert(i < usize::MAX);
                let next = index_to_string(i + 1);
                out = insert_entry(out, next, value);
            },
            None => {
                out = insert_entry(out, key, value);
            },
        }
        k = k + 1;
    }
    out
}

/// Two nodes side by side in a list.
fn pair(first: Node, second: Node) -> (r: Node)
    ensures
        r@ == Tree::List(seq![first@, second@]),
{
    let ghost a = first;
    let ghost b = second;
    let mut items: Vec<Node> = Vec::with_capacity(2);
    proof {
        lemma_trees_push(items@, a);
        assert(trees_of(items@) =~= Seq::<Tree>::empty());
    }
    items.push(first);
    proof {
        lemma_trees_push(items@, b);
    }
    items.push(second);
    assert(trees_of(items@) =~= seq![tree_of(a), tree_of(b)]);
    Node::Array(items)
}

// ---------------------------------------------------------------------------
// The merge as a loop over an explicit stack of folds.
// ---------------------------------------------------------------------------

/// The weight of a tree: one for itself and, for each child, one more than
/// the child's weight. Every step of the merge loop lowers the weight of the
/// work left, or keeps it and moves on in a fixed order of phases.
pub open spec fn tree_weight(t: Tree) -> nat
    decreases t, 0int,
{
    match t {
        Tree::List(ss) => 1 + items_weight(ss, 0),
        Tree::Object(es) => 1 + entries_weight(es, 0),
        Tree::Overflow(es, _) => 1 + entries_weight(es, 0),
        _ => 1,
    }
}

/// The weight of the items of a list from position `k` on.
pub open spec fn items_weight(ss: Seq<Tree>, k: int) -> nat
    decreases ss, ss.len() - k,
{
    if 0 <= k < ss.len() {
        tree_weight(ss[k]) + 1 + items_weight(ss, k + 1)
    } else {
        0
    }
}

/// The weight of the values of object entries from position `k` on.
pub open spec fn entries_weight(es: Seq<(Seq<char>, Tree)>, k: int) -> nat
    decreases es, es.len() - k,
{
    if 0 <= k < es.len() {
        tree_weight(es[k].1) + 1 + entries_weight(es, k + 1)
    } else {
        0
    }
}

/// A fold of the merge in progress: the target `out` filled from source
/// items up to position `k`. While `waiting`, the pair at `k` is out for a
/// merge of its own, and the hole it left (the list position `k`, or the
/// entry `slot` with key `key`) takes the result.
enum Frame {
    /// Source items merged into a list position by position.
    Lists {
        out: Vec<Node>,
        source: Vec<Node>,
        k: usize,
        waiting: bool,
        base: Ghost<Seq<Tree>>,
        items: Ghost<Seq<Tree>>,
        nodes: Ghost<Seq<Node>>,
    },
    /// Source items merged into an object under the text of their positions.
    ListEntries {
        out: Vec<(String, Node)>,
        source: Vec<Node>,
        k: usize,
        waiting: bool,
        slot: usize,
        key: String,
        base: Ghost<Seq<(Seq<char>, Tree)>>,
        items: Ghost<Seq<Tree>>,
        nodes: Ghost<Seq<Node>>,
    },
    /// Source entries merged into an object key by key; it closes as an
    /// object, or as an overflow object with the given greatest index.
    Entries {
        out: Vec<(String, Node)>,
        source: Vec<(String, Node)>,
        k: usize,
        waiting: bool,
        slot: usize,
        key: String,
        overflow: Option<usize>,
        base: Ghost<Seq<(Seq<char>, Tree)>>,
        items: Ghost<Seq<(Seq<char>, Tree)>>,
        nodes: Ghost<Seq<(String, Node)>>,
    },
}

/// Whether a fold waits for the merge of one pair.
spec fn frame_waiting(f: Frame) -> bool {
    match f {
        Frame::Lists { waiting, .. } => waiting,
        Frame::ListEntries { waiting, .. } => waiting,
        Frame::Entries { waiting, .. } => waiting,
    }
}

/// The source items of a fold still in place are the original ones.
spec fn items_in_place(source: Seq<Node>, nodes: Seq<Node>, from: int) -> bool {
    forall|j: int| from <= j < nodes.len() ==> #[trigger] source[j] == nodes[j]
}

/// The source entries of a fold still in place are the original ones.
spec fn entries_in_place(source: Seq<(String, Node)>, nodes: Seq<(String, Node)>, from: int) -> bool {
    forall|j: int| from <= j < nodes.len() ==> #[trigger] source[j] == nodes[j]
}

/// A fold is consistent: its source items are those it started with, what
/// is filled in is the fold of the first `k` items, and a waiting fold has a
/// hole where the pair at `k` was taken out.
#[verifier::opaque]
spec fn frame_ok(f: Frame, p: bool) -> bool {
    match f {
        Frame::Lists { out, source, k, waiting, base, items, nodes } => {
            let n = items@.len();
            let acc = list_fold(base@, items@, k as nat, p);
            &&& k <= n
            &&& nodes@.len() == n
            &&& source@.len() == n
            &&& forall|j: int| 0 <= j < n ==> #[trigger] items@[j] == tree_of(nodes@[j])
            &&& items_in_place(source@, nodes@, if waiting { k + 1 } else { k as int })
            &&& list_fold_ok(base@, items@, n, p)
            &&& if waiting {
                &&& k < n
                &&& k < acc.len()
                &&& !is_undef(items@[k as int])
                &&& trees_of(out@) == acc.update(k as int, Tree::Undefined)
            } else {
                trees_of(out@) == acc
            }
        },
        Frame::ListEntries { out, source, k, waiting, slot, key, base, items, nodes } => {
            let n = items@.len();
            let es = map_list_fold(base@, items@, k as nat, p);
            &&& k <= n
            &&& nodes@.len() == n
            &&& source@.len() == n
            &&& forall|j: int| 0 <= j < n ==> #[trigger] items@[j] == tree_of(nodes@[j])
            &&& items_in_place(source@, nodes@, if waiting { k + 1 } else { k as int })
            &&& map_list_fold_ok(base@, items@, n, p)
            &&& if waiting {
                &&& k < n
                &&& !is_undef(items@[k as int])
                &&& find_key(es, index_text(k as nat)) == Some(slot as int)
                &&& slot < es.len()
                &&& key@ == es[slot as int].0
                &&& entry_trees(out@) == es.update(slot as int, (Seq::<char>::empty(), Tree::Undefined))
            } else {
                entry_trees(out@) == es
            }
        },
        Frame::Entries { out, source, k, waiting, slot, key, overflow, base, items, nodes } => {
            let n = items@.len();
            let es = entries_fold(base@, items@, k as nat, p);
            &&& k <= n
            &&& nodes@.len() == n
            &&& source@.len() == n
            &&& forall|j: int| 0 <= j < n ==> #[trigger] items@[j] == entry_tree(nodes@[j])
            &&& entries_in_place(source@, nodes@, if waiting { k + 1 } else { k as int })
            &&& entries_fold_ok(base@, items@, n, p)
            &&& if waiting {
                &&& k < n
                &&& find_key(es, items@[k as int].0) == Some(slot as int)
                &&& slot < es.len()
                &&& key@ == es[slot as int].0
                &&& entry_trees(out@) == es.update(slot as int, (Seq::<char>::empty(), Tree::Undefined))
            } else {
                entry_trees(out@) == es
            }
        },
    }
}

/// The merge a waiting fold waits for.
#[verifier::opaque]
spec fn child_goal(f: Frame, p: bool) -> Tree {
    match f {
        Frame::Lists { k, base, items, .. } => {
            let acc = list_fold(base@, items@, k as nat, p);
            merge_tree(acc[k as int], items@[k as int], p)
        },
        Frame::ListEntries { k, slot, base, items, .. } => {
            let es = map_list_fold(base@, items@, k as nat, p);
            merge_tree(es[slot as int].1, items@[k as int], p)
        },
        Frame::Entries { k, slot, base, items, .. } => {
            let es = entries_fold(base@, items@, k as nat, p);
            merge_tree(es[slot as int].1, items@[k as int].1, p)
        },
    }
}

/// What a fold gives once every item is in.
#[verifier::opaque]
spec fn final_goal(f: Frame, p: bool) -> Tree {
    match f {
        Frame::Lists { base, items, .. } => list_result(
            list_fold(base@, items@, items@.len(), p),
            p,
        ),
        Frame::ListEntries { base, items, .. } => Tree::Object(
            map_list_fold(base@, items@, items@.len(), p),
        ),
        Frame::Entries { base, items, overflow, .. } => match overflow {
            None => Tree::Object(entries_fold(base@, items@, items@.len(), p)),
            Some(m) => Tree::Overflow(entries_fold(base@, items@, items@.len(), p), m as nat),
        },
    }
}

/// The weight of the work a fold has left: its items not yet taken, and one
/// for a hole that waits.
#[verifier::opaque]
spec fn frame_weight(f: Frame) -> nat {
    match f {
        Frame::Lists { k, waiting, items, .. } => if waiting {
            1 + items_weight(items@, k + 1)
        } else {
            items_weight(items@, k as int)
        },
        Frame::ListEntries { k, waiting, items, .. } => if waiting {
            1 + items_weight(items@, k + 1)
        } else {
            items_weight(items@, k as int)
        },
        Frame::Entries { k, waiting, items, .. } => if waiting {
            1 + entries_weight(items@, k + 1)
        } else {
            entries_weight(items@, k as int)
        },
    }
}

/// The weight of the work left in a stack of folds.
spec fn stack_weight(s: Seq<Frame>) -> nat
    decreases s.len(),
{
    if s.len() == 0 {
        0
    } else {
        stack_weight(s.drop_last()) + frame_weight(s.last())
    }
}

/// The folds of a stack are consistent, each waits for the one above it,
/// and the bottom one gives `goal`.
spec fn stack_ok(s: Seq<Frame>, p: bool, goal: Tree) -> bool {
    &&& forall|i: int| 0 <= i < s.len() ==> frame_ok(#[trigger] s[i], p)
    &&& forall|i: int|
        0 <= i < s.len() - 1 ==> frame_waiting(#[trigger] s[i]) && child_goal(s[i], p)
            == final_goal(s[i + 1], p)
    &&& s.len() > 0 ==> final_goal(s[0], p) == goal
}

/// The result `t` is what the stack waits for: the goal itself when the
/// stack is empty, the merge the top fold waits for otherwise.
spec fn stack_waits_for(s: Seq<Frame>, p: bool, goal: Tree, t: Tree) -> bool {
    if s.len() == 0 {
        t == goal
    } else {
        frame_waiting(s.last()) && child_goal(s.last(), p) == t
    }
}

/// A consistent fold that gives what the stack waits for can go on top.
proof fn lemma_stack_push(s: Seq<Frame>, f: Frame, p: bool, goal: Tree)
    requires
        stack_ok(s, p, goal),
        frame_ok(f, p),
        stack_waits_for(s, p, goal, final_goal(f, p)),
    ensures
        stack_ok(s.push(f), p, goal),
        s.push(f).last() == f,
        stack_weight(s.push(f)) == stack_weight(s) + frame_weight(f),
{
    let t = s.push(f);
    assert(t.drop_last() =~= s);
    assert forall|i: int| 0 <= i < t.len() implies frame_ok(#[trigger] t[i], p) by {
        if i < s.len() {
            assert(t[i] == s[i]);
        }
    }
    assert forall|i: int| 0 <= i < t.len() - 1 implies frame_waiting(#[trigger] t[i]) && child_goal(
        t[i],
        p,
    ) == final_goal(t[i + 1], p) by {
        assert(t[i] == s[i]);
        if i + 1 < s.len() {
            assert(t[i + 1] == s[i + 1]);
        }
    }
}

/// Taking the top fold off leaves a consistent stack that waits for what the
/// top fold gives.
proof fn lemma_stack_pop(s: Seq<Frame>, p: bool, goal: Tree)
    requires
        stack_ok(s, p, goal),
        s.len() > 0,
    ensures
        stack_ok(s.drop_last(), p, goal),
        stack_waits_for(s.drop_last(), p, goal, final_goal(s.last(), p)),
        frame_ok(s.last(), p),
        stack_weight(s) == stack_weight(s.drop_last()) + frame_weight(s.last()),
{
    let t = s.drop_last();
    assert(frame_ok(s[s.len() - 1], p));
    assert forall|i: int| 0 <= i < t.len() implies frame_ok(#[trigger] t[i], p) by {
        assert(t[i] == s[i]);
    }
    assert forall|i: int| 0 <= i < t.len() - 1 implies frame_waiting(#[trigger] t[i]) && child_goal(
        t[i],
        p,
    ) == final_goal(t[i + 1], p) by {
        assert(t[i] == s[i]);
        assert(t[i + 1] == s[i + 1]);
    }
    if t.len() > 0 {
        assert(t.last() == s[t.len() - 1]);
    }
}

/// The item weights from `b` on are at most those from `a` on, for `a <= b`.
proof fn lemma_items_weight_mono(ss: Seq<Tree>, a: int, b: int)
    requires
        0 <= a <= b,
    ensures
        items_weight(ss, b) <= items_weight(ss, a),
    decreases b - a,
{
    if a < b {
        lemma_items_weight_mono(ss, a + 1, b);
    }
}

/// The entry weights from `b` on are at most those from `a` on, for `a <= b`.
proof fn lemma_entries_weight_mono(es: Seq<(Seq<char>, Tree)>, a: int, b: int)
    requires
        0 <= a <= b,
    ensures
        entries_weight(es, b) <= entries_weight(es, a),
    decreases b - a,
{
    if a < b {
        lemma_entries_weight_mono(es, a + 1, b);
    }
}

/// Pushing a fold adds its weight.
proof fn lemma_stack_weight_push(s: Seq<Frame>, f: Frame)
    ensures
        stack_weight(s.push(f)) == stack_weight(s) + frame_weight(f),
{
    assert(s.push(f).drop_last() =~= s);
}

/// How the merge of one pair starts: finished at once, or as a fold.
enum Started {
    Done(Node),
    Fold(Frame),
}

/// What a fold does next: it is finished, or it waits for the merge of the
/// pair `(target, source)` taken out of it.
enum Advanced {
    Finished(Node),
    Child(Frame, Node, Node),
}

/// Starts merging a list source into any target.
fn start_list_source(target: Node, source: Vec<Node>, p: bool) -> (r: Started)
    requires
        merge_ok(target@, Tree::List(trees_of(source@)), p),
    ensures
        match r {
            Started::Done(n) => n@ == merge_tree(target@, Tree::List(trees_of(source@)), p),
            Started::Fold(f) => frame_ok(f, p) && !frame_waiting(f) && final_goal(f, p)
                == merge_tree(target@, Tree::List(trees_of(source@)), p) && frame_weight(f)
                < tree_weight(Tree::List(trees_of(source@))),
        },
{
    proof {
        reveal(frame_ok);
        reveal(child_goal);
        reveal(final_goal);
        reveal(frame_weight);
    }
    proof {
        lemma_trees_of(source@);
    }
    match target {
        Node::Array(items) => {
            if any_undefined(&items) {
                Started::Done(finish_list(fill_holes(items, source), p))
            } else if array_all_map_like_or_undefined(items.as_slice())
                && array_all_map_like_or_undefined(source.as_slice()) {
                let ghost base = trees_of(items@);
                let ghost st = trees_of(source@);
                let ghost so = source@;
                let f = Frame::Lists {
                    out: items,
                    source,
                    k: 0,
                    waiting: false,
                    base: Ghost(base),
                    items: Ghost(st),
                    nodes: Ghost(so),
                };
                Started::Fold(f)
            } else {
                Started::Done(Node::Array(append_defined(items, source)))
            }
        },
        Node::Object(entries) => {
            let ghost base = entry_trees(entries@);
            let ghost st = trees_of(source@);
            let ghost so = source@;
            let f = Frame::ListEntries {
                out: entries,
                source,
                k: 0,
                waiting: false,
                slot: 0,
                key: String::default(),
                base: Ghost(base),
                items: Ghost(st),
                nodes: Ghost(so),
            };
            Started::Fold(f)
        },
        Node::OverflowObject { entries, max_index } => {
            let (entries, max_index) = append_overflow_items(entries, max_index, source);
            Started::Done(Node::OverflowObject { entries, max_index })
        },
        other => {
            let ghost t = other;
            let mut items: Vec<Node> = Vec::with_capacity(1);
            proof {
                lemma_trees_push(items@, t);
                assert(trees_of(items@) =~= Seq::<Tree>::empty());
            }
            items.push(other);
            assert(trees_of(items@) =~= seq![tree_of(t)]);
            Started::Done(Node::Array(append_defined(items, source)))
        },
    }
}

/// A fold of source entries into `out`, from its start.
fn entries_frame(out: Vec<(String, Node)>, source: Vec<(String, Node)>, overflow: Option<usize>, Ghost(p): Ghost<bool>) -> (f: Frame)
    requires
        entries_fold_ok(entry_trees(out@), entry_trees(source@), source@.len() as nat, p),
    ensures
        frame_ok(f, p),
        !frame_waiting(f),
        final_goal(f, p) == match overflow {
            None => Tree::Object(entries_fold(entry_trees(out@), entry_trees(source@), source@.len() as nat, p)),
            Some(m) => Tree::Overflow(entries_fold(entry_trees(out@), entry_trees(source@), source@.len() as nat, p), m as nat),
        },
        frame_weight(f) == entries_weight(entry_trees(source@), 0),
{
    proof {
        reveal(frame_ok);
        reveal(child_goal);
        reveal(final_goal);
        reveal(frame_weight);
    }
    proof {
        lemma_entry_trees(source@);
    }
    let ghost base = entry_trees(out@);
    let ghost es = entry_trees(source@);
    let ghost so = source@;
    Frame::Entries {
        out,
        source,
        k: 0,
        waiting: false,
        slot: 0,
        key: String::default(),
        overflow,
        base: Ghost(base),
        items: Ghost(es),
        nodes: Ghost(so),
    }
}

/// Starts merging an object source into any target.
fn start_object_source(target: Node, source: Vec<(String, Node)>, p: bool) -> (r: Started)
    requires
        merge_ok(target@, Tree::Object(entry_trees(source@)), p),
    ensures
        match r {
            Started::Done(n) => n@ == merge_tree(target@, Tree::Object(entry_trees(source@)), p),
            Started::Fold(f) => frame_ok(f, p) && !frame_waiting(f) && final_goal(f, p)
                == merge_tree(target@, Tree::Object(entry_trees(source@)), p) && frame_weight(f)
                < tree_weight(Tree::Object(entry_trees(source@))),
        },
{
    proof {
        lemma_entry_trees(source@);
    }
    match target {
        Node::Object(entries) => Started::Fold(entries_frame(entries, source, None, Ghost(p))),
        Node::OverflowObject { entries, max_index } => {
            let start = match max_numeric_index(&source) {
                Some(x) => if max_index >= x {
                    max_index
                } else {
                    x
                },
                None => max_index,
            };
            let tracked_max = track_max_index(Some(start), &source);
            let max_index = match tracked_max {
                Some(x) => x,
                None => 0,
            };
            Started::Fold(entries_frame(entries, source, Some(max_index), Ghost(p)))
        },
        Node::Array(items) => {
            let numeric = array_to_numeric_object(items, false);
            Started::Fold(entries_frame(numeric, source, None, Ghost(p)))
        },
        Node::Undefined => Started::Done(Node::Object(source)),
        other => Started::Done(pair(other, Node::Object(source))),
    }
}

/// Starts merging an overflow source into any target.
fn start_overflow_source(target: Node, source: Vec<(String, Node)>, source_max: usize, p: bool) -> (r:
    Started)
    requires
        merge_ok(target@, Tree::Overflow(entry_trees(source@), source_max as nat), p),
    ensures
        match r {
            Started::Done(n) => n@ == merge_tree(
                target@,
                Tree::Overflow(entry_trees(source@), source_max as nat),
                p,
            ),
            Started::Fold(f) => frame_ok(f, p) && !frame_waiting(f) && final_goal(f, p)
                == merge_tree(target@, Tree::Overflow(entry_trees(source@), source_max as nat), p)
                && frame_weight(f) < tree_weight(Tree::Overflow(entry_trees(source@), source_max as nat)),
        },
{
    proof {
        lemma_entry_trees(source@);
    }
    match target {
        Node::Object(entries) => {
            let known = match max_numeric_index(&entries) {
                Some(x) => x,
                None => 0,
            };
            let start = if known >= source_max {
                known
            } else {
                source_max
            };
            let tracked_max = track_max_index(Some(start), &source);
            let max_index = match tracked_max {
                Some(x) => x,
                None => 0,
            };
            Started::Fold(entries_frame(entries, source, Some(max_index), Ghost(p)))
        },
        Node::OverflowObject { entries, max_index } => {
            let start = if max_index >= source_max {
                max_index
            } else {
                source_max
            };
            let tracked_max = track_max_index(Some(start), &source);
            let max_index = match tracked_max {
                Some(x) => x,
                None => 0,
            };
            Started::Fold(entries_frame(entries, source, Some(max_index), Ghost(p)))
        },
        Node::Array(items) => {
            proof {
                lemma_trees_of(items@);
            }
            let start = if items.len() > 0 {
                let last = items.len() - 1;
                if last >= source_max {
                    last
                } else {
                    source_max
                }
            } else {
                source_max
            };
            let tracked_max = track_max_index(Some(start), &source);
            let numeric = array_to_numeric_object(items, false);
            let max_index = match tracked_max {
                Some(x) => x,
                None => 0,
            };
            Started::Fold(entries_frame(numeric, source, Some(max_index), Ghost(p)))
        },
        Node::Undefined => Started::Done(Node::OverflowObject { entries: source, max_index: source_max }),
        other => {
            let shifted = shift_entries(other, source);
            Started::Done(Node::OverflowObject { entries: shifted, max_index: source_max + 1 })
        },
    }
}

/// Starts merging `source` into `target`: finished at once unless the merge
/// folds source items or entries into a list or an object.
fn start_merge(target: Node, source: Node, p: bool) -> (r: Started)
    requires
        merge_ok(target@, source@, p),
    ensures
        match r {
            Started::Done(n) => n@ == merge_tree(target@, source@, p),
            Started::Fold(f) => frame_ok(f, p) && !frame_waiting(f) && final_goal(f, p)
                == merge_tree(target@, source@, p) && frame_weight(f) < tree_weight(source@),
        },
{
    if source.is_null_source() {
        return Started::Done(target);
    }
    match source {
        Node::Array(items) => start_list_source(target, items, p),
        Node::Object(entries) => start_object_source(target, entries, p),
        Node::OverflowObject { entries, max_index } => start_overflow_source(
            target,
            entries,
            max_index,
            p,
        ),
        other => Started::Done(merge_scalar_source(target, other, p)),
    }
}

/// Merges a scalar or placeholder source into any target.
fn merge_scalar_source(target: Node, source: Node, parse_lists: bool) -> (r: Node)
    requires
        source is Undefined || source is Value,
        source != Node::Value(Value::Null),
    ensures
        r@ == merge_tree(target@, source@, parse_lists),
{
    let ghost s = source@;
    assert(s != Tree::Leaf(Value::Null));
    match target {
        Node::Array(items) => {
            let ghost before = items@;
            let holes = any_undefined(&items);
            let mut items = items;
            proof {
                lemma_trees_push(items@, source);
            }
            items.push(source);
            if holes {
                finish_list(items, parse_lists)
            } else {
                Node::Array(items)
            }
        },
        Node::Object(entries) => {
            if source.is_undefined() {
                Node::Object(entries)
            } else {
                pair(Node::Object(entries), source)
            }
        },
        Node::OverflowObject { entries, max_index } => {
            if source.is_undefined() {
                Node::OverflowObject { entries, max_index }
            } else {
                let next = max_index.saturating_add(1);
                let key = index_to_string(next);
                Node::OverflowObject { entries: insert_entry(entries, key, source), max_index: next }
            }
        },
        other => pair(other, source),
    }
}

/// Runs a fold until it is finished or needs the merge of one pair, which
/// it takes out of its target and source, leaving a hole.
#[verifier::loop_isolation(false)]
fn advance_frame(f: Frame, p: bool) -> (r: Advanced)
    requires
        frame_ok(f, p),
        !frame_waiting(f),
    ensures
        match r {
            Advanced::Finished(n) => n@ == final_goal(f, p),
            Advanced::Child(g, t, s) => {
                &&& frame_ok(g, p)
                &&& frame_waiting(g)
                &&& final_goal(g, p) == final_goal(f, p)
                &&& child_goal(g, p) == merge_tree(t@, s@, p)
                &&& merge_ok(t@, s@, p)
                &&& frame_weight(g) + tree_weight(s@) <= frame_weight(f)
            },
        },
{
    proof {
        reveal(frame_ok);
        reveal(child_goal);
        reveal(final_goal);
        reveal(frame_weight);
    }
    match f {
        Frame::Lists { out, source, k, waiting, base, items, nodes } => {
            let ghost k0 = k;
            let mut out = out;
            let mut source = source;
            let mut k = k;
            let n = source.len();
            while k < n
                invariant
                    k0 <= k <= n,
                    n == items@.len(),
                    frame_ok(Frame::Lists { out, source, k, waiting: false, base, items, nodes }, p),
                decreases n - k,
            {
                let mut item = Node::Undefined;
                source.set_and_swap(k, &mut item);
                assert(tree_of(item) == items@[k as int]);
                proof {
                    lemma_trees_of(out@);
                    lemma_items_weight_mono(items@, k0 as int, k as int);
                }
                if k < out.len() {
                    if !item.is_undefined() {
                        let ghost before = out@;
                        let mut current = Node::Undefined;
                        out.set_and_swap(k, &mut current);
                        proof {
                            lemma_trees_update(before, k as int, Node::Undefined);
                            assert(out@ =~= before.update(k as int, Node::Undefined));
                            lemma_list_fold_ok_prefix(base@, items@, n as nat, (k + 1) as nat, p);
                        }
                        let g = Frame::Lists { out, source, k, waiting: true, base, items, nodes };
                        return Advanced::Child(g, current, item);
                    }
                } else {
                    proof {
                        lemma_trees_push(out@, item);
                    }
                    out.push(item);
                }
                k = k + 1;
            }
            Advanced::Finished(finish_list(out, p))
        },
        Frame::ListEntries { out, source, k, waiting, slot, key, base, items, nodes } => {
            let ghost k0 = k;
            let mut out = out;
            let mut source = source;
            let mut k = k;
            let n = source.len();
            while k < n
                invariant
                    k0 <= k <= n,
                    n == items@.len(),
                    frame_ok(
                        Frame::ListEntries { out, source, k, waiting: false, slot, key, base, items, nodes },
                        p,
                    ),
                decreases n - k,
            {
                let mut item = Node::Undefined;
                source.set_and_swap(k, &mut item);
                assert(tree_of(item) == items@[k as int]);
                proof {
                    lemma_items_weight_mono(items@, k0 as int, k as int);
                }
                if !item.is_undefined() {
                    let name = index_to_string(k);
                    proof {
                        lemma_entry_trees(out@);
                        lemma_find_key(entry_trees(out@), name@);
                    }
                    match find_entry(&out, &name) {
                        Some(j) => {
                            let ghost before = out@;
                            let mut entry = (String::default(), Node::Undefined);
                            let ghost hole = entry;
                            out.set_and_swap(j, &mut entry);
                            let (old_key, current) = entry;
                            assert(entry_trees(before)[j as int] == (old_key@, tree_of(current)));
                            proof {
                                assert(out@ =~= before.update(j as int, hole));
                                lemma_entries_update(before, j as int, hole);
                                lemma_map_list_fold_ok_prefix(base@, items@, n as nat, (k + 1) as nat, p);
                            }
                            let g = Frame::ListEntries {
                                out,
                                source,
                                k,
                                waiting: true,
                                slot: j,
                                key: old_key,
                                base,
                                items,
                                nodes,
                            };
                            return Advanced::Child(g, current, item);
                        },
                        None => {
                            proof {
                                lemma_entries_push(out@, (name, item));
                            }
                            out.push((name, item));
                        },
                    }
                }
                k = k + 1;
            }
            Advanced::Finished(Node::Object(out))
        },
        Frame::Entries { out, source, k, waiting, slot, key, overflow, base, items, nodes } => {
            let ghost k0 = k;
            let mut out = out;
            let mut source = source;
            let mut k = k;
            let n = source.len();
            while k < n
                invariant
                    k0 <= k <= n,
                    n == items@.len(),
                    frame_ok(
                        Frame::Entries {
                            out,
                            source,
                            k,
                            waiting: false,
                            slot,
                            key,
                            overflow,
                            base,
                            items,
                            nodes,
                        },
                        p,
                    ),
                decreases n - k,
            {
                let mut pair_slot = (String::default(), Node::Undefined);
                source.set_and_swap(k, &mut pair_slot);
                let (name, value) = pair_slot;
                assert(items@[k as int] == (name@, tree_of(value)));
                proof {
                    lemma_entries_weight_mono(items@, k0 as int, k as int);
                    lemma_entry_trees(out@);
                    lemma_find_key(entry_trees(out@), name@);
                }
                match find_entry(&out, &name) {
                    Some(j) => {
                        let ghost before = out@;
                        let mut entry = (String::default(), Node::Undefined);
                        let ghost hole = entry;
                        out.set_and_swap(j, &mut entry);
                        let (old_key, current) = entry;
                        assert(entry_trees(before)[j as int] == (old_key@, tree_of(current)));
                        proof {
                            assert(out@ =~= before.update(j as int, hole));
                            lemma_entries_update(before, j as int, hole);
                            lemma_entries_fold_ok_prefix(base@, items@, n as nat, (k + 1) as nat, p);
                        }
                        let g = Frame::Entries {
                            out,
                            source,
                            k,
                            waiting: true,
                            slot: j,
                            key: old_key,
                            overflow,
                            base,
                            items,
                            nodes,
                        };
                        return Advanced::Child(g, current, value);
                    },
                    None => {
                        proof {
                            lemma_entries_push(out@, (name, value));
                        }
                        out.push((name, value));
                    },
                }
                k = k + 1;
            }
            match overflow {
                Some(m) => Advanced::Finished(Node::OverflowObject { entries: out, max_index: m }),
                None => Advanced::Finished(Node::Object(out)),
            }
        },
    }
}

/// Fills the hole of a waiting fold with the merge it waited for, and moves
/// the fold on to its next item.
fn deliver(f: Frame, merged: Node, p: bool) -> (g: Frame)
    requires
        frame_ok(f, p),
        frame_waiting(f),
        merged@ == child_goal(f, p),
    ensures
        frame_ok(g, p),
        !frame_waiting(g),
        final_goal(g, p) == final_goal(f, p),
        frame_weight(g) + 1 == frame_weight(f),
{
    proof {
        reveal(frame_ok);
        reveal(child_goal);
        reveal(final_goal);
        reveal(frame_weight);
    }
    match f {
        Frame::Lists { out, source, k, waiting, base, items, nodes } => {
            let ghost before = out@;
            let n = source.len();
            let mut out = out;
            proof {
                lemma_trees_of(before);
            }
            out.set(k, merged);
            proof {
                lemma_trees_update(before, k as int, merged);
                assert(out@ =~= before.update(k as int, merged));
                assert(trees_of(out@) =~= list_fold(base@, items@, (k + 1) as nat, p));
            }
            Frame::Lists { out, source, k: k + 1, waiting: false, base, items, nodes }
        },
        Frame::ListEntries { out, source, k, waiting, slot, key, base, items, nodes } => {
            let ghost before = out@;
            let ghost es = map_list_fold(base@, items@, k as nat, p);
            let n = source.len();
            let mut out = out;
            proof {
                lemma_entry_trees(before);
            }
            out.set(slot, (key, merged));
            proof {
                lemma_entries_update(before, slot as int, (key, merged));
                assert(out@ =~= before.update(slot as int, (key, merged)));
                assert(entry_trees(out@) =~= es.update(slot as int, (es[slot as int].0, merged@)));
            }
            Frame::ListEntries {
                out,
                source,
                k: k + 1,
                waiting: false,
                slot,
                key: String::default(),
                base,
                items,
                nodes,
            }
        },
        Frame::Entries { out, source, k, waiting, slot, key, overflow, base, items, nodes } => {
            let ghost before = out@;
            let ghost es = entries_fold(base@, items@, k as nat, p);
            let n = source.len();
            let mut out = out;
            proof {
                lemma_entry_trees(before);
            }
            out.set(slot, (key, merged));
            proof {
                lemma_entries_update(before, slot as int, (key, merged));
                assert(out@ =~= before.update(slot as int, (key, merged)));
                assert(entry_trees(out@) =~= es.update(slot as int, (es[slot as int].0, merged@)));
            }
            Frame::Entries {
                out,
                source,
                k: k + 1,
                waiting: false,
                slot,
                key: String::default(),
                overflow,
                base,
                items,
                nodes,
            }
        },
    }
}

/// The work the merge loop does next: start merging a pair, move the top
/// fold on, or hand a finished merge to the fold that waits for it.
enum Task {
    Start(Node, Node),
    Resume,
    Return(Node),
}

/// The weight of the work a task holds.
spec fn task_weight(t: Task) -> nat {
    match t {
        Task::Start(_, s) => tree_weight(s@),
        _ => 0,
    }
}

/// The order in which tasks of equal weight follow one another.
spec fn task_phase(t: Task) -> nat {
    match t {
        Task::Start(..) => 1,
        Task::Resume => 2,
        Task::Return(_) => 0,
    }
}

/// The stack and the task agree with the goal of the whole merge.
spec fn task_ok(t: Task, s: Seq<Frame>, p: bool, goal: Tree) -> bool {
    match t {
        Task::Start(a, b) => merge_ok(a@, b@, p) && stack_waits_for(s, p, goal, merge_tree(a@, b@, p)),
        Task::Resume => s.len() > 0 && !frame_waiting(s.last()),
        Task::Return(n) => stack_waits_for(s, p, goal, n@),
    }
}

/// Merges two decode trees according to the configured list semantics.
///
/// The merge runs as a loop over an explicit stack of pending folds, so its
/// depth does not grow the call stack. It must stay within `usize` (see
/// [`merge_ok`], and [`merge_indices_fit`] to check a source); it never
/// fails.
pub fn merge(target: Node, source: Node, options: &DecodeOptions) -> (r: Result<Node, DecodeError>)
    requires
        merge_ok(target@, source@, options@.parse_lists),
    ensures
        r matches Ok(n) && n@ == merge_tree(target@, source@, options@.parse_lists),
{
    let p = options.parse_lists();
    let ghost goal = merge_tree(target@, source@, p);
    let mut stack: Vec<Frame> = Vec::new();
    let mut task = Task::Start(target, source);
    loop
        invariant
            goal == merge_tree(target@, source@, options@.parse_lists),
            p == options@.parse_lists,
            stack_ok(stack@, p, goal),
            task_ok(task, stack@, p, goal),
        decreases stack_weight(stack@) + task_weight(task), task_phase(task),
    {
        let ghost before = stack@;
        match task {
            Task::Start(t, s) => {
                match start_merge(t, s, p) {
                    Started::Done(n) => {
                        task = Task::Return(n);
                    },
                    Started::Fold(f) => {
                        proof {
                            lemma_stack_push(before, f, p, goal);
                        }
                        stack.push(f);
                        task = Task::Resume;
                    },
                }
            },
            Task::Resume => {
                proof {
                    lemma_stack_pop(before, p, goal);
                }
                let f = stack.pop().unwrap();
                match advance_frame(f, p) {
                    Advanced::Finished(n) => {
                        task = Task::Return(n);
                    },
                    Advanced::Child(g, t, s) => {
                        proof {
                            lemma_stack_push(stack@, g, p, goal);
                        }
                        stack.push(g);
                        task = Task::Start(t, s);
                    },
                }
            },
            Task::Return(n) => {
                if stack.len() == 0 {
                    return Ok(n);
                }
                proof {
                    lemma_stack_pop(before, p, goal);
                }
                let f = stack.pop().unwrap();
                let g = deliver(f, n, p);
                proof {
                    lemma_stack_push(stack@, g, p, goal);
                }
                stack.push(g);
                task = Task::Resume;
            },
        }
    }
}

// ---------------------------------------------------------------------------
// Keys stay unique.
// ---------------------------------------------------------------------------

/// No two entries share a key.
pub open spec fn unique_keys(es: Seq<(Seq<char>, Tree)>) -> bool {
    forall|i: int, j: int| 0 <= i < j < es.len() ==> (#[trigger] es[i]).0 != (#[trigger] es[j]).0
}

/// Every object inside the tree, at any depth, has unique keys.
pub open spec fn well_keyed(t: Tree) -> bool
    decreases t,
{
    match t {
        Tree::List(ss) => forall|i: int| 0 <= i < ss.len() ==> well_keyed(#[trigger] ss[i]),
        Tree::Object(es) => unique_keys(es) && forall|i: int|
            0 <= i < es.len() ==> well_keyed(#[trigger] es[i].1),
        Tree::Overflow(es, _) => unique_keys(es) && forall|i: int|
            0 <= i < es.len() ==> well_keyed(#[trigger] es[i].1),
        _ => true,
    }
}

/// Every item of a list is well keyed.
pub open spec fn items_well_keyed(ss: Seq<Tree>) -> bool {
    forall|i: int| 0 <= i < ss.len() ==> well_keyed(#[trigger] ss[i])
}

/// The keys of a sequence of entries are unique and every value is well keyed.
pub open spec fn entries_well_keyed(es: Seq<(Seq<char>, Tree)>) -> bool {
    unique_keys(es) && forall|i: int| 0 <= i < es.len() ==> well_keyed(#[trigger] es[i].1)
}

/// A list is well keyed exactly when its items are.
proof fn lemma_well_keyed_list(ss: Seq<Tree>)
    ensures
        well_keyed(Tree::List(ss)) == items_well_keyed(ss),
{
    let t = Tree::List(ss);
    assert(t->List_0 == ss);
}

/// An object is well keyed exactly when its entries are.
proof fn lemma_well_keyed_object(es: Seq<(Seq<char>, Tree)>, m: nat)
    ensures
        well_keyed(Tree::Object(es)) == entries_well_keyed(es),
        well_keyed(Tree::Overflow(es, m)) == entries_well_keyed(es),
{
    let t = Tree::Object(es);
    assert(t->Object_0 == es);
    let u = Tree::Overflow(es, m);
    assert(u->Overflow_0 == es);
}

/// Setting a value keeps the keys unique.
proof fn lemma_map_insert_well_keyed(es: Seq<(Seq<char>, Tree)>, k: Seq<char>, v: Tree)
    requires
        entries_well_keyed(es),
        well_keyed(v),
    ensures
        entries_well_keyed(map_insert(es, k, v)),
{
    lemma_find_key(es, k);
    let r = map_insert(es, k, v);
    match find_key(es, k) {
        Some(j) => {
            assert forall|a: int, b: int| 0 <= a < b < r.len() implies (#[trigger] r[a]).0 != (
            #[trigger] r[b]).0 by {
                assert(r[a].0 == es[a].0);
                assert(r[b].0 == es[b].0);
            }
        },
        None => {
            assert forall|a: int, b: int| 0 <= a < b < r.len() implies (#[trigger] r[a]).0 != (
            #[trigger] r[b]).0 by {
                if b == es.len() {
                    assert(r[a] == es[a]);
                } else {
                    assert(r[a] == es[a]);
                    assert(r[b] == es[b]);
                }
            }
        },
    }
}

/// Replacing the value at a position keeps the keys unique.
proof fn lemma_update_value_well_keyed(es: Seq<(Seq<char>, Tree)>, j: int, v: Tree)
    requires
        entries_well_keyed(es),
        0 <= j < es.len(),
        well_keyed(v),
    ensures
        entries_well_keyed(es.update(j, (es[j].0, v))),
{
    let r = es.update(j, (es[j].0, v));
    assert forall|a: int, b: int| 0 <= a < b < r.len() implies (#[trigger] r[a]).0 != (
    #[trigger] r[b]).0 by {
        assert(r[a].0 == es[a].0);
        assert(r[b].0 == es[b].0);
    }
}

/// Appending an entry under a new key keeps the keys unique.
proof fn lemma_push_new_well_keyed(es: Seq<(Seq<char>, Tree)>, k: Seq<char>, v: Tree)
    requires
        entries_well_keyed(es),
        find_key(es, k) is None,
        well_keyed(v),
    ensures
        entries_well_keyed(es.push((k, v))),
{
    lemma_find_key(es, k);
    let r = es.push((k, v));
    assert forall|a: int, b: int| 0 <= a < b < r.len() implies (#[trigger] r[a]).0 != (
    #[trigger] r[b]).0 by {
        assert(r[a] == es[a]);
        if b < es.len() {
            assert(r[b] == es[b]);
        }
    }
}

/// Distinct indices have distinct texts.
proof fn lemma_index_text_injective(a: nat, b: nat)
    requires
        a != b,
    ensures
        index_text(a) != index_text(b),
{
    crate::overflow::lemma_index_text_value(a);
    crate::overflow::lemma_index_text_value(b);
}

/// The keys of a numeric object are the texts of positions of the list, in
/// increasing order, and each entry holds the item at its position.
proof fn lemma_numeric_entries(items: Seq<Tree>, keep: bool)
    ensures
        forall|i: int|
            0 <= i < numeric_entries(items, keep).len() ==> exists|j: int|
                0 <= j < items.len() && (#[trigger] numeric_entries(items, keep)[i]) == (
                index_text(j as nat),
                items[j],
            ),
        unique_keys(numeric_entries(items, keep)),
    decreases items.len(),
{
    if items.len() > 0 {
        let before = numeric_entries(items.drop_last(), keep);
        lemma_numeric_entries(items.drop_last(), keep);
        let r = numeric_entries(items, keep);
        let n = items.len() - 1;
        assert forall|i: int| 0 <= i < before.len() implies exists|j: int|
            0 <= j < items.len() && (#[trigger] before[i]) == (index_text(j as nat), items[j]) by {
            let j = choose|j: int|
                0 <= j < items.drop_last().len() && before[i] == (
                index_text(j as nat),
                items.drop_last()[j],
            );
            assert(items.drop_last()[j] == items[j]);
        }
        if !(!keep && items.last() is Undefined) {
            assert forall|i: int| 0 <= i < r.len() implies exists|j: int|
                0 <= j < items.len() && (#[trigger] r[i]) == (index_text(j as nat), items[j]) by {
                if i == before.len() {
                    assert(r[i] == (index_text(n as nat), items[n]));
                } else {
                    assert(r[i] == before[i]);
                }
            }
            assert forall|a: int, b: int| 0 <= a < b < r.len() implies (#[trigger] r[a]).0 != (
            #[trigger] r[b]).0 by {
                assert(r[a] == before[a]);
                if b == before.len() {
                    let ja = choose|j: int|
                        0 <= j < items.drop_last().len() && before[a] == (
                        index_text(j as nat),
                        items.drop_last()[j],
                    );
                    lemma_index_text_injective(ja as nat, n as nat);
                } else {
                    assert(r[b] == before[b]);
                }
            }
        }
    }
}

/// A numeric object of well-keyed items is well keyed.
proof fn lemma_numeric_well_keyed(items: Seq<Tree>, keep: bool)
    requires
        items_well_keyed(items),
    ensures
        entries_well_keyed(numeric_entries(items, keep)),
{
    lemma_numeric_entries(items, keep);
    let r = numeric_entries(items, keep);
    assert forall|i: int| 0 <= i < r.len() implies well_keyed(#[trigger] r[i].1) by {
        let j = choose|j: int| 0 <= j < items.len() && r[i] == (index_text(j as nat), items[j]);
    }
}

/// The defined items of a well-keyed list are well keyed.
proof fn lemma_defined_well_keyed(ss: Seq<Tree>)
    requires
        items_well_keyed(ss),
    ensures
        items_well_keyed(defined(ss)),
    decreases ss.len(),
{
    if ss.len() > 0 {
        assert(items_well_keyed(ss.drop_last())) by {
            assert forall|i: int| 0 <= i < ss.drop_last().len() implies well_keyed(
                #[trigger] ss.drop_last()[i],
            ) by {
                assert(ss.drop_last()[i] == ss[i]);
            }
        }
        lemma_defined_well_keyed(ss.drop_last());
        assert(well_keyed(ss[ss.len() - 1]));
    }
}

/// Merging source items into a well-keyed list keeps it well keyed.
proof fn lemma_list_fold_well_keyed(acc0: Seq<Tree>, ss: Seq<Tree>, n: nat, p: bool)
    requires
        items_well_keyed(acc0),
        items_well_keyed(ss),
    ensures
        items_well_keyed(list_fold(acc0, ss, n, p)),
    decreases ss, n,
{
    if n > 0 && n <= ss.len() {
        lemma_list_fold_well_keyed(acc0, ss, (n - 1) as nat, p);
        let acc = list_fold(acc0, ss, (n - 1) as nat, p);
        let k = n - 1;
        assert(well_keyed(ss[k]));
        if k < acc.len() {
            if !is_undef(ss[k]) {
                lemma_merge_well_keyed(acc[k], ss[k], p);
                let r = acc.update(k, merge_tree(acc[k], ss[k], p));
                assert forall|i: int| 0 <= i < r.len() implies well_keyed(#[trigger] r[i]) by {
                    if i != k {
                        assert(r[i] == acc[i]);
                    }
                }
            }
        } else {
            let r = acc.push(ss[k]);
            assert forall|i: int| 0 <= i < r.len() implies well_keyed(#[trigger] r[i]) by {
                if i < acc.len() {
                    assert(r[i] == acc[i]);
                }
            }
        }
    }
}

/// Merging source items into a well-keyed object under their positions
/// keeps it well keyed.
proof fn lemma_map_list_fold_well_keyed(es0: Seq<(Seq<char>, Tree)>, ss: Seq<Tree>, n: nat, p: bool)
    requires
        entries_well_keyed(es0),
        items_well_keyed(ss),
    ensures
        entries_well_keyed(map_list_fold(es0, ss, n, p)),
    decreases ss, n,
{
    if n > 0 && n <= ss.len() {
        lemma_map_list_fold_well_keyed(es0, ss, (n - 1) as nat, p);
        let es = map_list_fold(es0, ss, (n - 1) as nat, p);
        let k = n - 1;
        assert(well_keyed(ss[k]));
        if !is_undef(ss[k]) {
            lemma_find_key(es, index_text(k as nat));
            match find_key(es, index_text(k as nat)) {
                Some(j) => {
                    lemma_merge_well_keyed(es[j].1, ss[k], p);
                    lemma_update_value_well_keyed(es, j, merge_tree(es[j].1, ss[k], p));
                },
                None => {
                    lemma_push_new_well_keyed(es, index_text(k as nat), ss[k]);
                },
            }
        }
    }
}

/// Merging source entries into a well-keyed object keeps it well keyed.
proof fn lemma_entries_fold_well_keyed(
    es0: Seq<(Seq<char>, Tree)>,
    ses: Seq<(Seq<char>, Tree)>,
    n: nat,
    p: bool,
)
    requires
        entries_well_keyed(es0),
        entries_well_keyed(ses),
    ensures
        entries_well_keyed(entries_fold(es0, ses, n, p)),
    decreases ses, n,
{
    if n > 0 && n <= ses.len() {
        lemma_entries_fold_well_keyed(es0, ses, (n - 1) as nat, p);
        let es = entries_fold(es0, ses, (n - 1) as nat, p);
        let k = n - 1;
        assert(well_keyed(ses[k].1));
        lemma_find_key(es, ses[k].0);
        match find_key(es, ses[k].0) {
            Some(j) => {
                assert(decreases_to!(ses => ses[k]));
                lemma_merge_well_keyed(es[j].1, ses[k].1, p);
                lemma_update_value_well_keyed(es, j, merge_tree(es[j].1, ses[k].1, p));
            },
            None => {
                lemma_push_new_well_keyed(es, ses[k].0, ses[k].1);
                assert(es.push((ses[k].0, ses[k].1)) == es.push(ses[k]));
            },
        }
    }
}

/// Appending items to a well-keyed overflow object keeps it well keyed.
proof fn lemma_overflow_list_fold_well_keyed(es0: Seq<(Seq<char>, Tree)>, m0: nat, ss: Seq<Tree>, n: nat)
    requires
        entries_well_keyed(es0),
        items_well_keyed(ss),
    ensures
        entries_well_keyed(overflow_list_fold(es0, m0, ss, n).0),
    decreases n,
{
    if n > 0 && n <= ss.len() {
        lemma_overflow_list_fold_well_keyed(es0, m0, ss, (n - 1) as nat);
        let prev = overflow_list_fold(es0, m0, ss, (n - 1) as nat);
        let k = n - 1;
        assert(well_keyed(ss[k]));
        if !is_undef(ss[k]) {
            lemma_map_insert_well_keyed(prev.0, index_text(next_index(prev.1)), ss[k]);
        }
    }
}

/// Shifting well-keyed overflow entries behind a well-keyed tree keeps them
/// well keyed.
proof fn lemma_shift_fold_well_keyed(es0: Seq<(Seq<char>, Tree)>, ses: Seq<(Seq<char>, Tree)>, n: nat)
    requires
        entries_well_keyed(es0),
        entries_well_keyed(ses),
    ensures
        entries_well_keyed(shift_fold(es0, ses, n)),
    decreases n,
{
    if n > 0 && n <= ses.len() {
        lemma_shift_fold_well_keyed(es0, ses, (n - 1) as nat);
        let es = shift_fold(es0, ses, (n - 1) as nat);
        let k = n - 1;
        assert(well_keyed(ses[k].1));
        match canonical_index(ses[k].0) {
            Some(i) => lemma_map_insert_well_keyed(es, index_text(i as nat + 1), ses[k].1),
            None => lemma_map_insert_well_keyed(es, ses[k].0, ses[k].1),
        }
    }
}

/// Merging keeps every object of the trees free of repeated keys.
proof fn lemma_merge_well_keyed(t: Tree, s: Tree, p: bool)
    requires
        well_keyed(t),
        well_keyed(s),
    ensures
        well_keyed(merge_tree(t, s, p)),
    decreases s, 0nat,
{
    let r = merge_tree(t, s, p);
    if s == Tree::Leaf(Value::Null) {
    } else if !map_like(s) {
        match t {
            Tree::List(ts) => {
                lemma_well_keyed_list(ts);
                if has_undefined(ts) {
                    let indexed = match s {
                        Tree::List(ss) => fill(ts, ss),
                        _ => ts.push(s),
                    };
                    match s {
                        Tree::List(ss) => {
                            lemma_well_keyed_list(ss);
                            assert forall|i: int| 0 <= i < indexed.len() implies well_keyed(
                                #[trigger] indexed[i],
                            ) by {
                                if i < ss.len() && !is_undef(ss[i]) {
                                    assert(well_keyed(ss[i]));
                                } else if i < ts.len() {
                                    assert(well_keyed(ts[i]));
                                }
                            }
                        },
                        _ => {
                            assert forall|i: int| 0 <= i < indexed.len() implies well_keyed(
                                #[trigger] indexed[i],
                            ) by {
                                if i < ts.len() {
                                    assert(indexed[i] == ts[i]);
                                }
                            }
                        },
                    }
                    lemma_well_keyed_list(indexed);
                    lemma_numeric_well_keyed(indexed, false);
                    lemma_well_keyed_object(numeric_entries(indexed, false), 0);
                } else {
                    match s {
                        Tree::List(ss) => {
                            lemma_well_keyed_list(ss);
                            if all_map_like_or_undefined(ts) && all_map_like_or_undefined(ss) {
                                lemma_list_fold_well_keyed(ts, ss, ss.len(), p);
                                let folded = list_fold(ts, ss, ss.len(), p);
                                lemma_well_keyed_list(folded);
                                lemma_numeric_well_keyed(folded, false);
                                lemma_well_keyed_object(numeric_entries(folded, false), 0);
                            } else {
                                lemma_defined_well_keyed(ss);
                                let joined = ts + defined(ss);
                                assert forall|i: int| 0 <= i < joined.len() implies well_keyed(
                                    #[trigger] joined[i],
                                ) by {
                                    if i < ts.len() {
                                        assert(joined[i] == ts[i]);
                                    } else {
                                        assert(joined[i] == defined(ss)[i - ts.len()]);
                                    }
                                }
                                lemma_well_keyed_list(joined);
                            }
                        },
                        _ => {
                            let pushed = ts.push(s);
                            assert forall|i: int| 0 <= i < pushed.len() implies well_keyed(
                                #[trigger] pushed[i],
                            ) by {
                                if i < ts.len() {
                                    assert(pushed[i] == ts[i]);
                                }
                            }
                            lemma_well_keyed_list(pushed);
                        },
                    }
                }
            },
            Tree::Object(es) => {
                lemma_well_keyed_object(es, 0);
                match s {
                    Tree::List(ss) => {
                        lemma_well_keyed_list(ss);
                        lemma_map_list_fold_well_keyed(es, ss, ss.len(), p);
                        lemma_well_keyed_object(map_list_fold(es, ss, ss.len(), p), 0);
                    },
                    Tree::Undefined => {},
                    _ => {
                        lemma_well_keyed_list(seq![t, s]);
                    },
                }
            },
            Tree::Overflow(es, m) => {
                lemma_well_keyed_object(es, m);
                match s {
                    Tree::List(ss) => {
                        lemma_well_keyed_list(ss);
                        lemma_overflow_list_fold_well_keyed(es, m, ss, ss.len());
                        let folded = overflow_list_fold(es, m, ss, ss.len());
                        lemma_well_keyed_object(folded.0, folded.1);
                    },
                    Tree::Undefined => {},
                    _ => {
                        lemma_map_insert_well_keyed(es, index_text(next_index(m)), s);
                        lemma_well_keyed_object(
                            map_insert(es, index_text(next_index(m)), s),
                            next_index(m),
                        );
                    },
                }
            },
            _ => {
                match s {
                    Tree::List(ss) => {
                        lemma_well_keyed_list(ss);
                        lemma_defined_well_keyed(ss);
                        let joined = seq![t] + defined(ss);
                        assert forall|i: int| 0 <= i < joined.len() implies well_keyed(
                            #[trigger] joined[i],
                        ) by {
                            if i > 0 {
                                assert(joined[i] == defined(ss)[i - 1]);
                            }
                        }
                        lemma_well_keyed_list(joined);
                    },
                    _ => {
                        lemma_well_keyed_list(seq![t, s]);
                    },
                }
            },
        }
    } else {
        match s {
            Tree::Object(ses) => {
                lemma_well_keyed_object(ses, 0);
                match t {
                    Tree::Object(es) => {
                        lemma_well_keyed_object(es, 0);
                        lemma_entries_fold_well_keyed(es, ses, ses.len(), p);
                        lemma_well_keyed_object(entries_fold(es, ses, ses.len(), p), 0);
                    },
                    Tree::Overflow(es, m) => {
                        lemma_well_keyed_object(es, m);
                        lemma_entries_fold_well_keyed(es, ses, ses.len(), p);
                        lemma_well_keyed_object(entries_fold(es, ses, ses.len(), p), 0);
                    },
                    Tree::List(ts) => {
                        lemma_well_keyed_list(ts);
                        lemma_numeric_well_keyed(ts, false);
                        lemma_entries_fold_well_keyed(
                            numeric_entries(ts, false),
                            ses,
                            ses.len(),
                            p,
                        );
                        lemma_well_keyed_object(
                            entries_fold(numeric_entries(ts, false), ses, ses.len(), p),
                            0,
                        );
                    },
                    Tree::Undefined => {},
                    _ => {
                        lemma_well_keyed_list(seq![t, s]);
                    },
                }
            },
            Tree::Overflow(ses, sm) => {
                lemma_well_keyed_object(ses, sm);
                match t {
                    Tree::Object(es) => {
                        lemma_well_keyed_object(es, 0);
                        lemma_entries_fold_well_keyed(es, ses, ses.len(), p);
                        lemma_well_keyed_object(entries_fold(es, ses, ses.len(), p), 0);
                    },
                    Tree::Overflow(es, m) => {
                        lemma_well_keyed_object(es, m);
                        lemma_entries_fold_well_keyed(es, ses, ses.len(), p);
                        lemma_well_keyed_object(entries_fold(es, ses, ses.len(), p), 0);
                    },
                    Tree::List(ts) => {
                        lemma_well_keyed_list(ts);
                        lemma_numeric_well_keyed(ts, false);
                        lemma_entries_fold_well_keyed(
                            numeric_entries(ts, false),
                            ses,
                            ses.len(),
                            p,
                        );
                        lemma_well_keyed_object(
                            entries_fold(numeric_entries(ts, false), ses, ses.len(), p),
                            0,
                        );
                    },
                    Tree::Undefined => {},
                    _ => {
                        let start = seq![(index_text(0), t)];
                        assert(entries_well_keyed(start));
                        lemma_shift_fold_well_keyed(start, ses, ses.len());
                        lemma_well_keyed_object(shift_fold(start, ses, ses.len()), sm + 1);
                    },
                }
            },
            _ => {},
        }
    }
}

/// Merging never gives an object two entries under one key: when every
/// object of the target and of the source has distinct keys, so does every
/// object of the merged tree.
pub proof fn law_merge_keeps_keys_unique(t: Tree, s: Tree, parse_lists: bool)
    requires
        well_keyed(t),
        well_keyed(s),
    ensures
        well_keyed(merge_tree(t, s, parse_lists)),
{
    lemma_merge_well_keyed(t, s, parse_lists);
}

// ---------------------------------------------------------------------------
// The order of keys when two objects merge.
// ---------------------------------------------------------------------------

/// The first `n` source entries whose keys the target does not hold, in
/// source order.
pub open spec fn new_entries(es: Seq<(Seq<char>, Tree)>, ses: Seq<(Seq<char>, Tree)>, n: nat) -> Seq<(Seq<char>, Tree)>
    decreases n,
{
    if n == 0 || n > ses.len() {
        Seq::empty()
    } else {
        let prev = new_entries(es, ses, (n - 1) as nat);
        if find_key(es, ses[n - 1].0) is Some {
            prev
        } else {
            prev.push(ses[n - 1])
        }
    }
}

/// The value a target entry holds once the first `n` source entries are in:
/// merged with the source value under its key, if that entry is among them.
pub open spec fn merged_value(e: (Seq<char>, Tree), ses: Seq<(Seq<char>, Tree)>, n: nat, p: bool) -> Tree {
    match find_key(ses, e.0) {
        Some(j) => if j < n {
            merge_tree(e.1, ses[j].1, p)
        } else {
            e.1
        },
        None => e.1,
    }
}

/// The keys of the new entries are keys of the first `n` source entries.
proof fn lemma_new_entries_keys(es: Seq<(Seq<char>, Tree)>, ses: Seq<(Seq<char>, Tree)>, n: nat, k: Seq<char>)
    requires
        n <= ses.len(),
        forall|j: int| 0 <= j < n ==> (#[trigger] ses[j]).0 != k,
    ensures
        forall|m: int| 0 <= m < new_entries(es, ses, n).len() ==> (#[trigger] new_entries(es, ses, n)[m]).0 != k,
    decreases n,
{
    if n > 0 {
        lemma_new_entries_keys(es, ses, (n - 1) as nat, k);
        let prev = new_entries(es, ses, (n - 1) as nat);
        assert forall|m: int| 0 <= m < new_entries(es, ses, n).len() implies (
        #[trigger] new_entries(es, ses, n)[m]).0 != k by {
            if m < prev.len() {
                assert(new_entries(es, ses, n)[m] == prev[m]);
            } else {
                assert(new_entries(es, ses, n)[m] == ses[n - 1]);
            }
        }
    }
}

/// The fold of the first `n` source entries into an object with distinct
/// keys: the target's entries in place, each merged with its source value,
/// then the new entries in source order.
proof fn lemma_entries_fold_order(es: Seq<(Seq<char>, Tree)>, ses: Seq<(Seq<char>, Tree)>, n: nat, p: bool)
    requires
        unique_keys(es),
        unique_keys(ses),
        n <= ses.len(),
    ensures
        ({
            let r = entries_fold(es, ses, n, p);
            &&& r.len() == es.len() + new_entries(es, ses, n).len()
            &&& forall|i: int| 0 <= i < es.len() ==> #[trigger] r[i] == (es[i].0, merged_value(es[i], ses, n, p))
            &&& r.subrange(es.len() as int, r.len() as int) == new_entries(es, ses, n)
        }),
    decreases n,
{
    if n == 0 {
        let r = entries_fold(es, ses, 0, p);
        assert forall|i: int| 0 <= i < es.len() implies #[trigger] r[i] == (es[i].0, merged_value(es[i], ses, 0, p)) by {
            lemma_find_key(ses, es[i].0);
        }
        assert(r.subrange(es.len() as int, r.len() as int) =~= Seq::<(Seq<char>, Tree)>::empty());
    } else {
        let m = (n - 1) as nat;
        lemma_entries_fold_order(es, ses, m, p);
        let prev = entries_fold(es, ses, m, p);
        let r = entries_fold(es, ses, n, p);
        let k = ses[m as int].0;
        let fresh = new_entries(es, ses, m);
        lemma_find_key(es, k);
        lemma_find_key(prev, k);
        lemma_find_key(ses, k);
        assert(find_key(ses, k) == Some(m as int)) by {
            match find_key(ses, k) {
                Some(j) => {
                    if j < m {
                        assert(ses[j].0 == ses[m as int].0);
                    }
                },
                None => {},
            }
        }
        assert forall|j: int| 0 <= j < m implies (#[trigger] ses[j]).0 != k by {
            assert(ses[j].0 != ses[m as int].0);
        }
        lemma_new_entries_keys(es, ses, m, k);
        assert forall|i: int| 0 <= i < es.len() && i != find_key(es, k).unwrap_or(-1) implies merged_value(
            es[i],
            ses,
            n,
            p,
        ) == #[trigger] merged_value(es[i], ses, m, p) by {
            lemma_find_key(ses, es[i].0);
            if find_key(ses, es[i].0) == Some(m as int) {
                assert(es[i].0 == k);
                lemma_find_key(es, k);
                match find_key(es, k) {
                    Some(a) => {
                        if a != i {
                            assert(es[a].0 == es[i].0);
                            if a < i {
                                assert(es[a].0 != es[i].0);
                            } else {
                                assert(es[i].0 != es[a].0);
                            }
                        }
                    },
                    None => {},
                }
            }
        }
        match find_key(es, k) {
            Some(a) => {
                assert(prev[a] == (es[a].0, merged_value(es[a], ses, m, p)));
                assert(find_key(prev, k) == Some(a)) by {
                    match find_key(prev, k) {
                        Some(b) => {
                            if b < a {
                                assert(prev[b] == (es[b].0, merged_value(es[b], ses, m, p)));
                            } else if b > a {
                                assert(prev[a].0 == k);
                            }
                        },
                        None => {
                            assert(prev[a].0 == k);
                        },
                    }
                }
                lemma_find_key(ses, es[a].0);
                assert(merged_value(es[a], ses, m, p) == es[a].1);
                assert(r == prev.update(a, (prev[a].0, merge_tree(prev[a].1, ses[m as int].1, p))));
                assert(new_entries(es, ses, n) == fresh);
                assert forall|i: int| 0 <= i < es.len() implies #[trigger] r[i] == (es[i].0, merged_value(es[i], ses, n, p)) by {
                    if i != a {
                        assert(r[i] == prev[i]);
                    }
                }
                assert(r.subrange(es.len() as int, r.len() as int) =~= prev.subrange(es.len() as int, prev.len() as int));
            },
            None => {
                assert(find_key(prev, k) is None) by {
                    match find_key(prev, k) {
                        Some(b) => {
                            if b < es.len() {
                                assert(prev[b] == (es[b].0, merged_value(es[b], ses, m, p)));
                            } else {
                                assert(prev.subrange(es.len() as int, prev.len() as int)[b - es.len()] == prev[b]);
                            }
                        },
                        None => {},
                    }
                }
                assert(r == prev.push(ses[m as int]));
                assert(new_entries(es, ses, n) == fresh.push(ses[m as int]));
                assert forall|i: int| 0 <= i < es.len() implies #[trigger] r[i] == (es[i].0, merged_value(es[i], ses, n, p)) by {
                    assert(r[i] == prev[i]);
                }
                assert(r.subrange(es.len() as int, r.len() as int) =~= prev.subrange(es.len() as int, prev.len() as int).push(ses[m as int]));
            },
        }
    }
}

/// Merging a plain object source into a plain object target, both with
/// distinct keys, keeps the target's keys in their order, each with its
/// value merged with the source value under the same key when there is one,
/// and appends the keys only the source holds, in source order, with their
/// source values.
pub proof fn law_object_merge_key_order(es: Seq<(Seq<char>, Tree)>, ses: Seq<(Seq<char>, Tree)>, p: bool)
    requires
        unique_keys(es),
        unique_keys(ses),
    ensures
        ({
            let r = merge_tree(Tree::Object(es), Tree::Object(ses), p);
            let fresh = new_entries(es, ses, ses.len());
            &&& r matches Tree::Object(rs)
            &&& rs.len() == es.len() + fresh.len()
            &&& forall|i: int| 0 <= i < es.len() ==> #[trigger] rs[i] == (es[i].0, merged_value(es[i], ses, ses.len(), p))
            &&& rs.subrange(es.len() as int, rs.len() as int) == fresh
        }),
{
    lemma_entries_fold_order(es, ses, ses.len(), p);
}

// ---------------------------------------------------------------------------
// Placeholders and nulls.
// ---------------------------------------------------------------------------

/// A null source leaves any target as it is.
pub proof fn law_null_source_keeps_target(t: Tree, parse_lists: bool)
    ensures
        merge_tree(t, Tree::Leaf(Value::Null), parse_lists) == t,
{
}

/// A placeholder target gives way to an object or overflow source, which is
/// taken whole.
pub proof fn law_placeholder_takes_map_source(s: Tree, parse_lists: bool)
    requires
        map_like(s),
    ensures
        merge_tree(Tree::Undefined, s, parse_lists) == s,
{
}

/// A placeholder source leaves an object or overflow target as it is.
pub proof fn law_placeholder_source_keeps_map_target(t: Tree, parse_lists: bool)
    requires
        map_like(t),
    ensures
        merge_tree(t, Tree::Undefined, parse_lists) == t,
{
}

// ---------------------------------------------------------------------------
// Overflow indices only grow.
// ---------------------------------------------------------------------------

/// Tracking source keys never lowers the greatest index.
proof fn lemma_track_max_grows(m0: usize, ses: Seq<(Seq<char>, Tree)>, n: nat)
    ensures
        track_max(Some(m0), ses, n) matches Some(x) && x >= m0,
    decreases n,
{
    if n > 0 && n <= ses.len() {
        lemma_track_max_grows(m0, ses, (n - 1) as nat);
    }
}

/// Appending items to an overflow object never lowers its greatest index.
proof fn lemma_overflow_list_fold_grows(es0: Seq<(Seq<char>, Tree)>, m0: nat, ss: Seq<Tree>, n: nat)
    ensures
        overflow_list_fold(es0, m0, ss, n).1 >= m0,
    decreases n,
{
    if n > 0 && n <= ss.len() {
        lemma_overflow_list_fold_grows(es0, m0, ss, (n - 1) as nat);
    }
}

/// Merging a non-null source into an overflow object gives an overflow object
/// whose greatest index is at least the target's.
pub proof fn law_overflow_index_never_decreases(
    es: Seq<(Seq<char>, Tree)>,
    m: nat,
    s: Tree,
    parse_lists: bool,
)
    requires
        m <= usize::MAX,
        s != Tree::Leaf(Value::Null),
    ensures
        merge_tree(Tree::Overflow(es, m), s, parse_lists) matches Tree::Overflow(_, m2) && m2 >= m,
{
    match s {
        Tree::List(ss) => lemma_overflow_list_fold_grows(es, m, ss, ss.len()),
        Tree::Object(ses) => {
            let init = match max_canonical(ses) {
                Some(x) => max_index(m as usize, x),
                None => m as usize,
            };
            lemma_track_max_grows(init, ses, ses.len());
        },
        Tree::Overflow(ses, sm) => {
            let init = max_index(m as usize, sm as usize);
            lemma_track_max_grows(init, ses, ses.len());
        },
        _ => {},
    }
}

// ---------------------------------------------------------------------------
// Checking that a merge stays within `usize`.
// ---------------------------------------------------------------------------

/// Every overflow object inside the tree keeps its greatest index and its
/// canonical keys below the largest `usize`.
pub open spec fn indices_fit(t: Tree) -> bool
    decreases t,
{
    match t {
        Tree::List(ss) => forall|i: int| 0 <= i < ss.len() ==> indices_fit(#[trigger] ss[i]),
        Tree::Object(es) => forall|i: int| 0 <= i < es.len() ==> indices_fit(#[trigger] es[i].1),
        Tree::Overflow(es, m) => m < usize::MAX && keys_fit(es) && forall|i: int|
            0 <= i < es.len() ==> indices_fit(#[trigger] es[i].1),
        _ => true,
    }
}

/// The indices of a list fit exactly when those of its items do, and those
/// of an object exactly when those of its values do.
proof fn lemma_indices_fit_unfold(ss: Seq<Tree>, es: Seq<(Seq<char>, Tree)>, m: nat)
    ensures
        indices_fit(Tree::List(ss)) == forall|i: int|
            0 <= i < ss.len() ==> indices_fit(#[trigger] ss[i]),
        indices_fit(Tree::Object(es)) == forall|i: int|
            0 <= i < es.len() ==> indices_fit(#[trigger] es[i].1),
        indices_fit(Tree::Overflow(es, m)) == (m < usize::MAX && keys_fit(es) && forall|i: int|
            0 <= i < es.len() ==> indices_fit(#[trigger] es[i].1)),
{
    let t = Tree::List(ss);
    assert(t->List_0 == ss);
    let u = Tree::Object(es);
    assert(u->Object_0 == es);
    let w = Tree::Overflow(es, m);
    assert(w->Overflow_0 == es);
}

/// Merging items whose indices fit into any list stays within `usize`.
proof fn lemma_list_fold_fits(acc0: Seq<Tree>, ss: Seq<Tree>, n: nat, p: bool)
    requires
        forall|i: int| 0 <= i < ss.len() ==> indices_fit(#[trigger] ss[i]),
    ensures
        list_fold_ok(acc0, ss, n, p),
    decreases ss, n,
{
    if n > 0 && n <= ss.len() {
        lemma_list_fold_fits(acc0, ss, (n - 1) as nat, p);
        let acc = list_fold(acc0, ss, (n - 1) as nat, p);
        let k = n - 1;
        assert(indices_fit(ss[k as int]));
        if k < acc.len() && !is_undef(ss[k as int]) {
            lemma_indices_fit_merge_ok(acc[k as int], ss[k as int], p);
        }
    }
}

/// Merging items whose indices fit into any object stays within `usize`.
proof fn lemma_map_list_fold_fits(es0: Seq<(Seq<char>, Tree)>, ss: Seq<Tree>, n: nat, p: bool)
    requires
        forall|i: int| 0 <= i < ss.len() ==> indices_fit(#[trigger] ss[i]),
    ensures
        map_list_fold_ok(es0, ss, n, p),
    decreases ss, n,
{
    if n > 0 && n <= ss.len() {
        lemma_map_list_fold_fits(es0, ss, (n - 1) as nat, p);
        let es = map_list_fold(es0, ss, (n - 1) as nat, p);
        let k = n - 1;
        assert(indices_fit(ss[k as int]));
        if !is_undef(ss[k as int]) {
            match find_key(es, index_text(k as nat)) {
                Some(j) => lemma_indices_fit_merge_ok(es[j].1, ss[k as int], p),
                None => {},
            }
        }
    }
}

/// Merging entries whose indices fit into any object stays within `usize`.
proof fn lemma_entries_fold_fits(
    es0: Seq<(Seq<char>, Tree)>,
    ses: Seq<(Seq<char>, Tree)>,
    n: nat,
    p: bool,
)
    requires
        forall|i: int| 0 <= i < ses.len() ==> indices_fit(#[trigger] ses[i].1),
    ensures
        entries_fold_ok(es0, ses, n, p),
    decreases ses, n,
{
    if n > 0 && n <= ses.len() {
        lemma_entries_fold_fits(es0, ses, (n - 1) as nat, p);
        let es = entries_fold(es0, ses, (n - 1) as nat, p);
        let k = n - 1;
        assert(indices_fit(ses[k as int].1));
        match find_key(es, ses[k as int].0) {
            Some(j) => lemma_indices_fit_merge_ok(es[j].1, ses[k as int].1, p),
            None => {},
        }
    }
}

/// A source whose indices fit merges into any target within `usize`.
proof fn lemma_indices_fit_merge_ok(t: Tree, s: Tree, p: bool)
    requires
        indices_fit(s),
    ensures
        merge_ok(t, s, p),
    decreases s, 0nat,
{
    if s == Tree::Leaf(Value::Null) {
    } else if !map_like(s) {
        match (t, s) {
            (Tree::List(ts), Tree::List(ss)) => lemma_list_fold_fits(ts, ss, ss.len(), p),
            (Tree::Object(es), Tree::List(ss)) => lemma_map_list_fold_fits(es, ss, ss.len(), p),
            _ => {},
        }
    } else {
        match s {
            Tree::Object(ses) => match t {
                Tree::Object(es) => lemma_entries_fold_fits(es, ses, ses.len(), p),
                Tree::Overflow(es, _) => lemma_entries_fold_fits(es, ses, ses.len(), p),
                Tree::List(ts) => lemma_entries_fold_fits(
                    numeric_entries(ts, false),
                    ses,
                    ses.len(),
                    p,
                ),
                _ => {},
            },
            Tree::Overflow(ses, _) => match t {
                Tree::Object(es) => lemma_entries_fold_fits(es, ses, ses.len(), p),
                Tree::Overflow(es, _) => lemma_entries_fold_fits(es, ses, ses.len(), p),
                Tree::List(ts) => lemma_entries_fold_fits(
                    numeric_entries(ts, false),
                    ses,
                    ses.len(),
                    p,
                ),
                _ => {},
            },
            _ => {},
        }
    }
}

/// Every node of a worklist has indices that fit.
spec fn all_fit(ws: Seq<&Node>) -> bool {
    forall|i: int| #![trigger ws[i]] 0 <= i < ws.len() ==> indices_fit(tree_of(*ws[i]))
}

/// The weight of the trees of a worklist.
spec fn work_weight(ws: Seq<&Node>) -> nat
    decreases ws.len(),
{
    if ws.len() == 0 {
        0
    } else {
        work_weight(ws.drop_last()) + tree_weight(tree_of(*ws.last()))
    }
}

/// Adding a node to a worklist adds its tree's fit and weight.
proof fn lemma_work_push(ws: Seq<&Node>, n: &Node)
    ensures
        all_fit(ws.push(n)) == (all_fit(ws) && indices_fit(tree_of(*n))),
        work_weight(ws.push(n)) == work_weight(ws) + tree_weight(tree_of(*n)),
{
    let t = ws.push(n);
    assert(t.drop_last() =~= ws);
    assert(t[ws.len() as int] == n);
    if all_fit(ws) && indices_fit(tree_of(*n)) {
        assert forall|i: int| #![trigger t[i]] 0 <= i < t.len() implies indices_fit(tree_of(*t[i])) by {
            if i < ws.len() {
                assert(t[i] == ws[i]);
            }
        }
    }
    if all_fit(t) {
        assert forall|i: int| #![trigger ws[i]] 0 <= i < ws.len() implies indices_fit(tree_of(*ws[i])) by {
            assert(t[i] == ws[i]);
        }
    }
}

/// Whether the indices of every overflow object inside `source` fit, in
/// which case merging `source` into any target stays within `usize` and
/// [`merge`] may be called. It walks the tree with a worklist, so its depth
/// does not grow the call stack.
#[verifier::loop_isolation(false)]
pub fn merge_indices_fit(source: &Node) -> (r: bool)
    ensures
        r == indices_fit(source@),
        r ==> forall|t: Tree, p: bool| #[trigger] merge_ok(t, source@, p),
{
    let mut work: Vec<&Node> = Vec::with_capacity(1);
    proof {
        lemma_work_push(work@, source);
    }
    work.push(source);
    while work.len() > 0
        invariant
            indices_fit(source@) == all_fit(work@),
        decreases work_weight(work@),
    {
        let ghost before = work@;
        let node = work.pop().unwrap();
        let ghost rest = work@;
        proof {
            assert(rest.push(node) =~= before);
            lemma_work_push(rest, node);
        }
        match node {
            Node::Array(items) => {
                let ghost ts = trees_of(items@);
                proof {
                    lemma_trees_of(items@);
                    lemma_indices_fit_unfold(ts, Seq::empty(), 0);
                    assert(tree_of(*node) == Tree::List(ts));
                }
                let mut j: usize = 0;
                while j < items.len()
                    invariant
                        j <= items@.len(),
                        ts.len() == items@.len(),
                        forall|i: int| 0 <= i < items@.len() ==> #[trigger] ts[i] == tree_of(items@[i]),
                        all_fit(work@) == (all_fit(rest) && forall|i: int|
                            0 <= i < j ==> indices_fit(#[trigger] ts[i])),
                        work_weight(work@) + items_weight(ts, j as int) + j == work_weight(rest)
                            + items_weight(ts, 0),
                    decreases items@.len() - j,
                {
                    proof {
                        lemma_work_push(work@, &items[j as int]);
                    }
                    work.push(&items[j]);
                    j = j + 1;
                }
            },
            Node::Object(entries) => {
                let ghost es = entry_trees(entries@);
                proof {
                    lemma_entry_trees(entries@);
                    lemma_indices_fit_unfold(Seq::empty(), es, 0);
                    assert(tree_of(*node) == Tree::Object(es));
                }
                let mut j: usize = 0;
                while j < entries.len()
                    invariant
                        j <= entries@.len(),
                        es.len() == entries@.len(),
                        forall|i: int| 0 <= i < entries@.len() ==> #[trigger] es[i] == entry_tree(entries@[i]),
                        all_fit(work@) == (all_fit(rest) && forall|i: int|
                            0 <= i < j ==> indices_fit(#[trigger] es[i].1)),
                        work_weight(work@) + entries_weight(es, j as int) + j == work_weight(rest)
                            + entries_weight(es, 0),
                    decreases entries@.len() - j,
                {
                    proof {
                        lemma_work_push(work@, &entries[j as int].1);
                    }
                    work.push(&entries[j].1);
                    j = j + 1;
                }
            },
            Node::OverflowObject { entries, max_index } => {
                let ghost es = entry_trees(entries@);
                proof {
                    lemma_entry_trees(entries@);
                    lemma_indices_fit_unfold(Seq::empty(), es, *max_index as nat);
                    assert(tree_of(*node) == Tree::Overflow(es, *max_index as nat));
                }
                if *max_index == usize::MAX || !canonical_keys_fit(entries) {
                    return false;
                }
                let mut j: usize = 0;
                while j < entries.len()
                    invariant
                        j <= entries@.len(),
                        es.len() == entries@.len(),
                        forall|i: int| 0 <= i < entries@.len() ==> #[trigger] es[i] == entry_tree(entries@[i]),
                        all_fit(work@) == (all_fit(rest) && forall|i: int|
                            0 <= i < j ==> indices_fit(#[trigger] es[i].1)),
                        work_weight(work@) + entries_weight(es, j as int) + j == work_weight(rest)
                            + entries_weight(es, 0),
                    decreases entries@.len() - j,
                {
                    proof {
                        lemma_work_push(work@, &entries[j as int].1);
                    }
                    work.push(&entries[j].1);
                    j = j + 1;
                }
            },
            _ => {},
        }
    }
    proof {
        assert forall|t: Tree, p: bool| #[trigger] merge_ok(t, source@, p) by {
            lemma_indices_fit_merge_ok(t, source@, p);
        }
    }
    true
}

/// Whether every canonical key of `entries` names an index below the largest
/// `usize`.
fn canonical_keys_fit(entries: &Vec<(String, Node)>) -> (r: bool)
    ensures
        r == keys_fit(entry_trees(entries@)),
{
    proof {
        lemma_entry_trees(entries@);
    }
    let mut i: usize = 0;
    while i < entries.len()
        invariant
            i <= entries@.len(),
            entry_trees(entries@).len() == entries@.len(),
            forall|j: int| 0 <= j < entries@.len() ==> #[trigger] entry_trees(entries@)[j] == entry_tree(entries@[j]),
            forall|j: int|
                0 <= j < i ==> (canonical_index(#[trigger] entry_trees(entries@)[j].0) matches Some(k) ==> k
                    < usize::MAX),
        decreases entries@.len() - i,
    {
        match parse_canonical_index(entries[i].0.as_str()) {
            Some(k) => {
                if k == usize::MAX {
                    assert(entry_trees(entries@)[i as int].0 == entries@[i as int].0@);
                    return false;
                }
            },
            None => {},
        }
        assert(entry_trees(entries@)[i as int].0 == entries@[i as int].0@);
        i = i + 1;
    }
    true
}

// ---------------------------------------------------------------------------
// Lists merge by position; targets keep their keys; scalars are kept.
// ---------------------------------------------------------------------------

/// The first `n` source items folded into a list without holes: the list
/// stretches to the longer length, a position both hold and the source
/// defines takes the merge of the two items, a position only the target
/// holds keeps its item, and a position only the source holds takes the
/// source item.
proof fn lemma_list_fold_positions(ts: Seq<Tree>, ss: Seq<Tree>, n: nat, p: bool)
    requires
        n <= ss.len(),
    ensures
        ({
            let rs = list_fold(ts, ss, n, p);
            &&& rs.len() == (if n > ts.len() { n } else { ts.len() })
            &&& forall|i: int|
                0 <= i < rs.len() ==> #[trigger] rs[i] == if i < ts.len() {
                    if i < n && !is_undef(ss[i]) {
                        merge_tree(ts[i], ss[i], p)
                    } else {
                        ts[i]
                    }
                } else {
                    ss[i]
                }
        }),
    decreases n,
{
    if n > 0 {
        let m = (n - 1) as nat;
        lemma_list_fold_positions(ts, ss, m, p);
        let acc = list_fold(ts, ss, m, p);
        let rs = list_fold(ts, ss, n, p);
        assert forall|i: int| 0 <= i < rs.len() implies #[trigger] rs[i] == if i < ts.len() {
            if i < n && !is_undef(ss[i]) {
                merge_tree(ts[i], ss[i], p)
            } else {
                ts[i]
            }
        } else {
            ss[i]
        } by {
            if i < acc.len() {
                assert(acc[i] == if i < ts.len() {
                    if i < m && !is_undef(ss[i]) {
                        merge_tree(ts[i], ss[i], p)
                    } else {
                        ts[i]
                    }
                } else {
                    ss[i]
                });
            }
        }
    }
}

/// Merging a source list into a target list without holes, where every item
/// of both is an object, an overflow object or a placeholder, goes position
/// by position: the merged list is as long as the longer one; where both
/// lists hold an item and the source's is defined, the two items merge;
/// elsewhere the target keeps its item and the source's extra items are
/// appended. (When lists are not parsed and a hole remains, the merged list
/// becomes its numeric object.)
pub proof fn law_list_merge_by_position(ts: Seq<Tree>, ss: Seq<Tree>, p: bool)
    requires
        !has_undefined(ts),
        all_map_like_or_undefined(ts),
        all_map_like_or_undefined(ss),
    ensures
        exists|rs: Seq<Tree>|
            {
                &&& merge_tree(Tree::List(ts), Tree::List(ss), p) == list_result(rs, p)
                &&& rs.len() == (if ss.len() > ts.len() { ss.len() } else { ts.len() })
                &&& forall|i: int|
                    0 <= i < rs.len() ==> #[trigger] rs[i] == if i < ts.len() {
                        if i < ss.len() && !is_undef(ss[i]) {
                            merge_tree(ts[i], ss[i], p)
                        } else {
                            ts[i]
                        }
                    } else {
                        ss[i]
                    }
            },
{
    lemma_list_fold_positions(ts, ss, ss.len(), p);
    let rs = list_fold(ts, ss, ss.len(), p);
    assert(merge_tree(Tree::List(ts), Tree::List(ss), p) == list_result(rs, p));
}

/// Folding source entries into entries keeps every target key in its place.
proof fn lemma_entries_fold_keys(es: Seq<(Seq<char>, Tree)>, ses: Seq<(Seq<char>, Tree)>, n: nat, p: bool)
    ensures
        entries_fold(es, ses, n, p).len() >= es.len(),
        forall|i: int| 0 <= i < es.len() ==> (#[trigger] entries_fold(es, ses, n, p)[i]).0 == es[i].0,
    decreases n,
{
    if n > 0 && n <= ses.len() {
        let m = (n - 1) as nat;
        lemma_entries_fold_keys(es, ses, m, p);
        let prev = entries_fold(es, ses, m, p);
        lemma_find_key(prev, ses[m as int].0);
        assert forall|i: int| 0 <= i < es.len() implies (#[trigger] entries_fold(es, ses, n, p)[i]).0
            == es[i].0 by {
            assert(prev[i].0 == es[i].0);
        }
    }
}

/// Merging an object or overflow source into an object or overflow target
/// gives an object or overflow object that keeps every key of the target,
/// in its place and order.
pub proof fn law_map_merge_keeps_target_keys(t: Tree, s: Tree, p: bool)
    requires
        map_like(t),
        map_like(s),
    ensures
        map_like(merge_tree(t, s, p)),
        source_entries(merge_tree(t, s, p)).len() >= source_entries(t).len(),
        forall|i: int|
            0 <= i < source_entries(t).len() ==> (#[trigger] source_entries(merge_tree(t, s, p))[i]).0
                == source_entries(t)[i].0,
{
    let es = source_entries(t);
    let ses = source_entries(s);
    lemma_entries_fold_keys(es, ses, ses.len(), p);
    assert(source_entries(merge_tree(t, s, p)) == entries_fold(es, ses, ses.len(), p));
}

/// Whether `x` is `r`, an item of the list `r`, or a value of the object or
/// overflow object `r`.
pub open spec fn holds_member(r: Tree, x: Tree) -> bool {
    match r {
        Tree::List(rs) => exists|i: int| 0 <= i < rs.len() && rs[i] == x,
        Tree::Object(es) => exists|i: int| 0 <= i < es.len() && es[i].1 == x,
        Tree::Overflow(es, _) => exists|i: int| 0 <= i < es.len() && es[i].1 == x,
        _ => r == x,
    }
}

/// Merging a non-null scalar never loses it: whatever the target, the
/// scalar is an item or a value of the result. Into an object, the object
/// and the scalar stand side by side in a list.
pub proof fn law_scalar_source_is_kept(t: Tree, v: Value, p: bool)
    requires
        v != Value::Null,
    ensures
        holds_member(merge_tree(t, Tree::Leaf(v), p), Tree::Leaf(v)),
        t is Object ==> merge_tree(t, Tree::Leaf(v), p) == Tree::List(seq![t, Tree::Leaf(v)]),
{
    let x = Tree::Leaf(v);
    let r = merge_tree(t, x, p);
    match t {
        Tree::List(ts) => {
            let items = ts.push(x);
            assert(items[ts.len() as int] == x);
            let listed = Tree::List(items);
            assert(listed->List_0 == items);
            if has_undefined(ts) {
                let h = choose|i: int| 0 <= i < ts.len() && is_undef(#[trigger] ts[i]);
                assert(items[h] == ts[h]);
                if !p {
                    assert(items.drop_last() =~= ts);
                    let before = numeric_entries(ts, false);
                    assert(numeric_entries(items, false) == before.push((index_text(ts.len() as nat), x)));
                    assert(numeric_entries(items, false)[before.len() as int].1 == x);
                    let object = Tree::Object(numeric_entries(items, false));
                    assert(object->Object_0 == numeric_entries(items, false));
                    assert(r == object);
                }
            }
        },
        Tree::Overflow(es, m) => {
            let k = index_text(next_index(m));
            lemma_find_key(es, k);
            match find_key(es, k) {
                Some(j) => {
                    assert(map_insert(es, k, x)[j].1 == x);
                },
                None => {
                    assert(map_insert(es, k, x)[es.len() as int].1 == x);
                },
            }
            let grown = Tree::Overflow(map_insert(es, k, x), next_index(m));
            assert(grown->Overflow_0 == map_insert(es, k, x));
        },
        _ => {
            let pair_list = Tree::List(seq![t, x]);
            assert(pair_list->List_0 == seq![t, x]);
            assert(seq![t, x][1] == x);
        },
    }
}

} // verus!
