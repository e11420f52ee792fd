//! Shared key-path builder for the encoder.
//!
//! A key path is a chain of segments that shares its parents, so deep
//! traversals do not rebuild the same key prefixes. Each node caches its
//! materialized text and its dot-encoded form.

use std::rc::Rc;

use vstd::cell::invcell::InvCell;
use vstd::predicate::Predicate;
use vstd::prelude::*;
use vstd::string::{StrSliceExecFns, StringSliceAdditionalSpecFns};

use crate::temporal::push_char;

verus! {

/// `s` with every `.` replaced by `replacement`.
pub open spec fn replace_dots(s: Seq<char>, replacement: Seq<char>) -> Seq<char>
    decreases s.len(),
{
    if s.len() == 0 {
        seq![]
    } else {
        replace_dots(s.drop_last(), replacement) + if s.last() == '.' {
            replacement
        } else {
            seq![s.last()]
        }
    }
}

/// Replacing dots distributes over concatenation.
pub proof fn lemma_replace_dots_concat(a: Seq<char>, b: Seq<char>, r: Seq<char>)
    ensures
        replace_dots(a + b, r) == replace_dots(a, r) + replace_dots(b, r),
    decreases b.len(),
{
    if b.len() == 0 {
        assert(a + b =~= a);
        assert(replace_dots(a, r) + replace_dots(b, r) =~= replace_dots(a, r));
    } else {
        lemma_replace_dots_concat(a, b.drop_last(), r);
        assert((a + b).drop_last() =~= a + b.drop_last());
        assert((a + b).last() == b.last());
        let tail = if b.last() == '.' { r } else { seq![b.last()] };
        assert(replace_dots(a, r) + replace_dots(b.drop_last(), r) + tail =~= replace_dots(a, r) + (
        replace_dots(b.drop_last(), r) + tail));
    }
}

/// The UTF-8 length of a concatenation is the sum of the lengths.
pub proof fn lemma_utf8_len_concat(a: Seq<char>, b: Seq<char>)
    ensures
        vstd::utf8::encode_utf8(a + b).len() == vstd::utf8::encode_utf8(a).len()
            + vstd::utf8::encode_utf8(b).len(),
    decreases a.len(),
{
    if a.len() == 0 {
        assert(a + b =~= b);
    } else {
        lemma_utf8_len_concat(a.drop_first(), b);
        assert((a + b).drop_first() =~= a.drop_first() + b);
        assert((a + b)[0] == a[0]);
    }
}

/// The cached materialized text, when present, is the node's path.
pub struct MaterializedCache {
    pub path: Ghost<Seq<char>>,
}

impl Predicate<Option<String>> for MaterializedCache {
    open spec fn predicate(&self, v: Option<String>) -> bool {
        v matches Some(s) ==> s@ == self.path@
    }
}

/// The cached dot-encoded node, when present, is the node's path with its
/// dots replaced by the replacement it was computed for.
pub struct DotEncodedCache {
    pub path: Ghost<Seq<char>>,
    pub depth: Ghost<nat>,
}

impl Predicate<Option<(String, KeyPathNode)>> for DotEncodedCache {
    open spec fn predicate(&self, v: Option<(String, KeyPathNode)>) -> bool {
        v matches Some((r, n)) ==> n@ == replace_dots(self.path@, r@) && n.spec_depth()
            <= self.depth@
    }
}

/// One node of a persistent key path.
pub struct KeyPathInner {
    parent: Option<KeyPathNode>,
    segment: String,
    depth: usize,
    length: usize,
    has_dot: bool,
    path: Ghost<Seq<char>>,
    materialized: InvCell<Option<String>, MaterializedCache>,
    dot_encoded: InvCell<Option<(String, KeyPathNode)>, DotEncodedCache>,
}

/// A persistent raw key path used by the encoder.
///
/// Appending shares the parent path; the materialized text and the
/// dot-encoded form are cached on the node.
pub struct KeyPathNode(pub Rc<KeyPathInner>);

impl View for KeyPathNode {
    type V = Seq<char>;

    closed spec fn view(&self) -> Seq<char> {
        self.0.path@
    }
}

impl KeyPathInner {
    #[verifier::type_invariant]
    spec fn well_formed(self) -> bool {
        &&& self.materialized.predicate() == MaterializedCache { path: self.path }
        &&& self.dot_encoded.predicate() == DotEncodedCache {
            path: self.path,
            depth: Ghost(self.depth as nat),
        }
        &&& self.length == vstd::utf8::encode_utf8(self.path@).len() as usize
        &&& self.has_dot == self.path@.contains('.')
        &&& match self.parent {
            None => self.path@ == self.segment@ && self.depth == 1,
            Some(p) => self.path@ == p.0.path@ + self.segment@ && self.depth == p.0.depth + 1,
        }
    }
}

impl Clone for KeyPathNode {
    fn clone(&self) -> (r: Self)
        ensures
            r == *self,
    {
        KeyPathNode(self.0.clone())
    }
}

/// `Rc::ptr_eq`: whether two key paths share one allocation.
#[verifier::external_body]
fn same_allocation(a: &KeyPathNode, b: &KeyPathNode) -> (r: bool)
    ensures
        r ==> *a == *b,
{
    Rc::ptr_eq(&a.0, &b.0)
}

/// `s` with every `.` replaced by `replacement`.
fn replace_dot_chars(s: &str, replacement: &str) -> (r: String)
    ensures
        r@ == replace_dots(s@, replacement@),
{
    let mut out = String::default();
    let n = s.unicode_len();
    let mut i: usize = 0;
    while i < n
        invariant
            i <= n,
            n == s@.len(),
            out@ == replace_dots(s@.subrange(0, i as int), replacement@),
        decreases n - i,
    {
        let c = s.get_char(i);
        proof {
            let next = s@.subrange(0, i as int + 1);
            assert(next.drop_last() =~= s@.subrange(0, i as int));
            assert(next.last() == c);
        }
        if c == '.' {
            out.append(replacement);
        } else {
            push_char(&mut out, c);
            assert(out@ =~= replace_dots(s@.subrange(0, i as int), replacement@) + seq![c]);
        }
        i = i + 1;
    }
    assert(s@.subrange(0, n as int) =~= s@);
    out
}

/// Whether `s` holds a `.`.
fn contains_dot(s: &str) -> (r: bool)
    ensures
        r == s@.contains('.'),
{
    let n = s.unicode_len();
    let mut i: usize = 0;
    while i < n
        invariant
            i <= n,
            n == s@.len(),
            forall|j: int| 0 <= j < i ==> s@[j] != '.',
        decreases n - i,
    {
        if s.get_char(i) == '.' {
            assert(s@[i as int] == '.');
            return true;
        }
        i = i + 1;
    }
    false
}

/// A concatenation holds a character exactly when one of its parts does.
proof fn lemma_contains_concat(a: Seq<char>, b: Seq<char>, c: char)
    ensures
        (a + b).contains(c) <==> (a.contains(c) || b.contains(c)),
{
    if (a + b).contains(c) {
        let i = choose|i: int| 0 <= i < (a + b).len() && (a + b)[i] == c;
        if i < a.len() {
            assert(a[i] == c);
        } else {
            assert(b[i - a.len()] == c);
        }
    }
    if a.contains(c) {
        let i = choose|i: int| 0 <= i < a.len() && a[i] == c;
        assert((a + b)[i] == c);
    }
    if b.contains(c) {
        let i = choose|i: int| 0 <= i < b.len() && b[i] == c;
        assert((a + b)[a.len() + i] == c);
    }
}

/// Replacing the dots of a text without dots leaves it as it is.
proof fn lemma_replace_dots_none(s: Seq<char>, r: Seq<char>)
    requires
        !s.contains('.'),
    ensures
        replace_dots(s, r) == s,
    decreases s.len(),
{
    if s.len() > 0 {
        assert(!s.drop_last().contains('.')) by {
            if s.drop_last().contains('.') {
                let i = choose|i: int| 0 <= i < s.drop_last().len() && s.drop_last()[i] == '.';
                assert(s[i] == '.');
            }
        }
        lemma_replace_dots_none(s.drop_last(), r);
        assert(s.last() != '.') by {
            if s.last() == '.' {
                assert(s[s.len() - 1] == '.');
            }
        }
        assert(s.drop_last() + seq![s.last()] =~= s);
    }
}

/// The depth of a child of a node at depth `d`.
spec fn depth_after(d: usize) -> nat {
    (d + 1) as nat
}

impl KeyPathNode {
    /// The number of nodes from the root to this node.
    pub closed spec fn spec_depth(&self) -> nat {
        self.0.depth as nat
    }

    /// Creates a root key path holding `raw`.
    pub fn from_raw(raw: &str) -> (r: Self)
        ensures
            r@ == raw@,
            r.spec_depth() == 1,
    {
        let segment = raw.to_owned();
        let text = raw.to_owned();
        let has_dot = contains_dot(raw);
        let ghost path = raw@;
        proof {
            assert(vstd::utf8::encode_utf8(raw@) == raw.spec_bytes());
        }
        let materialized = InvCell::new(
            Some(text),
            Ghost(MaterializedCache { path: Ghost(path) }),
        );
        let dot_encoded = InvCell::new(
            None,
            Ghost(DotEncodedCache { path: Ghost(path), depth: Ghost(1) }),
        );
        KeyPathNode(
            Rc::new(
                KeyPathInner {
                    parent: None,
                    segment,
                    depth: 1,
                    length: raw.len(),
                    has_dot,
                    path: Ghost(path),
                    materialized,
                    dot_encoded,
                },
            ),
        )
    }

    fn append_owned(&self, segment: String) -> (r: Self)
        requires
            self.spec_depth() < usize::MAX,
            vstd::utf8::encode_utf8(self@ + segment@).len() <= usize::MAX,
        ensures
            r@ == self@ + segment@,
            r.spec_depth() == self.spec_depth() + 1,
    {
        let inner: &KeyPathInner = &*self.0;
        proof {
            use_type_invariant(inner);
            lemma_utf8_len_concat(self@, segment@);
        }
        let ghost path = self@ + segment@;
        let segment_len = segment.as_str().len();
        let has_dot = inner.has_dot || contains_dot(segment.as_str());
        proof {
            lemma_contains_concat(self@, segment@, '.');
        }
        let materialized = InvCell::new(None, Ghost(MaterializedCache { path: Ghost(path) }));
        let dot_encoded = InvCell::new(
            None,
            Ghost(DotEncodedCache { path: Ghost(path), depth: Ghost(depth_after(inner.depth)) }),
        );
        KeyPathNode(
            Rc::new(
                KeyPathInner {
                    parent: Some(self.clone()),
                    length: inner.length + segment_len,
                    has_dot,
                    depth: inner.depth + 1,
                    segment,
                    path: Ghost(path),
                    materialized,
                    dot_encoded,
                },
            ),
        )
    }

    /// Appends a raw segment; an empty segment gives back this same node.
    pub fn append(&self, segment: &str) -> (r: Self)
        requires
            self.spec_depth() < usize::MAX,
            vstd::utf8::encode_utf8(self@ + segment@).len() <= usize::MAX,
        ensures
            r@ == self@ + segment@,
            segment@.len() == 0 ==> r == *self,
            segment@.len() > 0 ==> r.spec_depth() == self.spec_depth() + 1,
    {
        if segment.is_empty() {
            assert(self@ + segment@ =~= self@);
            return self.clone();
        }
        self.append_owned(segment.to_owned())
    }

    /// Appends `.component`; an empty component gives back this same node.
    pub fn append_dot_component(&self, component: &str) -> (r: Self)
        requires
            self.spec_depth() < usize::MAX,
            vstd::utf8::encode_utf8(self@ + seq!['.'] + component@).len() <= usize::MAX,
        ensures
            component@.len() == 0 ==> r == *self,
            component@.len() > 0 ==> r@ == self@ + seq!['.'] + component@,
    {
        if component.is_empty() {
            return self.clone();
        }
        let mut segment = String::new();
        proof {
            reveal_strlit(".");
        }
        segment.append(".");
        segment.append(component);
        assert(self@ + segment@ =~= self@ + seq!['.'] + component@);
        self.append_owned(segment)
    }

    /// Appends `[component]`.
    pub fn append_bracketed_component(&self, component: &str) -> (r: Self)
        requires
            self.spec_depth() < usize::MAX,
            vstd::utf8::encode_utf8(self@ + seq!['['] + component@ + seq![']']).len() <= usize::MAX,
        ensures
            r@ == self@ + seq!['['] + component@ + seq![']'],
    {
        let mut segment = String::new();
        proof {
            reveal_strlit("[");
            reveal_strlit("]");
        }
        segment.append("[");
        segment.append(component);
        segment.append("]");
        assert(self@ + segment@ =~= self@ + seq!['['] + component@ + seq![']']);
        self.append_owned(segment)
    }

    /// Appends `[]`.
    pub fn append_empty_list_suffix(&self) -> (r: Self)
        requires
            self.spec_depth() < usize::MAX,
            vstd::utf8::encode_utf8(self@ + seq!['[', ']']).len() <= usize::MAX,
        ensures
            r@ == self@ + seq!['[', ']'],
    {
        proof {
            reveal_strlit("[]");
        }
        let segment = "[]".to_owned();
        assert(segment@ =~= seq!['[', ']']);
        self.append_owned(segment)
    }
}


/// The parent of a node.
closed spec fn parent_of(n: KeyPathNode) -> Option<KeyPathNode> {
    n.0.parent
}

/// The segment of a node.
closed spec fn segment_of(n: KeyPathNode) -> Seq<char> {
    n.0.segment@
}

/// A node's path is its parent's path followed by its segment.
closed spec fn path_rel(n: KeyPathNode) -> bool {
    match n.0.parent {
        None => n@ == n.0.segment@,
        Some(p) => n@ == p@ + n.0.segment@ && n.0.depth == p.0.depth + 1,
    }
}

/// The path of an optional node, empty for none.
spec fn opt_path(o: Option<KeyPathNode>) -> Seq<char> {
    match o {
        Some(n) => n@,
        None => seq![],
    }
}

/// `nodes` walks up the parents from `start`, each node well formed.
spec fn chain(start: KeyPathNode, nodes: Seq<KeyPathNode>) -> bool {
    &&& nodes.len() > 0 ==> nodes[0] == start
    &&& forall|i: int| 0 <= i < nodes.len() - 1 ==> parent_of(#[trigger] nodes[i]) == Some(
        nodes[i + 1],
    )
    &&& forall|i: int| 0 <= i < nodes.len() ==> path_rel(#[trigger] nodes[i])
}

/// Where the walk up from `start` goes after `nodes`.
spec fn after(start: KeyPathNode, nodes: Seq<KeyPathNode>) -> Option<KeyPathNode> {
    if nodes.len() == 0 {
        Some(start)
    } else {
        parent_of(nodes.last())
    }
}

/// Depth measure of an optional node.
spec fn opt_depth(o: Option<KeyPathNode>) -> int {
    match o {
        Some(n) => n.spec_depth() as int,
        None => 0,
    }
}

impl KeyPathNode {
    /// The cached materialized text of this node, if any, left in place.
    fn cached_text(&self) -> (r: Option<String>)
        ensures
            r matches Some(t) ==> t@ == self@,
    {
        let inner: &KeyPathInner = &*self.0;
        proof {
            use_type_invariant(inner);
        }
        match inner.materialized.replace(None) {
            Some(text) => {
                let out = text.clone();
                inner.materialized.replace(Some(text));
                Some(out)
            },
            None => None,
        }
    }

    /// The node's parent, its segment, and the facts that tie them together.
    fn parts(&self) -> (r: (Option<KeyPathNode>, &String))
        ensures
            r.0 == parent_of(*self),
            r.1@ == segment_of(*self),
            path_rel(*self),
            self.spec_depth() >= 1,
    {
        let inner: &KeyPathInner = &*self.0;
        proof {
            use_type_invariant(inner);
        }
        let parent = match &inner.parent {
            Some(p) => Some(p.clone()),
            None => None,
        };
        (parent, &inner.segment)
    }

    /// The materialized text of the whole path.
    pub fn materialize(&self) -> (r: String)
        ensures
            r@ == self@,
    {
        if let Some(text) = self.cached_text() {
            return text;
        }
        let mut suffix: Vec<KeyPathNode> = Vec::with_capacity(8);
        let mut current: Option<KeyPathNode> = Some(self.clone());
        let mut base = String::default();
        let ghost mut stop: Option<KeyPathNode> = None;
        loop
            invariant_except_break
                chain(*self, suffix@),
                current == after(*self, suffix@),
                base@ == Seq::<char>::empty(),
            ensures
                chain(*self, suffix@),
                stop == after(*self, suffix@),
                base@ == opt_path(stop),
            decreases opt_depth(current),
        {
            let node = match current {
                Some(node) => node,
                None => {
                    proof {
                        stop = None;
                    }
                    break ;
                },
            };
            if let Some(text) = node.cached_text() {
                base = text;
                proof {
                    stop = Some(node);
                }
                break ;
            }
            let (parent, _) = node.parts();
            let ghost before = suffix@;
            suffix.push(node.clone());
            proof {
                assert(suffix@ == before.push(node));
                assert forall|i: int| 0 <= i < suffix@.len() - 1 implies parent_of(
                    #[trigger] suffix@[i],
                ) == Some(suffix@[i + 1]) by {
                    if i < before.len() - 1 {
                        assert(suffix@[i] == before[i]);
                        assert(suffix@[i + 1] == before[i + 1]);
                    } else {
                        assert(suffix@[i] == before.last());
                    }
                }
                assert forall|i: int| 0 <= i < suffix@.len() implies path_rel(#[trigger] suffix@[i]) by {
                    if i < before.len() {
                        assert(suffix@[i] == before[i]);
                    }
                }
                assert(path_rel(node));
            }
            current = parent;
        }
        let mut materialized = base;
        let mut i = suffix.len();
        while i > 0
            invariant
                i <= suffix@.len(),
                chain(*self, suffix@),
                stop == after(*self, suffix@),
                materialized@ == (if i == suffix@.len() {
                    opt_path(stop)
                } else {
                    suffix@[i as int]@
                }),
            decreases i,
        {
            let node = &suffix[i - 1];
            let (_, segment) = node.parts();
            proof {
                if i < suffix@.len() {
                    assert(parent_of(suffix@[i - 1]) == Some(suffix@[i as int]));
                }
            }
            materialized.append(segment.as_str());
            i = i - 1;
        }
        proof {
            if suffix@.len() == 0 {
                assert(stop == Some(*self));
            }
        }
        let inner: &KeyPathInner = &*self.0;
        proof {
            use_type_invariant(inner);
        }
        inner.materialized.replace(Some(materialized.clone()));
        materialized
    }
}


/// An encoded node for an optional unencoded node.
spec fn enc_ok(e: Option<KeyPathNode>, t: Option<KeyPathNode>, rep: Seq<char>) -> bool {
    match (e, t) {
        (Some(e), Some(t)) => e@ == replace_dots(t@, rep) && e.spec_depth() <= t.spec_depth(),
        (None, None) => true,
        _ => false,
    }
}

/// Every node of a walk up from `start` holds a prefix of its path.
proof fn lemma_chain_prefix(start: KeyPathNode, nodes: Seq<KeyPathNode>, i: int)
    requires
        chain(start, nodes),
        0 <= i < nodes.len(),
    ensures
        nodes[i]@.len() <= start@.len(),
        nodes[i]@ == start@.subrange(0, nodes[i]@.len() as int),
    decreases i,
{
    if i == 0 {
        assert(start@.subrange(0, start@.len() as int) =~= start@);
    } else {
        lemma_chain_prefix(start, nodes, i - 1);
        assert(parent_of(nodes[i - 1]) == Some(nodes[i]));
        assert(path_rel(nodes[i - 1]));
        assert(nodes[i]@ =~= start@.subrange(0, nodes[i]@.len() as int));
    }
}

/// Encoding a prefix of a path never yields more bytes than encoding the path.
proof fn lemma_prefix_encoded_len(a: Seq<char>, s: Seq<char>, r: Seq<char>)
    requires
        a.len() <= s.len(),
        a == s.subrange(0, a.len() as int),
    ensures
        vstd::utf8::encode_utf8(replace_dots(a, r)).len() <= vstd::utf8::encode_utf8(
            replace_dots(s, r),
        ).len(),
{
    let rest = s.subrange(a.len() as int, s.len() as int);
    assert(a + rest =~= s);
    lemma_replace_dots_concat(a, rest, r);
    lemma_utf8_len_concat(replace_dots(a, r), replace_dots(rest, r));
}

impl KeyPathNode {
    /// The cached dot-encoded node for `replacement`, if any, left in place.
    fn cached_dot(&self, replacement: &String) -> (r: Option<KeyPathNode>)
        ensures
            r matches Some(n) ==> n@ == replace_dots(self@, replacement@) && n.spec_depth()
                <= self.spec_depth(),
    {
        let inner: &KeyPathInner = &*self.0;
        proof {
            use_type_invariant(inner);
        }
        match inner.dot_encoded.replace(None) {
            Some((rep, node)) => {
                let hit = rep == *replacement;
                let out = node.clone();
                inner.dot_encoded.replace(Some((rep, node)));
                if hit {
                    Some(out)
                } else {
                    None
                }
            },
            None => None,
        }
    }

    /// Stores the dot-encoded node when none is stored yet.
    fn remember_dot(&self, replacement: &String, encoded: &KeyPathNode)
        requires
            encoded@ == replace_dots(self@, replacement@),
            encoded.spec_depth() <= self.spec_depth(),
    {
        let inner: &KeyPathInner = &*self.0;
        proof {
            use_type_invariant(inner);
        }
        match inner.dot_encoded.replace(None) {
            None => {
                inner.dot_encoded.replace(Some((replacement.clone(), encoded.clone())));
            },
            Some(previous) => {
                inner.dot_encoded.replace(Some(previous));
            },
        }
    }

    /// The dot-encoded form of `node`, given that of its parent.
    fn encode_node(
        node: &KeyPathNode,
        encoded_parent: &Option<KeyPathNode>,
        replacement: &str,
    ) -> (enc: KeyPathNode)
        requires
            enc_ok(*encoded_parent, parent_of(*node), replacement@),
            vstd::utf8::encode_utf8(replace_dots(node@, replacement@)).len() <= usize::MAX,
        ensures
            enc@ == replace_dots(node@, replacement@),
            enc.spec_depth() <= node.spec_depth(),
    {
        let ghost r = replacement@;
        let (parent, segment) = node.parts();
        proof {
            if parent is Some {
                lemma_replace_dots_concat(parent.unwrap()@, segment@, r);
            }
        }
        let encoded_segment = replace_dot_chars(segment.as_str(), replacement);
        match (encoded_parent, &parent) {
            (None, None) => {
                if encoded_segment == *segment {
                    node.clone()
                } else {
                    KeyPathNode::from_raw(encoded_segment.as_str())
                }
            },
            (Some(pe), Some(op)) => {
                if same_allocation(pe, op) && encoded_segment == *segment {
                    node.clone()
                } else {
                    pe.append(encoded_segment.as_str())
                }
            },
            (Some(pe), None) => pe.append(encoded_segment.as_str()),
            (None, Some(_)) => KeyPathNode::from_raw(encoded_segment.as_str()),
        }
    }

    /// This path with every `.` replaced by `replacement`.
    ///
    /// A path without dots is its own encoding: the same node comes back.
    /// Otherwise nodes whose segments hold no dot are shared with the
    /// unencoded path, and each encoded node is cached on its node together
    /// with the replacement it was made for.
    pub fn as_dot_encoded(&self, replacement: &str) -> (r: Self)
        requires
            vstd::utf8::encode_utf8(replace_dots(self@, replacement@)).len() <= usize::MAX,
        ensures
            r@ == replace_dots(self@, replacement@),
            !self@.contains('.') ==> r == *self,
    {
        let inner: &KeyPathInner = &*self.0;
        proof {
            use_type_invariant(inner);
        }
        if !inner.has_dot {
            proof {
                lemma_replace_dots_none(self@, replacement@);
            }
            return self.clone();
        }
        let rep = replacement.to_owned();
        if let Some(hit) = self.cached_dot(&rep) {
            return hit;
        }
        let ghost r = replacement@;
        let mut suffix: Vec<KeyPathNode> = Vec::with_capacity(8);
        let mut current: Option<KeyPathNode> = Some(self.clone());
        let mut base: Option<KeyPathNode> = None;
        let ghost mut stop: Option<KeyPathNode> = None;
        loop
            invariant_except_break
                chain(*self, suffix@),
                current == after(*self, suffix@),
                base is None,
                rep@ == r,
            ensures
                chain(*self, suffix@),
                stop == after(*self, suffix@),
                enc_ok(base, stop, r),
            decreases opt_depth(current),
        {
            let node = match current {
                Some(node) => node,
                None => {
                    proof {
                        stop = None;
                    }
                    break ;
                },
            };
            if let Some(hit) = node.cached_dot(&rep) {
                base = Some(hit);
                proof {
                    stop = Some(node);
                }
                break ;
            }
            let (parent, _) = node.parts();
            let ghost before = suffix@;
            suffix.push(node.clone());
            proof {
                assert(suffix@ == before.push(node));
                assert forall|i: int| 0 <= i < suffix@.len() - 1 implies parent_of(
                    #[trigger] suffix@[i],
                ) == Some(suffix@[i + 1]) by {
                    if i < before.len() - 1 {
                        assert(suffix@[i] == before[i]);
                        assert(suffix@[i + 1] == before[i + 1]);
                    } else {
                        assert(suffix@[i] == before.last());
                    }
                }
                assert forall|i: int| 0 <= i < suffix@.len() implies path_rel(#[trigger] suffix@[i]) by {
                    if i < before.len() {
                        assert(suffix@[i] == before[i]);
                    }
                }
            }
            current = parent;
        }
        let mut encoded_parent: Option<KeyPathNode> = base;
        let mut i = suffix.len();
        while i > 0
            invariant
                i <= suffix@.len(),
                chain(*self, suffix@),
                stop == after(*self, suffix@),
                rep@ == r,
                r == replacement@,
                vstd::utf8::encode_utf8(replace_dots(self@, r)).len() <= usize::MAX,
                enc_ok(
                    encoded_parent,
                    if i == suffix@.len() {
                        stop
                    } else {
                        Some(suffix@[i as int])
                    },
                    r,
                ),
            decreases i,
        {
            let node = &suffix[i - 1];
            proof {
                if i < suffix@.len() {
                    assert(parent_of(suffix@[i - 1]) == Some(suffix@[i as int]));
                }
                lemma_chain_prefix(*self, suffix@, i - 1);
                lemma_prefix_encoded_len(node@, self@, r);
            }
            let encoded = Self::encode_node(node, &encoded_parent, replacement);
            node.remember_dot(&rep, &encoded);
            encoded_parent = Some(encoded);
            i = i - 1;
        }
        proof {
            if suffix@.len() == 0 {
                assert(stop == Some(*self));
            }
        }
        match encoded_parent {
            Some(encoded) => encoded,
            None => self.clone(),
        }
    }
}

} // verus!
