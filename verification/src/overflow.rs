//! Canonical numeric keys, and the passage from dense lists to overflow
//! objects once a list outgrows the configured limit.

use vstd::prelude::*;

use crate::error::DecodeError;
use crate::node::{
    entry_tree, entry_trees, lemma_entries_push, lemma_entry_trees, lemma_trees_of, tree_of,
    trees_of, Node, Tree,
};
use crate::options::decode::DecodeSettings;
use crate::options::DecodeOptions;
use crate::temporal::{
    all_digits, ascii_chars, decimal_bytes, decimal_value, digit_byte, is_digit_byte,
    lemma_decimal_bytes, push_ascii, push_decimal,
};

verus! {

// ---------------------------------------------------------------------------
// Canonical indices.
// ---------------------------------------------------------------------------

/// Whether `c` is an ASCII decimal digit.
pub open spec fn is_digit_char(c: char) -> bool {
    '0' <= c && c <= '9'
}

/// Every character of `s` is an ASCII decimal digit.
pub open spec fn all_digit_chars(s: Seq<char>) -> bool {
    forall|i: int| 0 <= i < s.len() ==> is_digit_char(#[trigger] s[i])
}

/// The value of a run of decimal digit characters, most significant first.
pub open spec fn digits_value(s: Seq<char>) -> nat
    decreases s.len(),
{
    if s.len() == 0 {
        0
    } else {
        digits_value(s.drop_last()) * 10 + (s.last() as int - 48) as nat
    }
}

/// The index that `s` names, if `s` is the shortest decimal text of a `usize`:
/// a nonempty run of digits, without a leading zero unless it is `0` itself,
/// whose value fits in a `usize`.
pub open spec fn canonical_index(s: Seq<char>) -> Option<usize> {
    if s.len() > 0 && all_digit_chars(s) && (s.len() == 1 || s[0] != '0') && digits_value(s)
        <= usize::MAX {
        Some(digits_value(s) as usize)
    } else {
        None
    }
}

/// The shortest decimal text of `n`.
pub open spec fn index_text(n: nat) -> Seq<char> {
    ascii_chars(decimal_bytes(n))
}

/// The characters of a digit run have the value of its bytes.
proof fn lemma_chars_value(b: Seq<u8>)
    requires
        all_digits(b),
    ensures
        all_digit_chars(ascii_chars(b)),
        digits_value(ascii_chars(b)) == decimal_value(b),
    decreases b.len(),
{
    if b.len() > 0 {
        lemma_chars_value(b.drop_last());
        assert(ascii_chars(b).drop_last() =~= ascii_chars(b.drop_last()));
        assert(is_digit_byte(b.last()));
    }
}

/// The shortest text of a number of two digits or more starts with a nonzero digit.
proof fn lemma_leading_digit(n: nat)
    ensures
        decimal_bytes(n).len() >= 2 ==> decimal_bytes(n)[0] != 48,
        decimal_bytes(n).len() >= 2 <==> n >= 10,
        decimal_bytes(n).len() >= 1,
    decreases n,
{
    if n >= 10 {
        lemma_leading_digit(n / 10);
        let d = decimal_bytes(n / 10);
        assert(decimal_bytes(n) == d.push(digit_byte(n % 10)));
        if n / 10 < 10 {
            assert(d == seq![digit_byte(n / 10)]);
            assert(digit_byte(n / 10) == n / 10 + 48);
        }
    }
}

/// A digit run without a leading zero is worth at least one.
proof fn lemma_value_positive(s: Seq<char>)
    requires
        s.len() > 0,
        all_digit_chars(s),
        s[0] != '0',
    ensures
        digits_value(s) >= 1,
    decreases s.len(),
{
    if s.len() > 1 {
        lemma_value_positive(s.drop_last());
    }
}

/// A digit run without a superfluous leading zero is the shortest text of its value.
proof fn lemma_digits_text(s: Seq<char>)
    requires
        s.len() > 0,
        all_digit_chars(s),
        s.len() == 1 || s[0] != '0',
    ensures
        index_text(digits_value(s)) == s,
    decreases s.len(),
{
    let v = digits_value(s);
    if s.len() == 1 {
        assert(s.drop_last() =~= Seq::<char>::empty());
        assert(digits_value(s.drop_last()) == 0);
        assert(s.last() == s[0]);
        assert(v == (s[0] as int - 48) as nat);
        assert(v < 10);
        assert(decimal_bytes(v) == seq![digit_byte(v)]);
        assert(index_text(v) =~= s);
    } else {
        let t = s.drop_last();
        lemma_digits_text(t);
        lemma_value_positive(t);
        let w = digits_value(t);
        let d = (s.last() as int - 48) as nat;
        assert(v == w * 10 + d);
        assert(v >= 10);
        assert(v / 10 == w);
        assert(v % 10 == d);
        assert(decimal_bytes(v) == decimal_bytes(w).push(digit_byte(d)));
        assert(index_text(v) =~= index_text(w).push(digit_byte(d) as char));
        assert(s =~= t.push(s.last()));
    }
}

/// Every `usize` has exactly one canonical text: its index text names it, and
/// a text names an index only when it is that index's text.
pub proof fn law_canonical_index_text(s: Seq<char>, n: usize)
    ensures
        canonical_index(index_text(n as nat)) == Some(n),
        canonical_index(s) == Some(n) <==> index_text(n as nat) == s,
{
    lemma_decimal_bytes(n as nat);
    lemma_chars_value(decimal_bytes(n as nat));
    lemma_leading_digit(n as nat);
    let t = index_text(n as nat);
    assert(t.len() == decimal_bytes(n as nat).len());
    if t.len() >= 2 {
        assert(t[0] == decimal_bytes(n as nat)[0] as char);
    }
    if canonical_index(s) == Some(n) {
        lemma_digits_text(s);
    }
}

/// The text of an index is worth that index.
pub proof fn lemma_index_text_value(n: nat)
    ensures
        digits_value(index_text(n)) == n,
{
    lemma_decimal_bytes(n);
    lemma_chars_value(decimal_bytes(n));
}

/// A prefix of a digit run is worth no more than the run.
proof fn lemma_prefix_value(s: Seq<char>, k: int)
    requires
        all_digit_chars(s),
        0 <= k <= s.len(),
    ensures
        digits_value(s.take(k)) <= digits_value(s),
    decreases s.len(),
{
    if k < s.len() {
        lemma_prefix_value(s.drop_last(), k);
        assert(s.drop_last().take(k) =~= s.take(k));
    } else {
        assert(s.take(k) =~= s);
    }
}

/// The index named by `text`, if `text` is the shortest decimal text of a
/// `usize` (so `"7"` and `"0"` name indices, while `"07"`, `"+7"` and `""` do not).
pub fn parse_canonical_index(text: &str) -> (r: Option<usize>)
    ensures
        r == canonical_index(text@),
{
    let ghost s = text@;
    if !text.is_ascii() {
        proof {
            let i = choose|i: int| 0 <= i < s.len() && !('\0' <= #[trigger] s[i] <= '\u{7f}');
            assert(!is_digit_char(s[i]));
        }
        return None;
    }
    let bytes = text.as_bytes();
    proof {
        vstd::string::is_ascii_spec_bytes(text);
    }
    assert(bytes@.len() == s.len());
    assert(forall|j: int| 0 <= j < s.len() ==> bytes@[j] == s[j] as u8);
    let n = bytes.len();
    if n == 0 {
        return None;
    }
    if n > 1 && bytes[0] == 48u8 {
        assert(s[0] == '0');
        return None;
    }
    let mut value: usize = 0;
    let mut i: usize = 0;
    while i < n
        invariant
            i <= n,
            s == text@,
            n == bytes@.len(),
            n == s.len(),
            forall|j: int| 0 <= j < s.len() ==> bytes@[j] == s[j] as u8,
            forall|j: int| 0 <= j < s.len() ==> '\0' <= #[trigger] s[j] <= '\u{7f}',
            forall|j: int| 0 <= j < i ==> is_digit_char(#[trigger] s[j]),
            value == digits_value(s.take(i as int)),
        decreases n - i,
    {
        let c = bytes[i];
        assert(c == s[i as int] as u8);
        if c < 48 || c > 57 {
            assert(!is_digit_char(s[i as int]));
            assert(!all_digit_chars(s));
            return None;
        }
        assert(s.take(i + 1).drop_last() =~= s.take(i as int));
        assert(digits_value(s.take(i + 1)) == value * 10 + (c - 48));
        let d = (c - 48) as usize;
        match value.checked_mul(10) {
            None => {
                proof {
                    assert(value * 10 > usize::MAX);
                    if all_digit_chars(s) {
                        lemma_prefix_value(s, i + 1);
                        assert(digits_value(s) > usize::MAX);
                    }
                }
                return None;
            },
            Some(m) => match m.checked_add(d) {
                None => {
                    proof {
                        if all_digit_chars(s) {
                            lemma_prefix_value(s, i + 1);
                        }
                    }
                    return None;
                },
                Some(v) => {
                    value = v;
                },
            },
        }
        i = i + 1;
    }
    assert(s.take(n as int) =~= s);
    Some(value)
}

/// The shortest decimal text of `n`.
pub fn index_to_string(n: usize) -> (r: String)
    ensures
        r@ == index_text(n as nat),
{
    let mut digits: Vec<u8> = Vec::with_capacity(20);
    push_decimal(&mut digits, n as u64);
    assert(digits@ =~= decimal_bytes(n as nat));
    let mut text = String::default();
    push_ascii(&mut text, &digits);
    assert(text@ =~= index_text(n as nat));
    text
}

// ---------------------------------------------------------------------------
// Numeric objects.
// ---------------------------------------------------------------------------

/// The greater of two indices.
pub open spec fn max_index(a: usize, b: usize) -> usize {
    if a >= b {
        a
    } else {
        b
    }
}

/// The greatest index named by a canonical key among `es`, if any.
pub open spec fn max_canonical(es: Seq<(Seq<char>, Tree)>) -> Option<usize>
    decreases es.len(),
{
    if es.len() == 0 {
        None
    } else {
        let m = max_canonical(es.drop_last());
        match canonical_index(es.last().0) {
            Some(k) => Some(
                match m {
                    Some(x) => max_index(x, k),
                    None => k,
                },
            ),
            None => m,
        }
    }
}

/// The greatest canonical index of a run of entries bounds the index of
/// every canonical key among them and is itself the index of one of them;
/// there is none exactly when no key is canonical.
pub proof fn law_max_canonical_is_greatest(es: Seq<(Seq<char>, Tree)>)
    ensures
        forall|i: int|
            0 <= i < es.len() && #[trigger] canonical_index(es[i].0) is Some ==> max_canonical(es) is Some
                && canonical_index(es[i].0).unwrap() <= max_canonical(es).unwrap(),
        max_canonical(es) matches Some(m) ==> exists|i: int|
            0 <= i < es.len() && #[trigger] canonical_index(es[i].0) == Some(m),
        max_canonical(es) is None ==> forall|i: int|
            0 <= i < es.len() ==> #[trigger] canonical_index(es[i].0) is None,
    decreases es.len(),
{
    if es.len() > 0 {
        let rest = es.drop_last();
        law_max_canonical_is_greatest(rest);
        assert forall|i: int| 0 <= i < rest.len() implies #[trigger] rest[i] == es[i] by {}
        let last = es.len() - 1;
        assert(es.last() == es[last]);
        match max_canonical(es) {
            Some(m) => {
                match canonical_index(es[last].0) {
                    Some(k) => {
                        if m == k {
                            assert(canonical_index(es[last].0) == Some(m));
                        } else {
                            let w = choose|i: int|
                                0 <= i < rest.len() && #[trigger] canonical_index(rest[i].0) == Some(m);
                            assert(es[w] == rest[w]);
                        }
                    },
                    None => {
                        let w = choose|i: int|
                            0 <= i < rest.len() && #[trigger] canonical_index(rest[i].0) == Some(m);
                        assert(es[w] == rest[w]);
                    },
                }
            },
            None => {},
        }
        assert forall|i: int|
            0 <= i < es.len() && #[trigger] canonical_index(es[i].0) is Some implies max_canonical(es) is Some
                && canonical_index(es[i].0).unwrap() <= max_canonical(es).unwrap() by {
            if i < last {
                assert(rest[i] == es[i]);
                assert(canonical_index(rest[i].0) is Some);
            }
        }
        assert forall|i: int| max_canonical(es) is None && 0 <= i < es.len() implies #[trigger] canonical_index(
            es[i].0,
        ) is None by {
            if i < last {
                assert(rest[i] == es[i]);
            }
        }
    }
}

/// The greatest index named by a canonical key of `entries`, if any.
pub fn max_numeric_index(entries: &Vec<(String, Node)>) -> (r: Option<usize>)
    ensures
        r == max_canonical(entry_trees(entries@)),
{
    let ghost es = entry_trees(entries@);
    proof {
        lemma_entry_trees(entries@);
    }
    let mut best: Option<usize> = None;
    let mut i: usize = 0;
    while i < entries.len()
        invariant
            i <= entries@.len(),
            es == entry_trees(entries@),
            es.len() == entries@.len(),
            forall|j: int| 0 <= j < entries@.len() ==> #[trigger] es[j] == entry_tree(entries@[j]),
            best == max_canonical(es.take(i as int)),
        decreases entries@.len() - i,
    {
        let key = &entries[i].0;
        assert(es.take(i + 1).drop_last() =~= es.take(i as int));
        assert(es.take(i + 1).last() == es[i as int]);
        assert(es[i as int].0 == key@);
        match parse_canonical_index(key.as_str()) {
            Some(k) => {
                best = match best {
                    Some(x) => Some(if x >= k { x } else { k }),
                    None => Some(k),
                };
            },
            None => {},
        }
        i = i + 1;
    }
    assert(es.take(entries@.len() as int) =~= es);
    best
}

/// The numeric object of a list: each item under the text of its position,
/// in order, leaving out placeholders unless `keep_undefined`.
pub open spec fn numeric_entries(items: Seq<Tree>, keep_undefined: bool) -> Seq<(Seq<char>, Tree)>
    decreases items.len(),
{
    if items.len() == 0 {
        Seq::empty()
    } else {
        let before = numeric_entries(items.drop_last(), keep_undefined);
        if !keep_undefined && items.last() is Undefined {
            before
        } else {
            before.push((index_text((items.len() - 1) as nat), items.last()))
        }
    }
}

/// Turns a list into its numeric object.
pub fn array_to_numeric_object(items: Vec<Node>, keep_undefined: bool) -> (r: Vec<(String, Node)>)
    ensures
        entry_trees(r@) == numeric_entries(trees_of(items@), keep_undefined),
{
    let ghost orig = items@;
    let ghost ts = trees_of(items@);
    proof {
        lemma_trees_of(items@);
    }
    let mut items = items;
    let n = items.len();
    let mut entries: Vec<(String, Node)> = Vec::with_capacity(n);
    let mut i: usize = 0;
    while i < n
        invariant
            i <= n,
            n == items@.len(),
            n == orig.len(),
            ts.len() == n,
            forall|j: int| 0 <= j < n ==> #[trigger] ts[j] == tree_of(orig[j]),
            forall|j: int| i <= j < n ==> items@[j] == orig[j],
            entry_trees(entries@) == numeric_entries(ts.take(i as int), keep_undefined),
        decreases n - i,
    {
        let mut item = Node::Undefined;
        items.set_and_swap(i, &mut item);
        assert(item == orig[i as int]);
        assert(ts.take(i + 1).drop_last() =~= ts.take(i as int));
        assert(ts.take(i + 1).last() == tree_of(item));
        if keep_undefined || !item.is_undefined() {
            let key = index_to_string(i);
            proof {
                lemma_entries_push(entries@, (key, item));
            }
            entries.push((key, item));
        }
        i = i + 1;
    }
    assert(ts.take(n as int) =~= ts);
    entries
}

/// One less than `n`, or zero.
pub open spec fn last_position(n: nat) -> nat {
    if n > 0 {
        (n - 1) as nat
    } else {
        0
    }
}

/// The overflow object of a list of items.
pub open spec fn overflow_tree(items: Seq<Tree>) -> Tree {
    Tree::Overflow(numeric_entries(items, false), last_position(items.len()))
}

/// Turns a list into an overflow object whose greatest index is the list's
/// last position.
pub fn overflow_from_items(items: Vec<Node>) -> (r: Node)
    ensures
        r@ == overflow_tree(trees_of(items@)),
{
    proof {
        lemma_trees_of(items@);
    }
    let max_index = items.len().saturating_sub(1);
    let entries = array_to_numeric_object(items, false);
    Node::OverflowObject { entries, max_index }
}

/// Whether a list of `item_count` items overflows the list limit: `Ok(false)`
/// within the limit, an error past it when limits are enforced, `Ok(true)`
/// otherwise.
pub open spec fn limit_outcome(item_count: nat, settings: DecodeSettings) -> Result<bool, DecodeError> {
    if item_count <= settings.list_limit {
        Ok(false)
    } else if settings.throw_on_limit_exceeded {
        Err(DecodeError::ListLimitExceeded { limit: settings.list_limit })
    } else {
        Ok(true)
    }
}

/// Decides whether a list of `item_count` items must become an overflow object.
pub fn list_limit_overflow(item_count: usize, options: &DecodeOptions) -> (r: Result<bool, DecodeError>)
    ensures
        r == limit_outcome(item_count as nat, options@),
{
    if item_count <= options.list_limit() {
        return Ok(false);
    }
    if options.throw_on_limit_exceeded() {
        return Err(DecodeError::ListLimitExceeded { limit: options.list_limit() });
    }
    Ok(true)
}

/// Closes a list: a dense list within the limit, an overflow object past it,
/// or the limit error when limits are enforced.
pub fn finalize_list(items: Vec<Node>, options: &DecodeOptions) -> (r: Result<Node, DecodeError>)
    ensures
        match limit_outcome(items@.len() as nat, options@) {
            Ok(false) => r matches Ok(n) && n@ == Tree::List(trees_of(items@)),
            Ok(true) => r matches Ok(n) && n@ == overflow_tree(trees_of(items@)),
            Err(e) => r == Err::<Node, DecodeError>(e),
        },
{
    match list_limit_overflow(items.len(), options) {
        Err(e) => Err(e),
        Ok(true) => Ok(overflow_from_items(items)),
        Ok(false) => Ok(Node::Array(items)),
    }
}

} // verus!
