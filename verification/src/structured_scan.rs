//! Recognising the flat keys that need the structured decode path.

use vstd::prelude::*;
use vstd::string::StrSliceExecFns;
use vstd::utf8::encode_utf8;

use crate::error::DecodeError;
use crate::options::decode::DecodeSettings;
use crate::options::DecodeOptions;

verus! {

/// Whether the structure of a key opens at byte `i`: a `[`, or, with dot
/// notation, a `.` or an encoded dot `%2E` / `%2e`.
pub open spec fn opens_structure(b: Seq<u8>, i: int, allow_dots: bool) -> bool {
    b[i] == 91u8 || (allow_dots && (b[i] == 46u8 || (b[i] == 37u8 && i + 2 < b.len() && b[i
        + 1] == 50u8 && (b[i + 2] == 69u8 || b[i + 2] == 101u8))))
}

/// The byte offset at which the structure of `key` starts, if any: the first
/// `[`, or with dot notation the first of `[`, `.`, `%2E` and `%2e`.
pub fn first_structured_split_index(key: &str, allow_dots: bool) -> (r: Option<usize>)
    ensures
        match r {
            Some(k) => k < vstd::utf8::encode_utf8(key@).len() && opens_structure(vstd::utf8::encode_utf8(key@), k as int, allow_dots)
                && forall|j: int| 0 <= j < k ==> !opens_structure(vstd::utf8::encode_utf8(key@), j, allow_dots),
            None => forall|j: int|
                0 <= j < vstd::utf8::encode_utf8(key@).len() ==> !opens_structure(vstd::utf8::encode_utf8(key@), j, allow_dots),
        },
{
    let bytes = key.as_bytes();
    let ghost b = vstd::utf8::encode_utf8(key@);
    let n = bytes.len();
    let mut i: usize = 0;
    while i < n
        invariant
            i <= n,
            n == b.len(),
            b == vstd::utf8::encode_utf8(key@),
            bytes@ == b,
            forall|j: int| 0 <= j < i ==> !opens_structure(b, j, allow_dots),
        decreases n - i,
    {
        let c = bytes[i];
        if c == 91u8 {
            return Some(i);
        }
        if allow_dots {
            if c == 46u8 {
                return Some(i);
            }
            if c == 37u8 && 2 < n - i && bytes[i + 1] == 50u8 && (bytes[i + 2] == 69u8 || bytes[i
                + 2] == 101u8) {
                return Some(i);
            }
        }
        i = i + 1;
    }
    None
}

/// The root named by the first segment of a key that starts with its
/// structure: the key itself when there is no segment, the segment when it
/// is not bracketed, otherwise the text between the brackets (the text after
/// `[` when the closing bracket is missing), or `0` when that text is empty.
pub open spec fn leading_root(key: Seq<char>, segments: Seq<Seq<char>>) -> Seq<char> {
    if segments.len() == 0 {
        key
    } else {
        let first = segments[0];
        if first.len() == 0 || first[0] != '[' {
            first
        } else {
            let clean = if first.len() >= 2 && first.last() == ']' {
                first.subrange(1, first.len() - 1)
            } else {
                first.subrange(1, first.len() as int)
            };
            if clean.len() == 0 {
                seq!['0']
            } else {
                clean
            }
        }
    }
}

/// The texts of a sequence of strings.
pub open spec fn texts(s: Seq<String>) -> Seq<Seq<char>> {
    s.map_values(|x: String| x@)
}

/// The root of a key whose structure starts at its first byte, given the
/// segments the key splits into.
pub fn leading_structured_root(key: &str, segments: &Vec<String>) -> (r: String)
    ensures
        r@ == leading_root(key@, texts(segments@)),
{
    if segments.len() == 0 {
        return key.to_owned();
    }
    let first = segments[0].as_str();
    let n = first.unicode_len();
    if n == 0 || first.get_char(0) != '[' {
        return first.to_owned();
    }
    let clean = if n >= 2 && first.get_char(n - 1) == ']' {
        first.substring_char(1, n - 1)
    } else {
        first.substring_char(1, n)
    };
    if clean.unicode_len() == 0 {
        proof {
            reveal_strlit("0");
        }
        return "0".to_owned();
    }
    clean.to_owned()
}

/// Which flat keys need the structured decode path, and which roots they use.
#[derive(Clone, Debug)]
pub struct StructuredKeyScan {
    /// Whether any scanned key used bracket or dot structure.
    pub has_any_structured_syntax: bool,
    structured_roots: Vec<String>,
    structured_keys: Vec<String>,
}

/// Whether `text` is among `items`.
pub open spec fn listed(items: Seq<String>, text: Seq<char>) -> bool {
    exists|i: int| 0 <= i < items.len() && (#[trigger] items[i])@ == text
}

impl StructuredKeyScan {
    /// Whether a structured key was recorded.
    pub closed spec fn structured(&self) -> bool {
        self.has_any_structured_syntax
    }

    /// The recorded structured keys.
    pub closed spec fn keys(&self) -> Seq<String> {
        self.structured_keys@
    }

    /// The recorded roots.
    pub closed spec fn roots(&self) -> Seq<String> {
        self.structured_roots@
    }

    /// A scan that has seen no structured key.
    pub fn empty() -> (r: Self)
        ensures
            !r.structured(),
            r.keys().len() == 0,
            r.roots().len() == 0,
    {
        StructuredKeyScan {
            has_any_structured_syntax: false,
            structured_roots: Vec::with_capacity(0),
            structured_keys: Vec::with_capacity(0),
        }
    }

    /// Records a structured key and the root it uses.
    pub fn record(&mut self, key: &str, root: String)
        ensures
            final(self).structured(),
            forall|t: Seq<char>| listed(final(self).keys(), t) <==> (listed(old(self).keys(), t) || t == key@),
            forall|t: Seq<char>| listed(final(self).roots(), t) <==> (listed(old(self).roots(), t) || t == root@),
    {
        self.has_any_structured_syntax = true;
        let owned = key.to_owned();
        if !contains_text(&self.structured_keys, &owned) {
            let ghost before = self.structured_keys@;
            self.structured_keys.push(owned);
            proof {
                assert forall|t: Seq<char>| listed(self.structured_keys@, t) <==> (listed(before, t) || t == key@) by {
                    if listed(self.structured_keys@, t) {
                        let i = choose|i: int| 0 <= i < self.structured_keys@.len() && (#[trigger] self.structured_keys@[i])@ == t;
                        if i < before.len() {
                            assert(before[i] == self.structured_keys@[i]);
                        }
                    }
                    if listed(before, t) {
                        let i = choose|i: int| 0 <= i < before.len() && (#[trigger] before[i])@ == t;
                        assert(self.structured_keys@[i] == before[i]);
                    }
                    if t == key@ {
                        assert(self.structured_keys@[before.len() as int]@ == t);
                    }
                }
            }
        }
        if !contains_text(&self.structured_roots, &root) {
            let ghost before = self.structured_roots@;
            let ghost r = root@;
            self.structured_roots.push(root);
            proof {
                assert forall|t: Seq<char>| listed(self.structured_roots@, t) <==> (listed(before, t) || t == r) by {
                    if listed(self.structured_roots@, t) {
                        let i = choose|i: int| 0 <= i < self.structured_roots@.len() && (#[trigger] self.structured_roots@[i])@ == t;
                        if i < before.len() {
                            assert(before[i] == self.structured_roots@[i]);
                        }
                    }
                    if listed(before, t) {
                        let i = choose|i: int| 0 <= i < before.len() && (#[trigger] before[i])@ == t;
                        assert(self.structured_roots@[i] == before[i]);
                    }
                    if t == r {
                        assert(self.structured_roots@[before.len() as int]@ == t);
                    }
                }
            }
        }
    }

    /// Whether `key` was recorded as a structured key.
    pub fn contains_structured_key(&self, key: &str) -> (r: bool)
        ensures
            r == listed(self.keys(), key@),
    {
        contains_text(&self.structured_keys, &key.to_owned())
    }

    /// Whether `key` was recorded as a structured root.
    pub fn contains_structured_root(&self, key: &str) -> (r: bool)
        ensures
            r == listed(self.roots(), key@),
    {
        contains_text(&self.structured_roots, &key.to_owned())
    }
}

impl Default for StructuredKeyScan {
    fn default() -> (r: Self)
        ensures
            !r.structured(),
            r.keys().len() == 0,
            r.roots().len() == 0,
    {
        Self::empty()
    }
}

/// Whether `text` is among `items`.
fn contains_text(items: &Vec<String>, text: &String) -> (r: bool)
    ensures
        r == listed(items@, text@),
{
    let mut i: usize = 0;
    while i < items.len()
        invariant
            i <= items@.len(),
            forall|j: int| 0 <= j < i ==> (#[trigger] items@[j])@ != text@,
        decreases items@.len() - i,
    {
        if items[i] == *text {
            assert(items@[i as int]@ == text@);
            return true;
        }
        i = i + 1;
    }
    false
}

/// The structure of a key opens at byte `k`: the first byte that opens it.
pub open spec fn is_split_at(b: Seq<u8>, k: int, allow_dots: bool) -> bool {
    &&& 0 <= k < b.len()
    &&& opens_structure(b, k, allow_dots)
    &&& forall|j: int| 0 <= j < k ==> !opens_structure(b, j, allow_dots)
}

/// Some byte of a key opens structure.
pub open spec fn has_structure(b: Seq<u8>, allow_dots: bool) -> bool {
    exists|j: int| 0 <= j < b.len() && opens_structure(b, j, allow_dots)
}

/// What a segment splitter hands back for `key` under `settings`.
pub open spec fn splits_to<F: Fn(&str, bool, usize, bool) -> Result<Vec<String>, DecodeError>>(
    split: F,
    key: &str,
    settings: DecodeSettings,
    result: Result<Vec<String>, DecodeError>,
) -> bool {
    split.ensures((key, settings.allow_dots, settings.depth, settings.strict_depth), result)
}

/// `root` is the structured root of `key`: the text before the byte where its
/// structure opens, or, when it opens at the first byte, the leading root of
/// segments that the splitter gave for the key.
pub open spec fn is_scan_root<F: Fn(&str, bool, usize, bool) -> Result<Vec<String>, DecodeError>>(
    split: F,
    key: &str,
    settings: DecodeSettings,
    root: Seq<char>,
) -> bool {
    let b = encode_utf8(key@);
    ||| exists|k: int| #[trigger] is_split_at(b, k, settings.allow_dots) && k > 0
            && encode_utf8(root) == b.subrange(0, k)
    ||| is_split_at(b, 0, settings.allow_dots) && exists|segments: Vec<String>|
            #[trigger] splits_to(split, key, settings, Ok(segments))
            && root == leading_root(key@, texts(segments@))
}

/// Every key before position `n` that opens with structure was split by
/// `split` without error.
pub open spec fn split_ok_before<F: Fn(&str, bool, usize, bool) -> Result<Vec<String>, DecodeError>>(
    split: F,
    keys: Seq<&str>,
    settings: DecodeSettings,
    n: int,
) -> bool {
    forall|j: int|
        0 <= j < n && #[trigger] is_split_at(encode_utf8(keys[j]@), 0, settings.allow_dots)
            ==> exists|segments: Vec<String>| #[trigger]
            splits_to(split, keys[j], settings, Ok(segments))
}

/// The text of `key` before byte `k`, where `k` opens its structure.
fn root_before(key: &str, k: usize, allow_dots: bool) -> (r: String)
    requires
        is_split_at(encode_utf8(key@), k as int, allow_dots),
    ensures
        encode_utf8(r@) == encode_utf8(key@).subrange(0, k as int),
{
    let ghost b = encode_utf8(key@);
    proof {
        vstd::utf8::encode_utf8_valid_utf8(key@);
        vstd::utf8::is_char_boundary_iff_is_leading_byte(b, k as int);
        assert(vstd::utf8::is_leading_byte_width_1(b[k as int]));
    }
    let (prefix, _) = key.split_at(k);
    proof {
        vstd::utf8::encode_utf8_decode_utf8(prefix@);
    }
    prefix.to_owned()
}

/// Scans flat keys for those that need the structured decode path: a key
/// counts when some byte of it opens structure, and its root is the text
/// before that byte, or, when the key opens with structure, the leading root
/// of the segments that `split` gives for it (called with the key and the
/// options' dot notation, depth and strict depth). The first error of
/// `split` on such a key is returned.
pub fn scan_structured_keys<F>(keys: &[&str], options: &DecodeOptions, split: F) -> (r: Result<
    StructuredKeyScan,
    DecodeError,
>) where F: Fn(&str, bool, usize, bool) -> Result<Vec<String>, DecodeError>
    requires
        forall|k: &str, a: bool, d: usize, s: bool| #[trigger] split.requires((k, a, d, s)),
    ensures
        match r {
            Ok(scan) => {
                &&& scan.structured() <==> exists|i: int|
                    0 <= i < keys@.len() && #[trigger] has_structure(
                        encode_utf8(keys@[i]@),
                        options@.allow_dots,
                    )
                &&& forall|t: Seq<char>|
                    #![trigger listed(scan.keys(), t)]
                    listed(scan.keys(), t) <==> exists|i: int|
                        0 <= i < keys@.len() && #[trigger] has_structure(
                            encode_utf8(keys@[i]@),
                            options@.allow_dots,
                        ) && keys@[i]@ == t
                &&& forall|t: Seq<char>|
                    #![trigger listed(scan.roots(), t)]
                    listed(scan.roots(), t) ==> exists|i: int|
                        0 <= i < keys@.len() && #[trigger] is_scan_root(
                            split,
                            keys@[i],
                            options@,
                            t,
                        )
                &&& forall|i: int|
                    0 <= i < keys@.len() && #[trigger] has_structure(
                        encode_utf8(keys@[i]@),
                        options@.allow_dots,
                    ) ==> exists|t: Seq<char>|
                        listed(scan.roots(), t) && #[trigger] is_scan_root(
                            split,
                            keys@[i],
                            options@,
                            t,
                        )
            },
            Err(e) => exists|i: int|
                0 <= i < keys@.len() && #[trigger] is_split_at(
                    encode_utf8(keys@[i]@),
                    0,
                    options@.allow_dots,
                ) && splits_to(split, keys@[i], options@, Err(e)) && split_ok_before(
                    split,
                    keys@,
                    options@,
                    i,
                ),
        },
{
    let allow_dots = options.allow_dots();
    let depth = options.depth();
    let strict_depth = options.strict_depth();
    let mut scan = StructuredKeyScan::empty();
    let mut i: usize = 0;
    while i < keys.len()
        invariant
            i <= keys@.len(),
            allow_dots == options@.allow_dots,
            depth == options@.depth,
            strict_depth == options@.strict_depth,
            forall|k: &str, a: bool, d: usize, s: bool| #[trigger] split.requires((k, a, d, s)),
            split_ok_before(split, keys@, options@, i as int),
            scan.structured() <==> exists|j: int|
                0 <= j < i && #[trigger] has_structure(encode_utf8(keys@[j]@), allow_dots),
            forall|t: Seq<char>|
                #![trigger listed(scan.keys(), t)]
                listed(scan.keys(), t) <==> exists|j: int|
                    0 <= j < i && #[trigger] has_structure(encode_utf8(keys@[j]@), allow_dots)
                        && keys@[j]@ == t,
            forall|t: Seq<char>|
                #![trigger listed(scan.roots(), t)]
                listed(scan.roots(), t) ==> exists|j: int|
                    0 <= j < i && #[trigger] is_scan_root(split, keys@[j], options@, t),
            forall|j: int|
                0 <= j < i && #[trigger] has_structure(encode_utf8(keys@[j]@), allow_dots)
                    ==> exists|t: Seq<char>|
                    listed(scan.roots(), t) && #[trigger] is_scan_root(split, keys@[j], options@, t),
        decreases keys@.len() - i,
    {
        let key = keys[i];
        let ghost b = encode_utf8(key@);
        match first_structured_split_index(key, allow_dots) {
            None => {
                assert(!has_structure(b, allow_dots));
            },
            Some(split_at) => {
                assert(is_split_at(b, split_at as int, allow_dots));
                assert(has_structure(b, allow_dots));
                let root = if split_at == 0 {
                    let result = split(key, allow_dots, depth, strict_depth);
                    match result {
                        Ok(segments) => {
                            let root = leading_structured_root(key, &segments);
                            assert(splits_to(split, key, options@, Ok(segments)));
                            assert(split_ok_before(split, keys@, options@, i as int + 1));
                            root
                        },
                        Err(e) => {
                            assert(splits_to(split, key, options@, Err(e)));
                            assert(is_split_at(encode_utf8(keys@[i as int]@), 0, allow_dots));
                            assert(split_ok_before(split, keys@, options@, i as int));
                            return Err(e);
                        },
                    }
                } else {
                    root_before(key, split_at, allow_dots)
                };
                assert(is_scan_root(split, key, options@, root@));
                let ghost old_scan = scan;
                scan.record(key, root);
                assert forall|j: int|
                    0 <= j < i + 1 && #[trigger] has_structure(
                        encode_utf8(keys@[j]@),
                        allow_dots,
                    ) implies exists|t: Seq<char>|
                    listed(scan.roots(), t) && #[trigger] is_scan_root(
                        split,
                        keys@[j],
                        options@,
                        t,
                    ) by {
                    if j < i {
                        let t = choose|t: Seq<char>|
                            listed(old_scan.roots(), t) && #[trigger] is_scan_root(
                                split,
                                keys@[j],
                                options@,
                                t,
                            );
                        assert(listed(scan.roots(), t));
                    } else {
                        assert(listed(scan.roots(), root@));
                    }
                }
            },
        }
        i = i + 1;
    }
    Ok(scan)
}

} // verus!
