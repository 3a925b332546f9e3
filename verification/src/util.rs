//! Byte-prefix matching, string building and association lists shared by
//! the protocol identifiers, the load balancer and the configuration code.
use vstd::prelude::*;
use vstd::string::*;

verus! {

/// `data` begins with `prefix`.
pub open spec fn starts_with_spec(data: Seq<u8>, prefix: Seq<u8>) -> bool {
    prefix.len() <= data.len() && data.subrange(0, prefix.len() as int) =~= prefix
}

/// The bytes of an ASCII text, one byte per character.
pub open spec fn ascii_bytes(s: Seq<char>) -> Seq<u8> {
    Seq::new(s.len(), |i: int| s[i] as u8)
}

/// An ASCII uppercase letter.
pub open spec fn is_ascii_upper(c: char) -> bool {
    65 <= (c as u32) && (c as u32) <= 90
}

/// An ASCII lowercase letter.
pub open spec fn is_ascii_lower(c: char) -> bool {
    97 <= (c as u32) && (c as u32) <= 122
}

/// A character with ASCII uppercase letters made lowercase.
pub open spec fn ascii_lower_char(c: char) -> char {
    if is_ascii_upper(c) {
        ((c as u32) + 32) as char
    } else {
        c
    }
}

/// A text with its ASCII uppercase letters made lowercase.
pub open spec fn ascii_lower(s: Seq<char>) -> Seq<char> {
    s.map_values(|c: char| ascii_lower_char(c))
}

/// A text of ASCII characters only.
pub open spec fn is_ascii_text(s: Seq<char>) -> bool {
    forall|i: int| 0 <= i < s.len() ==> (s[i] as u32) < 128
}

/// A single word: an ASCII letter followed by ASCII lowercase letters.
pub open spec fn simple_word(s: Seq<char>) -> bool {
    &&& s.len() > 0
    &&& is_ascii_upper(s[0]) || is_ascii_lower(s[0])
    &&& forall|i: int| 1 <= i < s.len() ==> is_ascii_lower(#[trigger] s[i])
}

/// The views of a sequence of strings.
pub open spec fn str_views(v: Seq<String>) -> Seq<Seq<char>> {
    v.map_values(|s: String| s@)
}

/// The view of an optional string.
pub open spec fn opt_view(o: Option<String>) -> Option<Seq<char>> {
    match o {
        Some(s) => Some(s@),
        None => None,
    }
}

/// Returns whether `data` begins with `prefix`.
pub fn starts_with(data: &[u8], prefix: &[u8]) -> (r: bool)
    ensures
        r == starts_with_spec(data@, prefix@),
{
    if prefix.len() > data.len() {
        return false;
    }
    let mut i: usize = 0;
    while i < prefix.len()
        invariant
            prefix.len() <= data.len(),
            i <= prefix.len(),
            forall|j: int| 0 <= j < i ==> data@[j] == prefix@[j],
        decreases prefix.len() - i,
    {
        if data[i] != prefix[i] {
            assert(data@.subrange(0, prefix.len() as int)[i as int] != prefix@[i as int]);
            return false;
        }
        i = i + 1;
    }
    true
}

/// The bytes of an ASCII string literal.
pub fn literal_bytes(s: &str) -> (r: &[u8])
    requires
        is_ascii(s),
    ensures
        r@ == ascii_bytes(s@),
{
    proof {
        is_ascii_spec_bytes(s);
    }
    s.as_bytes()
}

/// Returns whether `data` begins with the bytes of the ASCII text `lit`.
pub fn starts_with_literal(data: &[u8], lit: &str) -> (r: bool)
    requires
        is_ascii(lit),
    ensures
        r == starts_with_spec(data@, ascii_bytes(lit@)),
{
    starts_with(data, literal_bytes(lit))
}

/// A new string holding `a` followed by `b`.
pub fn concat(a: &str, b: &str) -> (r: String)
    ensures
        r@ == a@ + b@,
{
    let mut s = String::from_str(a);
    s.append(b);
    s
}

/// A copy of a string.
pub fn copy_string(s: &String) -> (r: String)
    ensures
        r@ == s@,
{
    s.clone()
}

/// A copy of an optional string.
pub fn copy_opt_string(s: &Option<String>) -> (r: Option<String>)
    ensures
        opt_view(r) == opt_view(*s),
{
    match s {
        Some(x) => Some(x.clone()),
        None => None,
    }
}

/// A copy of a list of strings.
pub fn copy_strings(v: &Vec<String>) -> (r: Vec<String>)
    ensures
        str_views(r@) == str_views(v@),
{
    let mut r: Vec<String> = Vec::new();
    let mut i: usize = 0;
    while i < v.len()
        invariant
            i <= v.len(),
            r@.len() == i,
            forall|j: int| 0 <= j < i ==> r@[j]@ == v@[j]@,
        decreases v.len() - i,
    {
        r.push(v[i].clone());
        i = i + 1;
    }
    assert(str_views(r@) =~= str_views(v@));
    r
}

/// Two strings are equal.
pub fn str_eq(a: &str, b: &str) -> (r: bool)
    ensures
        r == (a@ == b@),
{
    let x = String::from_str(a);
    let y = String::from_str(b);
    x == y
}

// ---------------------------------------------------------------------------
// Association lists: sequences of (key, value) pairs read by the first entry
// that carries a key.
// ---------------------------------------------------------------------------

/// `i` is the first index of `s` whose key is `k`.
pub open spec fn is_first_key<K, V>(s: Seq<(K, V)>, k: K, i: int) -> bool {
    &&& 0 <= i < s.len()
    &&& s[i].0 == k
    &&& forall|j: int| 0 <= j < i ==> s[j].0 != k
}

/// Some entry of `s` has key `k`.
pub open spec fn has_key<K, V>(s: Seq<(K, V)>, k: K) -> bool {
    exists|i: int| 0 <= i < s.len() && s[i].0 == k
}

/// The first index of `s` whose key is `k`.
pub open spec fn key_index<K, V>(s: Seq<(K, V)>, k: K) -> Option<int> {
    if has_key(s, k) {
        Some(choose|i: int| is_first_key(s, k, i))
    } else {
        None
    }
}

/// The value that `s` associates with `k`: that of its first entry with key `k`.
pub open spec fn assoc_get<K, V>(s: Seq<(K, V)>, k: K) -> Option<V> {
    match key_index(s, k) {
        Some(i) => Some(s[i].1),
        None => None,
    }
}

/// No key occurs twice in `s`.
pub open spec fn keys_unique<K, V>(s: Seq<(K, V)>) -> bool {
    forall|i: int, j: int| 0 <= i < j < s.len() ==> s[i].0 != s[j].0
}

/// The first index with a given key exists and is unique.
pub proof fn lemma_key_index<K, V>(s: Seq<(K, V)>, k: K)
    ensures
        has_key(s, k) ==> is_first_key(s, k, key_index(s, k).unwrap()),
        !has_key(s, k) ==> key_index(s, k) is None,
        forall|i: int| is_first_key(s, k, i) ==> key_index(s, k) == Some(i),
{
    if has_key(s, k) {
        let w = choose|i: int| 0 <= i < s.len() && s[i].0 == k;
        lemma_first_key_exists(s, k, w);
        let f = choose|i: int| is_first_key(s, k, i);
        assert forall|i: int| is_first_key(s, k, i) implies key_index(s, k) == Some(i) by {
            if i < f {
                assert(s[i].0 != k);
            } else if f < i {
                assert(s[f].0 != k);
            }
        }
    }
}

proof fn lemma_first_key_exists<K, V>(s: Seq<(K, V)>, k: K, w: int)
    requires
        0 <= w < s.len(),
        s[w].0 == k,
    ensures
        exists|i: int| is_first_key(s, k, i),
    decreases w,
{
    if exists|j: int| 0 <= j < w && s[j].0 == k {
        let j = choose|j: int| 0 <= j < w && s[j].0 == k;
        lemma_first_key_exists(s, k, j);
    } else {
        assert(is_first_key(s, k, w));
    }
}

/// Replacing the value at the first entry with key `k` associates `k` with the
/// new value and leaves every other key as it was.
pub proof fn lemma_assoc_update<K, V>(s: Seq<(K, V)>, k: K, i: int, v: V)
    requires
        is_first_key(s, k, i),
    ensures
        forall|k2: K| #[trigger]
            assoc_get(s.update(i, (k, v)), k2) == if k2 == k {
                Some(v)
            } else {
                assoc_get(s, k2)
            },
{
    let t = s.update(i, (k, v));
    assert forall|k2: K| #[trigger]
        assoc_get(t, k2) == if k2 == k {
            Some(v)
        } else {
            assoc_get(s, k2)
        } by {
        lemma_key_index(s, k2);
        lemma_key_index(t, k2);
        if k2 == k {
            assert(is_first_key(t, k, i));
        } else {
            if has_key(s, k2) {
                let f = key_index(s, k2).unwrap();
                assert(is_first_key(t, k2, f));
            } else {
                assert(!has_key(t, k2)) by {
                    if has_key(t, k2) {
                        let w = choose|w: int| 0 <= w < t.len() && t[w].0 == k2;
                        assert(s[w].0 == k2);
                    }
                }
            }
        }
    }
}

/// Appending an entry whose key is new associates that key with its value and
/// leaves every other key as it was.
pub proof fn lemma_assoc_push<K, V>(s: Seq<(K, V)>, k: K, v: V)
    requires
        !has_key(s, k),
    ensures
        forall|k2: K| #[trigger]
            assoc_get(s.push((k, v)), k2) == if k2 == k {
                Some(v)
            } else {
                assoc_get(s, k2)
            },
{
    let t = s.push((k, v));
    assert forall|k2: K| #[trigger]
        assoc_get(t, k2) == if k2 == k {
            Some(v)
        } else {
            assoc_get(s, k2)
        } by {
        lemma_key_index(s, k2);
        lemma_key_index(t, k2);
        if k2 == k {
            assert(is_first_key(t, k, s.len() as int));
        } else {
            if has_key(s, k2) {
                let f = key_index(s, k2).unwrap();
                assert(is_first_key(t, k2, f));
            } else {
                assert(!has_key(t, k2)) by {
                    if has_key(t, k2) {
                        let w = choose|w: int| 0 <= w < t.len() && t[w].0 == k2;
                        assert(s[w].0 == k2);
                    }
                }
            }
        }
    }
}

/// Removing the only entry with key `k` from a list without repeated keys
/// drops `k` and leaves every other key as it was.
pub proof fn lemma_assoc_remove<K, V>(s: Seq<(K, V)>, k: K, i: int)
    requires
        keys_unique(s),
        0 <= i < s.len(),
        s[i].0 == k,
    ensures
        keys_unique(s.remove(i)),
        forall|k2: K| #[trigger]
            assoc_get(s.remove(i), k2) == if k2 == k {
                None
            } else {
                assoc_get(s, k2)
            },
{
    let t = s.remove(i);
    assert forall|k2: K| #[trigger]
        assoc_get(t, k2) == if k2 == k {
            None
        } else {
            assoc_get(s, k2)
        } by {
        lemma_key_index(s, k2);
        lemma_key_index(t, k2);
        if has_key(t, k2) {
            let w = choose|w: int| 0 <= w < t.len() && t[w].0 == k2;
            let f = key_index(t, k2).unwrap();
            if f < i {
                assert(s[f] == t[f]);
                assert(is_first_key(s, k2, f));
            } else {
                assert(s[f + 1] == t[f]);
                assert(is_first_key(s, k2, f + 1)) by {
                    assert forall|j: int| 0 <= j < f + 1 implies s[j].0 != k2 by {
                        if j < i {
                            assert(s[j] == t[j]);
                        } else if j > i {
                            assert(s[j] == t[j - 1]);
                        }
                    }
                }
            }
        } else {
            if k2 != k && has_key(s, k2) {
                let f = key_index(s, k2).unwrap();
                if f < i {
                    assert(t[f] == s[f]);
                } else {
                    assert(t[f - 1] == s[f]);
                }
            }
        }
    }
}


/// The map that an association list describes.
pub open spec fn assoc_map<K, V>(s: Seq<(K, V)>) -> Map<K, V> {
    Map::new(|k: K| has_key(s, k), |k: K| assoc_get(s, k).unwrap())
}

/// Two association lists with the same keys, in the same order, find the
/// same first index for every key.
pub proof fn lemma_same_keys<K, V1, V2>(s1: Seq<(K, V1)>, s2: Seq<(K, V2)>)
    requires
        s1.len() == s2.len(),
        forall|j: int| 0 <= j < s1.len() ==> (#[trigger] s1[j]).0 == s2[j].0,
    ensures
        forall|k: K| #[trigger] has_key(s1, k) == has_key(s2, k),
        forall|k: K, i: int| #[trigger] is_first_key(s1, k, i) == is_first_key(s2, k, i),
{
    assert forall|k: K| #[trigger] has_key(s1, k) == has_key(s2, k) by {
        if has_key(s1, k) {
            let w = choose|w: int| 0 <= w < s1.len() && s1[w].0 == k;
            assert(s2[w].0 == k);
        }
        if has_key(s2, k) {
            let w = choose|w: int| 0 <= w < s2.len() && s2[w].0 == k;
            assert(s1[w].0 == k);
        }
    }
    assert forall|k: K, i: int| #[trigger] is_first_key(s1, k, i) == is_first_key(s2, k, i) by {
        if is_first_key(s1, k, i) {
            assert forall|j: int| 0 <= j < i implies s2[j].0 != k by {
                assert(s1[j].0 != k);
            }
        }
        if is_first_key(s2, k, i) {
            assert forall|j: int| 0 <= j < i implies s1[j].0 != k by {
                assert(s2[j].0 != k);
            }
        }
    }
}

/// The map of an association list after replacing the value of the first
/// entry with key `k`.
pub proof fn lemma_map_update<K, V>(s: Seq<(K, V)>, k: K, i: int, v: V)
    requires
        is_first_key(s, k, i),
    ensures
        assoc_map(s.update(i, (k, v))) == assoc_map(s).insert(k, v),
{
    lemma_assoc_update(s, k, i, v);
    let t = s.update(i, (k, v));
    assert forall|k2: K| #[trigger] has_key(t, k2) == (assoc_get(t, k2) is Some) by {
        lemma_key_index(t, k2);
    }
    assert forall|k2: K| #[trigger] has_key(s, k2) == (assoc_get(s, k2) is Some) by {
        lemma_key_index(s, k2);
    }
    assert(assoc_map(t) =~= assoc_map(s).insert(k, v)) by {
        assert forall|k2: K| #[trigger] assoc_map(t).dom().contains(k2) == assoc_map(s).insert(k, v).dom().contains(k2) by {
            assert(assoc_get(t, k2) == if k2 == k { Some(v) } else { assoc_get(s, k2) });
        }
        assert forall|k2: K| assoc_map(t).dom().contains(k2) implies #[trigger] assoc_map(t)[k2] == assoc_map(s).insert(k, v)[k2] by {
            assert(assoc_get(t, k2) == if k2 == k { Some(v) } else { assoc_get(s, k2) });
        }
    }
}

/// The map of an association list after appending an entry with a new key.
pub proof fn lemma_map_push<K, V>(s: Seq<(K, V)>, k: K, v: V)
    requires
        !has_key(s, k),
    ensures
        assoc_map(s.push((k, v))) == assoc_map(s).insert(k, v),
{
    lemma_assoc_push(s, k, v);
    let t = s.push((k, v));
    assert forall|k2: K| #[trigger] has_key(t, k2) == (assoc_get(t, k2) is Some) by {
        lemma_key_index(t, k2);
    }
    assert forall|k2: K| #[trigger] has_key(s, k2) == (assoc_get(s, k2) is Some) by {
        lemma_key_index(s, k2);
    }
    assert(assoc_map(t) =~= assoc_map(s).insert(k, v)) by {
        assert forall|k2: K| #[trigger] assoc_map(t).dom().contains(k2) == assoc_map(s).insert(k, v).dom().contains(k2) by {
            assert(assoc_get(t, k2) == if k2 == k { Some(v) } else { assoc_get(s, k2) });
        }
        assert forall|k2: K| assoc_map(t).dom().contains(k2) implies #[trigger] assoc_map(t)[k2] == assoc_map(s).insert(k, v)[k2] by {
            assert(assoc_get(t, k2) == if k2 == k { Some(v) } else { assoc_get(s, k2) });
        }
    }
}

/// The map of an association list without repeated keys after removing the
/// entry with key `k`.
pub proof fn lemma_map_remove<K, V>(s: Seq<(K, V)>, k: K, i: int)
    requires
        keys_unique(s),
        0 <= i < s.len(),
        s[i].0 == k,
    ensures
        keys_unique(s.remove(i)),
        assoc_map(s.remove(i)) == assoc_map(s).remove(k),
{
    lemma_assoc_remove(s, k, i);
    let t = s.remove(i);
    assert forall|k2: K| #[trigger] has_key(t, k2) == (assoc_get(t, k2) is Some) by {
        lemma_key_index(t, k2);
    }
    assert forall|k2: K| #[trigger] has_key(s, k2) == (assoc_get(s, k2) is Some) by {
        lemma_key_index(s, k2);
    }
    assert(assoc_map(t) =~= assoc_map(s).remove(k)) by {
        assert forall|k2: K| #[trigger] assoc_map(t).dom().contains(k2) == assoc_map(s).remove(k).dom().contains(k2) by {
            assert(assoc_get(t, k2) == if k2 == k { None } else { assoc_get(s, k2) });
        }
        assert forall|k2: K| assoc_map(t).dom().contains(k2) implies #[trigger] assoc_map(t)[k2] == assoc_map(s).remove(k)[k2] by {
            assert(assoc_get(t, k2) == if k2 == k { None } else { assoc_get(s, k2) });
        }
    }
}

/// A key is in the map of an association list exactly when some entry has it,
/// and the map gives the value of its first such entry.
pub proof fn lemma_assoc_map_at<K, V>(s: Seq<(K, V)>, k: K, i: int)
    requires
        is_first_key(s, k, i),
    ensures
        assoc_map(s).contains_key(k),
        assoc_map(s)[k] == s[i].1,
{
    lemma_key_index(s, k);
}

/// A key that no entry has is not in the map.
pub proof fn lemma_assoc_map_absent<K, V>(s: Seq<(K, V)>, k: K)
    requires
        !has_key(s, k),
    ensures
        !assoc_map(s).contains_key(k),
{
}


/// Two association lists with the same keys, in the same order, whose values
/// correspond by `f` describe maps that correspond by `f`.
pub proof fn lemma_assoc_map_values<K, V1, V2>(s1: Seq<(K, V1)>, s2: Seq<(K, V2)>, f: spec_fn(V1) -> V2)
    requires
        s1.len() == s2.len(),
        forall|j: int| 0 <= j < s1.len() ==> (#[trigger] s1[j]).0 == s2[j].0,
        forall|j: int| 0 <= j < s1.len() ==> (#[trigger] s2[j]).1 == f(s1[j].1),
    ensures
        assoc_map(s2) == assoc_map(s1).map_values(f),
{
    lemma_same_keys(s1, s2);
    assert forall|k: K| #[trigger] assoc_map(s2).dom().contains(k) == assoc_map(s1).map_values(f).dom().contains(k) by {
    }
    assert forall|k: K| assoc_map(s2).dom().contains(k) implies #[trigger] assoc_map(s2)[k] == assoc_map(s1).map_values(f)[k] by {
        lemma_key_index(s1, k);
        lemma_key_index(s2, k);
        let i = key_index(s1, k).unwrap();
        assert(is_first_key(s2, k, i));
    }
    assert(assoc_map(s2) =~= assoc_map(s1).map_values(f));
}

/// Finds the first entry of an association list, keyed by strings, whose
/// key is `k`.
pub fn find_key<V>(entries: &Vec<(String, V)>, k: &str) -> (r: Option<usize>)
    ensures
        match r {
            Some(i) => is_first_key(keyed(entries@), k@, i as int),
            None => !has_key(keyed(entries@), k@),
        },
{
    let mut i: usize = 0;
    while i < entries.len()
        invariant
            i <= entries.len(),
            forall|j: int| 0 <= j < i ==> keyed(entries@)[j].0 != k@,
        decreases entries.len() - i,
    {
        if str_eq(entries[i].0.as_str(), k) {
            return Some(i);
        }
        i = i + 1;
    }
    None
}

/// The keys of an association list, keyed by strings, taken by their views.
pub open spec fn keyed<V>(entries: Seq<(String, V)>) -> Seq<(Seq<char>, V)> {
    entries.map_values(|e: (String, V)| (e.0@, e.1))
}

} // verus!
