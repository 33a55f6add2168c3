use vstd::prelude::*;

verus! {

/// The characters of a string as a vector, in order.
pub fn chars_of(s: &str) -> (r: Vec<char>)
    ensures
        r@ == s@,
{
    broadcast use vstd::string::axiom_spec_iter;

    let mut r: Vec<char> = Vec::new();
    for c in it: s.chars()
        invariant
            it.seq() == s@,
            r@ == s@.subrange(0, it.index() as int),
    {
        r.push(c);
    }
    assert(r@ =~= s@);
    r
}

/// Relies on std's `FromIterator<char> for String` (through `collect`):
/// the string collected from a character iterator holds exactly those
/// characters, in order.
#[verifier::external_body]
pub fn string_from_chars(v: &Vec<char>) -> (r: String)
    ensures
        r@ == v@,
{
    v.iter().collect()
}

/// Index of the last occurrence of `c` in `s`, or `-1` if there is none.
pub open spec fn find_last(s: Seq<char>, c: char) -> int
    decreases s.len(),
{
    if s.len() == 0 {
        -1
    } else if s[s.len() - 1] == c {
        s.len() - 1
    } else {
        find_last(s.drop_last(), c)
    }
}

pub proof fn lemma_find_last_bounds(s: Seq<char>, c: char)
    ensures
        -1 <= find_last(s, c) < s.len(),
        find_last(s, c) >= 0 ==> s[find_last(s, c)] == c,
        forall|j: int| find_last(s, c) < j < s.len() ==> s[j] != c,
    decreases s.len(),
{
    if s.len() > 0 && s[s.len() - 1] != c {
        lemma_find_last_bounds(s.drop_last(), c);
        assert forall|j: int| find_last(s, c) < j < s.len() implies s[j] != c by {
            if j < s.len() - 1 {
                assert(s.drop_last()[j] == s[j]);
            }
        }
    }
}

/// Scan a character vector for the last occurrence of `c`.
pub fn find_last_char(v: &Vec<char>, c: char) -> (r: Option<usize>)
    ensures
        match r {
            Some(i) => i < v.len() && find_last(v@, c) == i,
            None => find_last(v@, c) == -1,
        },
{
    let mut i: usize = v.len();
    assert(v@.subrange(0, v@.len() as int) =~= v@);
    while i > 0
        invariant
            i <= v.len(),
            find_last(v@, c) == find_last(v@.subrange(0, i as int), c),
        decreases i,
    {
        i = i - 1;
        if v[i] == c {
            assert(v@.subrange(0, i + 1)[i as int] == c);
            return Some(i);
        }
        assert(v@.subrange(0, i + 1).drop_last() =~= v@.subrange(0, i as int));
    }
    assert(v@.subrange(0, 0).len() == 0);
    None
}

/// The file extension of a path: the characters after the last `.` of the
/// last path segment, empty when that segment has no `.` past its first
/// character.
pub open spec fn ext_of(s: Seq<char>) -> Seq<char> {
    let d = find_last(s, '.');
    let sl = find_last(s, '/');
    if d > sl + 1 {
        s.subrange(d + 1, s.len() as int)
    } else {
        Seq::empty()
    }
}

/// The extension of `path`, as characters.
pub fn extension_of(path: &str) -> (r: Vec<char>)
    ensures
        r@ == ext_of(path@),
{
    let v = chars_of(path);
    extension_of_chars(&v)
}

/// The extension of the path held in `v`, as characters.
pub fn extension_of_chars(v: &Vec<char>) -> (r: Vec<char>)
    ensures
        r@ == ext_of(v@),
{
    let dot = find_last_char(v, '.');
    let slash = find_last_char(v, '/');
    proof {
        lemma_find_last_bounds(v@, '.');
        lemma_find_last_bounds(v@, '/');
    }
    let d: usize = match dot {
        Some(d) => d,
        None => {
            return Vec::new();
        },
    };
    // the dot must sit inside the last segment, past its first character
    let past_slash: bool = match slash {
        Some(sl) => d > sl + 1,
        None => d > 0,
    };
    if !past_slash {
        return Vec::new();
    }
    let mut r: Vec<char> = Vec::new();
    let mut i: usize = d + 1;
    while i < v.len()
        invariant
            d + 1 <= i <= v.len(),
            r@ == v@.subrange(d + 1, i as int),
        decreases v.len() - i,
    {
        r.push(v[i]);
        assert(r@ =~= v@.subrange(d + 1, i + 1));
        i = i + 1;
    }
    assert(r@ =~= v@.subrange(d + 1, v@.len() as int));
    r
}

/// Whether the characters of two vectors are equal.
pub fn chars_eq(a: &Vec<char>, b: &Vec<char>) -> (r: bool)
    ensures
        r == (a@ == b@),
{
    if a.len() != b.len() {
        assert(a@ != b@) by {
            assert(a@.len() != b@.len());
        }
        return false;
    }
    let mut i: usize = 0;
    while i < a.len()
        invariant
            i <= a.len(),
            a@.len() == b@.len(),
            forall|j: int| 0 <= j < i ==> a@[j] == b@[j],
        decreases a.len() - i,
    {
        if a[i] != b[i] {
            return false;
        }
        i = i + 1;
    }
    assert(a@ =~= b@);
    true
}

/// Whether some element of `v` holds the same characters as `s`.
pub open spec fn has_string(v: Seq<String>, s: Seq<char>) -> bool {
    exists|i: int| 0 <= i < v.len() && v[i]@ == s
}

/// Whether `v` holds a string equal to `s`.
pub fn contains_string(v: &Vec<String>, s: &String) -> (r: bool)
    ensures
        r == has_string(v@, s@),
{
    let mut i: usize = 0;
    while i < v.len()
        invariant
            i <= v.len(),
            forall|j: int| 0 <= j < i ==> v@[j]@ != s@,
        decreases v.len() - i,
    {
        if v[i].eq(s) {
            return true;
        }
        i = i + 1;
    }
    false
}

/// Element-for-element copy of a string vector.
pub fn clone_strings(v: &Vec<String>) -> (r: Vec<String>)
    ensures
        r@ == v@,
{
    let mut r: Vec<String> = Vec::new();
    let mut i: usize = 0;
    while i < v.len()
        invariant
            i <= v.len(),
            r@ == v@.subrange(0, i as int),
        decreases v.len() - i,
    {
        r.push(v[i].clone());
        assert(r@ =~= v@.subrange(0, i + 1));
        i = i + 1;
    }
    assert(r@ =~= v@);
    r
}

/// `ws` names a directory at or above `f`: it is a character prefix of `f`
/// that ends at a path-separator boundary. Roots are expected without a
/// trailing separator; a root that ends in `/` is accepted as well.
pub open spec fn is_path_prefix(ws: Seq<char>, f: Seq<char>) -> bool {
    &&& ws.len() <= f.len()
    &&& f.subrange(0, ws.len() as int) == ws
    &&& (f.len() == ws.len() || f[ws.len() as int] == '/' || (ws.len() > 0 && ws[ws.len() - 1]
        == '/'))
}

/// Whether the path in `ws` is a directory prefix of the path in `f`.
pub fn path_prefix_chars(ws: &Vec<char>, f: &Vec<char>) -> (r: bool)
    ensures
        r == is_path_prefix(ws@, f@),
{
    if ws.len() > f.len() {
        return false;
    }
    let mut i: usize = 0;
    let mut prefix = true;
    assert(f@.subrange(0, 0) =~= ws@.subrange(0, 0));
    while i < ws.len()
        invariant
            i <= ws.len() <= f.len(),
            prefix == (f@.subrange(0, i as int) == ws@.subrange(0, i as int)),
        decreases ws.len() - i,
    {
        let ghost pre = prefix;
        if f[i] != ws[i] {
            prefix = false;
            assert(f@.subrange(0, i + 1)[i as int] != ws@.subrange(0, i + 1)[i as int]);
        } else {
            if prefix {
                assert(f@.subrange(0, i + 1) =~= f@.subrange(0, i as int).push(f@[i as int]));
                assert(ws@.subrange(0, i + 1) =~= ws@.subrange(0, i as int).push(ws@[i as int]));
            } else {
                assert(f@.subrange(0, i as int) != ws@.subrange(0, i as int));
                assert(f@.subrange(0, i + 1).drop_last() =~= f@.subrange(0, i as int));
                assert(ws@.subrange(0, i + 1).drop_last() =~= ws@.subrange(0, i as int));
            }
        }
        i = i + 1;
    }
    assert(ws@.subrange(0, ws@.len() as int) =~= ws@);
    if !prefix {
        return false;
    }
    if f.len() == ws.len() {
        return true;
    }
    if f[ws.len()] == '/' {
        return true;
    }
    ws.len() > 0 && ws[ws.len() - 1] == '/'
}

/// The last `/`-separated segment of `s`: everything after the last `/`,
/// or all of `s` when it has none.
pub open spec fn last_segment(s: Seq<char>) -> Seq<char> {
    s.subrange(find_last(s, '/') + 1, s.len() as int)
}

/// The last path segment of `path`, as a string.
pub fn last_segment_of(path: &str) -> (r: String)
    ensures
        r@ == last_segment(path@),
{
    let v = chars_of(path);
    let slash = find_last_char(&v, '/');
    proof {
        lemma_find_last_bounds(v@, '/');
    }
    let start: usize = match slash {
        Some(i) => i + 1,
        None => 0,
    };
    let mut r: Vec<char> = Vec::new();
    let mut i: usize = start;
    while i < v.len()
        invariant
            start <= i <= v.len(),
            r@ == v@.subrange(start as int, i as int),
        decreases v.len() - i,
    {
        r.push(v[i]);
        assert(r@ =~= v@.subrange(start as int, i + 1));
        i = i + 1;
    }
    assert(r@ =~= last_segment(path@));
    string_from_chars(&r)
}

} // verus!
