//! Character-level helpers: decoding strings, case folding and substring search.
use vstd::prelude::*;

verus! {

/// What `str::to_lowercase` yields for a string with the given characters.
pub uninterp spec fn lower_of(s: Seq<char>) -> Seq<char>;

/// `q` occurs as a contiguous run of characters somewhere in `s`.
pub open spec fn occurs_in(q: Seq<char>, s: Seq<char>) -> bool {
    exists|i: int| 0 <= i && i + q.len() <= s.len() && #[trigger] s.subrange(i, i + q.len()) == q
}

/// `q` occurs in `s` starting at position `i`.
pub open spec fn occurs_at(q: Seq<char>, s: Seq<char>, i: int) -> bool {
    0 <= i && i + q.len() <= s.len() && s.subrange(i, i + q.len()) == q
}

/// A path separator of either convention.
pub open spec fn is_separator(c: char) -> bool {
    c == '/' || c == '\\'
}

/// The text names a path rather than a bare file name.
pub open spec fn has_separator(s: Seq<char>) -> bool {
    exists|i: int| 0 <= i < s.len() && is_separator(#[trigger] s[i])
}

/// Relies on `str::to_lowercase`: the result depends on the characters alone,
/// and the empty string stays empty.
#[verifier::external_body]
pub(crate) fn lowercase(s: &str) -> (r: String)
    ensures
        r@ == lower_of(s@),
        s@.len() == 0 ==> r@.len() == 0,
{
    s.to_lowercase()
}

/// The characters of `s`, one per element.
pub fn chars_of(s: &str) -> (r: Vec<char>)
    ensures
        r@ == s@,
{
    let mut out: Vec<char> = Vec::new();
    for c in it: s.chars()
        invariant
            out@ == it.seq().take(it.index() as int),
    {
        out.push(c);
    }
    assert(out@ =~= s@);
    out
}

/// Whether `q` occurs in `s` at position `i`.
fn matches_at(s: &Vec<char>, q: &Vec<char>, i: usize) -> (r: bool)
    requires
        i + q.len() <= s.len(),
    ensures
        r == occurs_at(q@, s@, i as int),
{
    let mut j: usize = 0;
    while j < q.len()
        invariant
            i + q.len() <= s.len(),
            j <= q@.len(),
            forall|k: int| 0 <= k < j ==> s@[i + k] == q@[k],
        decreases q@.len() - j,
    {
        if s[i + j] != q[j] {
            assert(s@.subrange(i as int, i + q@.len())[j as int] != q@[j as int]);
            return false;
        }
        j = j + 1;
    }
    assert(s@.subrange(i as int, i + q@.len()) =~= q@);
    true
}

/// Substring containment: whether `q` occurs as a contiguous run in `s`.
pub fn contains_chars(s: &Vec<char>, q: &Vec<char>) -> (r: bool)
    ensures
        r == occurs_in(q@, s@),
{
    if q.len() > s.len() {
        return false;
    }
    let last: usize = s.len() - q.len();
    let mut i: usize = 0;
    loop
        invariant
            last == s@.len() - q@.len(),
            i <= last,
            forall|k: int| 0 <= k < i ==> !occurs_at(q@, s@, k),
        decreases last - i,
    {
        if matches_at(s, q, i) {
            assert(occurs_at(q@, s@, i as int));
            return true;
        }
        if i == last {
            assert forall|k: int| 0 <= k && k + q@.len() <= s@.len() implies
                #[trigger] s@.subrange(k, k + q@.len()) != q@ by {
                assert(!occurs_at(q@, s@, k));
            };
            return false;
        }
        i = i + 1;
    }
}

/// Whether `s` holds a path separator.
pub fn contains_separator(s: &Vec<char>) -> (r: bool)
    ensures
        r == has_separator(s@),
{
    let mut i: usize = 0;
    while i < s.len()
        invariant
            i <= s@.len(),
            forall|k: int| 0 <= k < i ==> !is_separator(#[trigger] s@[k]),
        decreases s@.len() - i,
    {
        if s[i] == '/' || s[i] == '\\' {
            return true;
        }
        i = i + 1;
    }
    false
}

} // verus!
