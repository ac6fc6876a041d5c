use vstd::prelude::*;

verus! {

broadcast use vstd::utf8::char_is_scalar;

/// Whether `pat` occurs in `s` at position `i`.
pub(crate) fn match_at(s: &Vec<char>, i: usize, pat: &Vec<char>) -> (r: bool)
    requires
        i + pat@.len() <= s@.len(),
    ensures
        r == (s@.subrange(i as int, i + pat@.len()) == pat@),
{
    let n = s.len();
    let mut j: usize = 0;
    while j < pat.len()
        invariant
            i + pat@.len() <= s@.len(),
            n == s@.len(),
            j <= pat@.len(),
            forall|k: int| 0 <= k < j ==> s@[i + k] == pat@[k],
        decreases pat@.len() - j,
    {
        if s[i + j] != pat[j] {
            assert(s@.subrange(i as int, i + pat@.len())[j as int] != pat@[j as int]);
            return false;
        }
        j += 1;
    }
    assert(s@.subrange(i as int, i + pat@.len()) =~= pat@);
    true
}

/// The character code of `c` with an ASCII upper-case letter folded to lower
/// case.
pub open spec fn lower_code(c: char) -> int {
    if 65 <= c as u32 && c as u32 <= 90 {
        c as u32 + 32
    } else {
        c as u32 as int
    }
}

/// Whether `e` equals `l` up to ASCII case, `l` being already lower case.
pub open spec fn matches_ignore_case(e: Seq<char>, l: Seq<char>) -> bool {
    e.len() == l.len() && forall|i: int| 0 <= i < e.len() ==> lower_code(e[i]) == l[i] as u32
}

pub(crate) fn eq_ignore_case(v: &Vec<char>, l: &Vec<char>) -> (r: bool)
    ensures
        r == matches_ignore_case(v@, l@),
{
    if v.len() != l.len() {
        return false;
    }
    let n = v.len();
    let mut i: usize = 0;
    while i < n
        invariant
            n == v@.len() == l@.len(),
            i <= n,
            forall|k: int| 0 <= k < i ==> lower_code(v@[k]) == l@[k] as u32,
        decreases n - i,
    {
        let a = v[i] as u32;
        let low = if 65 <= a && a <= 90 {
            a + 32
        } else {
            a
        };
        if low != l[i] as u32 {
            return false;
        }
        i += 1;
    }
    true
}

pub(crate) fn chars_eq(a: &Vec<char>, b: &Vec<char>) -> (r: bool)
    ensures
        r == (a@ == b@),
{
    if a.len() != b.len() {
        return false;
    }
    let n = a.len();
    let mut i: usize = 0;
    while i < n
        invariant
            n == a@.len() == b@.len(),
            i <= n,
            forall|k: int| 0 <= k < i ==> a@[k] == b@[k],
        decreases n - i,
    {
        if a[i] != b[i] {
            return false;
        }
        i += 1;
    }
    assert(a@ =~= b@);
    true
}

/// The characters of `s`, in order, as a vector.
pub fn str_to_chars(s: &str) -> (r: Vec<char>)
    ensures
        r@ == s@,
{
    let mut v: Vec<char> = Vec::new();
    for c in it: s.chars()
        invariant
            it.seq() == s@,
            v@ == s@.take(it.index() as int),
    {
        v.push(c);
        assert(v@ =~= s@.take(it.index() + 1));
    }
    assert(s@.take(s@.len() as int) =~= s@);
    v
}

/// Relies on `String`'s `FromIterator<char>`: collecting yields a string
/// whose characters are exactly the given ones, in order.
#[verifier::external_body]
pub(crate) fn chars_to_string(v: &Vec<char>) -> (r: String)
    ensures
        r@ == v@,
{
    v.iter().collect()
}

} // verus!
