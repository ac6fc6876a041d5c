use vstd::prelude::*;

use crate::error::{Error, ThumbsResult};
use crate::model::ImageFormat;
use crate::text::{chars_to_string, match_at, str_to_chars};

verus! {

/// The naming pattern used when a specification supplies none.
pub open spec fn default_pattern() -> Seq<char> {
    "/{image_stem}_{thumb_name}"@
}

/// One left-to-right pass over `pattern` replacing `tok_a` by `val_a` and
/// `tok_b` by `val_b`: at each position the first matching token is replaced
/// and scanning resumes after the inserted value, so the substitution is
/// literal and non-recursive — a token inside an inserted value is never
/// re-expanded.
pub open spec fn substitute_view(
    pattern: Seq<char>,
    tok_a: Seq<char>,
    val_a: Seq<char>,
    tok_b: Seq<char>,
    val_b: Seq<char>,
) -> Seq<char>
    decreases pattern.len(),
{
    if pattern.len() == 0 {
        pattern
    } else if tok_a.len() > 0 && pattern.len() >= tok_a.len() && pattern.subrange(
        0,
        tok_a.len() as int,
    ) == tok_a {
        val_a + substitute_view(pattern.skip(tok_a.len() as int), tok_a, val_a, tok_b, val_b)
    } else if tok_b.len() > 0 && pattern.len() >= tok_b.len() && pattern.subrange(
        0,
        tok_b.len() as int,
    ) == tok_b {
        val_b + substitute_view(pattern.skip(tok_b.len() as int), tok_a, val_a, tok_b, val_b)
    } else {
        seq![pattern[0]] + substitute_view(pattern.skip(1), tok_a, val_a, tok_b, val_b)
    }
}

/// The destination stem of a thumbnail: the pattern with `{image_stem}` and
/// `{thumb_name}` substituted in one pass, literally and non-recursively.
pub open spec fn thumb_stem_view(
    image_stem: Seq<char>,
    thumb_name: Seq<char>,
    pattern: Seq<char>,
) -> Seq<char> {
    substitute_view(pattern, "{image_stem}"@, image_stem, "{thumb_name}"@, thumb_name)
}

/// `s` without a single leading `/`, when it has one.
pub open spec fn strip_leading_slash(s: Seq<char>) -> Seq<char> {
    if s.len() > 0 && s[0] == '/' {
        s.skip(1)
    } else {
        s
    }
}

/// The full destination path of a thumbnail:
/// `<base>/<stem without one leading slash>.<extension>`.
pub open spec fn path_view(base: Seq<char>, stem: Seq<char>, fmt: ImageFormat) -> Seq<char> {
    base + "/"@ + strip_leading_slash(stem) + "."@ + fmt.ext_view()
}

pub(crate) fn push_all(out: &mut Vec<char>, v: &Vec<char>)
    ensures
        final(out)@ == old(out)@ + v@,
{
    let ghost base = out@;
    let mut j: usize = 0;
    while j < v.len()
        invariant
            j <= v@.len(),
            out@ == base + v@.take(j as int),
        decreases v@.len() - j,
    {
        out.push(v[j]);
        assert(out@ =~= base + v@.take(j + 1));
        j += 1;
    }
    assert(base + v@.take(v@.len() as int) =~= base + v@);
}

/// Substitutes `{image_stem}` and `{thumb_name}` in the naming pattern, in
/// one left-to-right pass: scanning resumes after each inserted value, so a
/// token inside a substituted value is never re-expanded.
pub fn generate_thumb_stem(image_stem: &str, thumb_name: &str, naming_pattern: &str) -> (r: String)
    ensures
        r@ == thumb_stem_view(image_stem@, thumb_name@, naming_pattern@),
{
    proof {
        reveal_strlit("{image_stem}");
        reveal_strlit("{thumb_name}");
    }
    let pattern = str_to_chars(naming_pattern);
    let tok_stem = str_to_chars("{image_stem}");
    let tok_thumb = str_to_chars("{thumb_name}");
    let stem = str_to_chars(image_stem);
    let name = str_to_chars(thumb_name);
    let ghost ta = tok_stem@;
    let ghost tb = tok_thumb@;
    let n = pattern.len();
    let mut out: Vec<char> = Vec::new();
    let mut i: usize = 0;
    proof {
        assert(pattern@.skip(0) =~= pattern@);
        assert(Seq::<char>::empty() + substitute_view(pattern@, ta, stem@, tb, name@)
            =~= substitute_view(pattern@, ta, stem@, tb, name@));
    }
    while i < n
        invariant
            n == pattern@.len(),
            i <= n,
            ta == tok_stem@ && ta == "{image_stem}"@ && 1 <= ta.len(),
            tb == tok_thumb@ && tb == "{thumb_name}"@ && 1 <= tb.len(),
            substitute_view(pattern@, ta, stem@, tb, name@) == out@ + substitute_view(
                pattern@.skip(i as int),
                ta,
                stem@,
                tb,
                name@,
            ),
        decreases n - i,
    {
        let ghost tail = pattern@.skip(i as int);
        let ghost out_before = out@;
        if tok_stem.len() <= n - i && match_at(&pattern, i, &tok_stem) {
            push_all(&mut out, &stem);
            proof {
                assert(tail.subrange(0, ta.len() as int) =~= pattern@.subrange(
                    i as int,
                    i + ta.len(),
                ));
                assert(tail.skip(ta.len() as int) =~= pattern@.skip(i + ta.len()));
                assert(out@ + substitute_view(pattern@.skip(i + ta.len()), ta, stem@, tb, name@)
                    =~= out_before + (stem@ + substitute_view(
                    tail.skip(ta.len() as int),
                    ta,
                    stem@,
                    tb,
                    name@,
                )));
            }
            i += tok_stem.len();
        } else if tok_thumb.len() <= n - i && match_at(&pattern, i, &tok_thumb) {
            proof {
                // the first token does not stand at this position
                if ta.len() <= n - i {
                    assert(tail.subrange(0, ta.len() as int) =~= pattern@.subrange(
                        i as int,
                        i + ta.len(),
                    ));
                }
            }
            push_all(&mut out, &name);
            proof {
                assert(tail.subrange(0, tb.len() as int) =~= pattern@.subrange(
                    i as int,
                    i + tb.len(),
                ));
                assert(tail.skip(tb.len() as int) =~= pattern@.skip(i + tb.len()));
                assert(out@ + substitute_view(pattern@.skip(i + tb.len()), ta, stem@, tb, name@)
                    =~= out_before + (name@ + substitute_view(
                    tail.skip(tb.len() as int),
                    ta,
                    stem@,
                    tb,
                    name@,
                )));
            }
            i += tok_thumb.len();
        } else {
            out.push(pattern[i]);
            proof {
                // neither token stands at this position
                if ta.len() <= n - i {
                    assert(tail.subrange(0, ta.len() as int) =~= pattern@.subrange(
                        i as int,
                        i + ta.len(),
                    ));
                }
                if tb.len() <= n - i {
                    assert(tail.subrange(0, tb.len() as int) =~= pattern@.subrange(
                        i as int,
                        i + tb.len(),
                    ));
                }
                assert(tail.skip(1) =~= pattern@.skip(i + 1));
                assert(out@ + substitute_view(pattern@.skip(i + 1), ta, stem@, tb, name@)
                    =~= out_before + (seq![tail[0]] + substitute_view(
                    tail.skip(1),
                    ta,
                    stem@,
                    tb,
                    name@,
                )));
            }
            i += 1;
        }
    }
    proof {
        assert(pattern@.skip(n as int) =~= Seq::<char>::empty());
        assert(out@ + Seq::<char>::empty() =~= out@);
    }
    chars_to_string(&out)
}

/// Under the default pattern, the destination stem is exactly
/// `/<image_stem>_<thumb_name>`.
pub proof fn lemma_default_stem(image_stem: Seq<char>, thumb_name: Seq<char>)
    ensures
        thumb_stem_view(image_stem, thumb_name, default_pattern()) == "/"@ + image_stem + "_"@
            + thumb_name,
{
    reveal_strlit("/{image_stem}_{thumb_name}");
    reveal_strlit("{image_stem}");
    reveal_strlit("{thumb_name}");
    reveal_strlit("/");
    reveal_strlit("_");
    let pat = default_pattern();
    let ta = "{image_stem}"@;
    let tb = "{thumb_name}"@;
    assert(pat.len() == 26 && ta.len() == 12 && tb.len() == 12);
    // position 0 holds a plain '/'
    assert(pat.subrange(0, 12)[0] == pat[0] && pat[0] != ta[0] && pat[0] != tb[0]);
    assert(substitute_view(pat, ta, image_stem, tb, thumb_name) == seq![pat[0]]
        + substitute_view(pat.skip(1), ta, image_stem, tb, thumb_name));
    // position 1 holds the stem token
    let t1 = pat.skip(1);
    assert(t1.subrange(0, 12) =~= ta);
    assert(substitute_view(t1, ta, image_stem, tb, thumb_name) == image_stem + substitute_view(
        t1.skip(12),
        ta,
        image_stem,
        tb,
        thumb_name,
    ));
    // position 13 holds a plain '_'
    let t13 = t1.skip(12);
    assert(t13 =~= pat.skip(13));
    assert(t13.subrange(0, 12)[0] == pat[13] && pat[13] != ta[0] && pat[13] != tb[0]);
    assert(substitute_view(t13, ta, image_stem, tb, thumb_name) == seq![t13[0]]
        + substitute_view(t13.skip(1), ta, image_stem, tb, thumb_name));
    // position 14 holds the name token, which ends the pattern
    let t14 = t13.skip(1);
    assert(t14 =~= pat.skip(14));
    // the stem token does not stand here: the second characters differ
    assert(t14.subrange(0, 12)[1] == pat[15] && pat[15] != ta[1]);
    assert(t14.subrange(0, 12) =~= tb);
    assert(substitute_view(t14, ta, image_stem, tb, thumb_name) == thumb_name + substitute_view(
        t14.skip(12),
        ta,
        image_stem,
        tb,
        thumb_name,
    ));
    assert(t14.skip(12) =~= Seq::<char>::empty());
    assert(thumb_stem_view(image_stem, thumb_name, pat) =~= "/"@ + image_stem + "_"@ + thumb_name)
        by {
        assert(seq![pat[0]] =~= "/"@);
        assert(seq![t13[0]] =~= "_"@);
        assert(thumb_name + Seq::<char>::empty() =~= thumb_name);
    }
}

/// A character allowed in a path segment: not an ASCII control character.
pub open spec fn path_char_ok(c: char) -> bool {
    !(c as u32 <= 31 || c as u32 == 127)
}

/// Whether the segment `.` stands at position `i` of `u`.
pub open spec fn dot_segment_at(u: Seq<char>, i: int) -> bool {
    &&& 0 <= i < u.len()
    &&& u[i] == '.'
    &&& (i == 0 || u[i - 1] == '/')
    &&& (i == u.len() - 1 || u[i + 1] == '/')
}

/// Whether the segment `..` stands at positions `i, i + 1` of `u`.
pub open spec fn dot_dot_segment_at(u: Seq<char>, i: int) -> bool {
    &&& 0 <= i && i + 1 < u.len()
    &&& u[i] == '.' && u[i + 1] == '.'
    &&& (i == 0 || u[i - 1] == '/')
    &&& (i + 1 == u.len() - 1 || u[i + 2] == '/')
}

/// All `/`-separated segments of `u` are valid: nonempty, not `.` or `..`,
/// and free of control characters.
pub open spec fn segments_ok(u: Seq<char>) -> bool {
    &&& u.len() > 0 ==> u[0] != '/' && u[u.len() - 1] != '/'
    &&& forall|i: int| 0 < i < u.len() ==> !(u[i - 1] == '/' && #[trigger] u[i] == '/')
    &&& forall|i: int| 0 <= i < u.len() ==> path_char_ok(#[trigger] u[i])
    &&& forall|i: int| !dot_segment_at(u, i)
    &&& forall|i: int| !dot_dot_segment_at(u, i)
}

/// `s` without a single trailing `/`, when it has one.
pub open spec fn strip_trailing_slash(s: Seq<char>) -> Seq<char> {
    if s.len() > 0 && s.last() == '/' {
        s.drop_last()
    } else {
        s
    }
}

/// The normalized form of a path string: one leading and one trailing `/`
/// stripped; a bare `/` (or nothing) normalizes to the empty root.
pub open spec fn normalized_path_view(s: Seq<char>) -> Seq<char> {
    let t = strip_leading_slash(s);
    if t.len() == 0 {
        t
    } else {
        strip_trailing_slash(t)
    }
}

/// Whether a path string parses: it is the root, or its normalized form is
/// nonempty and all its segments are valid.
pub open spec fn path_ok(s: Seq<char>) -> bool {
    let t = strip_leading_slash(s);
    if t.len() == 0 {
        true
    } else {
        strip_trailing_slash(t).len() > 0 && segments_ok(strip_trailing_slash(t))
    }
}

/// Parses a path string into its normalized form: one leading and one
/// trailing `/` are stripped, and every remaining `/`-separated segment must
/// be nonempty, not `.` or `..`, and free of ASCII control characters.
pub fn parse_path(path: &str) -> (r: ThumbsResult<String>)
    ensures
        r matches Ok(p) ==> path_ok(path@) && p@ == normalized_path_view(path@),
        r is Err <==> !path_ok(path@),
        r is Err ==> r == Err::<String, Error>(Error::Path),
{
    let mut v = str_to_chars(path);
    if v.len() > 0 && v[0] == '/' {
        v.remove(0);
    }
    assert(v@ =~= strip_leading_slash(path@));
    if v.len() == 0 {
        return Ok(chars_to_string(&v));
    }
    if v[v.len() - 1] == '/' {
        let _ = v.pop();
    }
    assert(v@ =~= normalized_path_view(path@));
    let n = v.len();
    if n == 0 {
        return Err(Error::Path);
    }
    if v[0] == '/' || v[n - 1] == '/' {
        return Err(Error::Path);
    }
    let mut i: usize = 0;
    while i < n
        invariant
            n == v@.len(),
            0 < n,
            v@ == normalized_path_view(path@),
            strip_leading_slash(path@).len() > 0,
            i <= n,
            forall|k: int| 0 < k < i ==> !(v@[k - 1] == '/' && #[trigger] v@[k] == '/'),
            forall|k: int| 0 <= k < i ==> path_char_ok(#[trigger] v@[k]),
            forall|k: int| k < i ==> !dot_segment_at(v@, k),
            forall|k: int| k < i ==> !dot_dot_segment_at(v@, k),
        decreases n - i,
    {
        let c = v[i] as u32;
        if c <= 31 || c == 127 {
            return Err(Error::Path);
        }
        if i > 0 && v[i - 1] == '/' && v[i] == '/' {
            return Err(Error::Path);
        }
        if v[i] == '.' && (i == 0 || v[i - 1] == '/') {
            if i == n - 1 || v[i + 1] == '/' {
                assert(dot_segment_at(v@, i as int));
                return Err(Error::Path);
            }
            if v[i + 1] == '.' && (i + 1 == n - 1 || v[i + 2] == '/') {
                assert(dot_dot_segment_at(v@, i as int));
                return Err(Error::Path);
            }
        }
        i += 1;
    }
    assert forall|k: int| !dot_segment_at(v@, k) by {
        if 0 <= k < n {
            assert(!dot_segment_at(v@, k));
        }
    }
    assert forall|k: int| !dot_dot_segment_at(v@, k) by {
        if 0 <= k && k + 1 < n {
            assert(!dot_dot_segment_at(v@, k));
        }
    }
    Ok(chars_to_string(&v))
}

/// The suffix of `s` after the last occurrence of `c`; `s` itself when `c`
/// does not occur.
pub open spec fn suffix_after_last(s: Seq<char>, c: char) -> Seq<char>
    decreases s.len(),
{
    if s.len() == 0 {
        s
    } else if s.last() == c {
        Seq::empty()
    } else {
        suffix_after_last(s.drop_last(), c).push(s.last())
    }
}

/// The prefix of `s` before the last occurrence of `c`.
pub open spec fn prefix_before_last(s: Seq<char>, c: char) -> Seq<char>
    decreases s.len(),
{
    if s.len() == 0 {
        s
    } else if s.last() == c {
        s.drop_last()
    } else {
        prefix_before_last(s.drop_last(), c)
    }
}

/// The last segment of a path: everything after the last `/`; the whole path
/// when there is no `/`.
pub open spec fn filename_view(p: Seq<char>) -> Seq<char> {
    suffix_after_last(p, '/')
}

/// A filename without its extension: everything before the last `.`; the
/// whole name when there is no `.`.
pub open spec fn stem_view(name: Seq<char>) -> Seq<char> {
    if name.contains('.') {
        prefix_before_last(name, '.')
    } else {
        name
    }
}

/// The extension of a filename: everything after the last `.`; `None` when
/// there is no `.` or when it is empty.
pub open spec fn ext_of_view(name: Seq<char>) -> Option<Seq<char>> {
    if name.contains('.') && suffix_after_last(name, '.').len() > 0 {
        Some(suffix_after_last(name, '.'))
    } else {
        None
    }
}

/// The path without its last segment; the empty root when the path has one
/// segment only.
pub open spec fn parent_view(p: Seq<char>) -> Seq<char> {
    if p.contains('/') {
        prefix_before_last(p, '/')
    } else {
        Seq::empty()
    }
}

proof fn lemma_suffix_after_last(s: Seq<char>, c: char, i: int)
    requires
        0 <= i < s.len(),
        s[i] == c,
        forall|j: int| i < j < s.len() ==> s[j] != c,
    ensures
        suffix_after_last(s, c) == s.skip(i + 1),
    decreases s.len(),
{
    if i == s.len() - 1 {
        assert(s.skip(i + 1) =~= Seq::<char>::empty());
    } else {
        assert(s.last() != c);
        assert(s.drop_last()[i] == c);
        lemma_suffix_after_last(s.drop_last(), c, i);
        assert(s.drop_last().skip(i + 1).push(s.last()) =~= s.skip(i + 1));
    }
}

proof fn lemma_prefix_before_last(s: Seq<char>, c: char, i: int)
    requires
        0 <= i < s.len(),
        s[i] == c,
        forall|j: int| i < j < s.len() ==> s[j] != c,
    ensures
        prefix_before_last(s, c) == s.take(i),
    decreases s.len(),
{
    if i == s.len() - 1 {
        assert(s.drop_last() =~= s.take(i));
    } else {
        assert(s.last() != c);
        assert(s.drop_last()[i] == c);
        lemma_prefix_before_last(s.drop_last(), c, i);
        assert(s.drop_last().take(i) =~= s.take(i));
    }
}

proof fn lemma_no_occurrence(s: Seq<char>, c: char)
    requires
        forall|j: int| 0 <= j < s.len() ==> s[j] != c,
    ensures
        suffix_after_last(s, c) == s,
        !s.contains(c),
    decreases s.len(),
{
    if s.len() > 0 {
        lemma_no_occurrence(s.drop_last(), c);
        assert(s.drop_last().push(s.last()) =~= s);
    }
}

/// The position of the last occurrence of `c` in `v`, when there is one.
fn rfind(v: &Vec<char>, c: char) -> (r: Option<usize>)
    ensures
        match r {
            Some(i) => i < v@.len() && v@[i as int] == c && (forall|j: int|
                i < j < v@.len() ==> v@[j] != c),
            None => forall|j: int| 0 <= j < v@.len() ==> v@[j] != c,
        },
{
    let mut i: usize = v.len();
    while i > 0
        invariant
            i <= v@.len(),
            forall|j: int| i <= j < v@.len() ==> v@[j] != c,
        decreases i,
    {
        i -= 1;
        if v[i] == c {
            return Some(i);
        }
    }
    None
}

fn sub_vec(v: &Vec<char>, start: usize, end: usize) -> (r: Vec<char>)
    requires
        start <= end <= v@.len(),
    ensures
        r@ == v@.subrange(start as int, end as int),
{
    let mut out: Vec<char> = Vec::new();
    let mut j: usize = start;
    while j < end
        invariant
            start <= j <= end <= v@.len(),
            out@ == v@.subrange(start as int, j as int),
        decreases end - j,
    {
        out.push(v[j]);
        assert(out@ =~= v@.subrange(start as int, j + 1));
        j += 1;
    }
    out
}

pub(crate) fn filename_of_chars(v: &Vec<char>) -> (r: Vec<char>)
    ensures
        r@ == filename_view(v@),
{
    let n = v.len();
    match rfind(v, '/') {
        Some(i) => {
            proof {
                lemma_suffix_after_last(v@, '/', i as int);
            }
            let r = sub_vec(v, i + 1, n);
            assert(r@ =~= v@.skip(i + 1));
            r
        },
        None => {
            proof {
                lemma_no_occurrence(v@, '/');
            }
            let r = sub_vec(v, 0, v.len());
            assert(r@ =~= v@);
            r
        },
    }
}

pub(crate) fn stem_of_chars(name: &Vec<char>) -> (r: Vec<char>)
    ensures
        r@ == stem_view(name@),
{
    match rfind(name, '.') {
        Some(i) => {
            proof {
                lemma_prefix_before_last(name@, '.', i as int);
            }
            sub_vec(name, 0, i)
        },
        None => {
            proof {
                lemma_no_occurrence(name@, '.');
            }
            let r = sub_vec(name, 0, name.len());
            assert(r@ =~= name@);
            r
        },
    }
}

pub(crate) fn ext_of_chars(name: &Vec<char>) -> (r: Option<Vec<char>>)
    ensures
        match r {
            Some(e) => ext_of_view(name@) == Some(e@),
            None => ext_of_view(name@) is None,
        },
{
    let n = name.len();
    match rfind(name, '.') {
        Some(i) => {
            proof {
                lemma_suffix_after_last(name@, '.', i as int);
            }
            if i + 1 == n {
                assert(name@.skip(i + 1) =~= Seq::<char>::empty());
                None
            } else {
                let r = sub_vec(name, i + 1, n);
                assert(r@ =~= name@.skip(i + 1));
                Some(r)
            }
        },
        None => {
            proof {
                lemma_no_occurrence(name@, '.');
            }
            None
        },
    }
}

/// The stem of the file a path points at: its last segment without the
/// extension. An empty path has no filename and is not supported.
pub fn extract_stem(path: &str) -> (r: ThumbsResult<String>)
    ensures
        path@.len() == 0 ==> r == Err::<String, Error>(Error::NotSupported),
        path@.len() > 0 ==> (r matches Ok(s) && s@ == stem_view(filename_view(path@))),
{
    let v = str_to_chars(path);
    if v.len() == 0 {
        return Err(Error::NotSupported);
    }
    let name = filename_of_chars(&v);
    let stem = stem_of_chars(&name);
    Ok(chars_to_string(&stem))
}

/// The directory part of a path: everything before the last `/`, or the empty
/// root for a path of one segment.
pub fn parent_dir(path: &str) -> (r: String)
    ensures
        r@ == parent_view(path@),
{
    let v = str_to_chars(path);
    match rfind(&v, '/') {
        Some(i) => {
            proof {
                lemma_prefix_before_last(v@, '/', i as int);
            }
            let p = sub_vec(&v, 0, i);
            chars_to_string(&p)
        },
        None => {
            proof {
                lemma_no_occurrence(v@, '/');
            }
            let empty: Vec<char> = Vec::new();
            chars_to_string(&empty)
        },
    }
}

/// Joins a destination directory, a stem and the format's extension into one
/// path; one leading `/` of the stem is dropped so that the join introduces
/// exactly one separator.
pub fn generate_path(base: &str, image_stem: &str, image_format: ImageFormat) -> (r: String)
    ensures
        r@ == path_view(base@, image_stem@, image_format),
{
    proof {
        reveal_strlit("/");
        reveal_strlit(".");
    }
    let mut out = str_to_chars(base);
    out.push('/');
    assert(out@ =~= base@ + "/"@);
    let stem = str_to_chars(image_stem);
    let stripped = if stem.len() > 0 && stem[0] == '/' {
        let mut t = stem;
        t.remove(0);
        assert(t@ =~= strip_leading_slash(image_stem@));
        t
    } else {
        assert(stem@ == strip_leading_slash(image_stem@));
        stem
    };
    push_all(&mut out, &stripped);
    out.push('.');
    assert(out@ =~= base@ + "/"@ + strip_leading_slash(image_stem@) + "."@);
    let ext = str_to_chars(image_format.ext());
    push_all(&mut out, &ext);
    chars_to_string(&out)
}

} // verus!
