use vstd::prelude::*;

use crate::error::{Error, ThumbsResult};
use crate::model::{format_from_ext, ImageFormat, Params};
use crate::naming::{ext_of_chars, ext_of_view, filename_of_chars, filename_view, push_all, stem_of_chars, stem_view};
use crate::text::{chars_eq, chars_to_string, str_to_chars};

verus! {

/// The views of a list of strings.
pub open spec fn views_of(v: Seq<String>) -> Seq<Seq<char>> {
    v.map_values(|s: String| s@)
}

/// The format of a candidate source object, read from the extension of its
/// last path segment; `None` when it has no filename, no extension, or an
/// unrecognized one.
pub open spec fn candidate_format(p: Seq<char>) -> Option<ImageFormat> {
    if p.len() == 0 {
        None
    } else {
        match ext_of_view(filename_view(p)) {
            Some(e) => format_from_ext(e),
            None => None,
        }
    }
}

/// The filename a thumbnail of this candidate is expected under:
/// `<stem>_<name>.<extension>`.
pub open spec fn expected_thumb_name(stem: Seq<char>, name: Seq<char>, fmt: ImageFormat) -> Seq<
    char,
> {
    stem + "_"@ + name + "."@ + fmt.ext_view()
}

/// The filenames of the already-stored thumbnails.
pub open spec fn thumb_names(thumbs: Seq<Seq<char>>) -> Seq<Seq<char>> {
    thumbs.map_values(|t: Seq<char>| filename_view(t))
}

/// Whether a candidate still needs work: some specification's expected
/// thumbnail filename is missing from the stored thumbnails.
pub open spec fn needs_thumbs(p: Seq<char>, specs: Seq<Params>, thumbs: Seq<Seq<char>>) -> bool {
    match candidate_format(p) {
        Some(fmt) => exists|k: int|
            0 <= k < specs.len() && !thumb_names(thumbs).contains(
                expected_thumb_name(stem_view(filename_view(p)), (#[trigger] specs[k]).name@, fmt),
            ),
        None => false,
    }
}

/// The candidates that still need work, in their given order.
pub open spec fn retained(images: Seq<String>, specs: Seq<Params>, thumbs: Seq<Seq<char>>) -> Seq<
    String,
>
    decreases images.len(),
{
    if images.len() == 0 {
        Seq::empty()
    } else {
        let init = retained(images.drop_last(), specs, thumbs);
        if needs_thumbs(images.last()@, specs, thumbs) {
            init.push(images.last())
        } else {
            init
        }
    }
}

/// Whether the stored thumbnail filenames include `target`.
fn names_contain(names: &Vec<Vec<char>>, target: &Vec<char>) -> (r: bool)
    ensures
        r == exists|j: int| 0 <= j < names@.len() && (#[trigger] names@[j])@ == target@,
{
    let n = names.len();
    let mut j: usize = 0;
    while j < n
        invariant
            n == names@.len(),
            j <= n,
            forall|k: int| 0 <= k < j ==> (#[trigger] names@[k])@ != target@,
        decreases n - j,
    {
        if chars_eq(&names[j], target) {
            return true;
        }
        j += 1;
    }
    false
}

/// Keeps the candidates for which some expected thumbnail is missing from
/// the listing, in their given order; a candidate whose filename or
/// extension cannot be read fails the whole call.
pub fn filter_existent_thumbs(
    specs: &Vec<Params>,
    images: Vec<String>,
    thumbs: &Vec<String>,
) -> (r: ThumbsResult<Vec<String>>)
    ensures
        r matches Ok(v) ==> v@ == retained(images@, specs@, views_of(thumbs@)) && (forall|i: int|
            0 <= i < images@.len() ==> candidate_format((#[trigger] images@[i])@) is Some),
        r is Err <==> exists|i: int|
            0 <= i < images@.len() && candidate_format((#[trigger] images@[i])@) is None,
        r matches Err(e) ==> e == Error::NotSupported,
{
    proof {
        reveal_strlit("_");
        reveal_strlit(".");
    }
    let ghost tviews = views_of(thumbs@);
    let mut names: Vec<Vec<char>> = Vec::new();
    let mut t: usize = 0;
    while t < thumbs.len()
        invariant
            t <= thumbs@.len(),
            tviews == views_of(thumbs@),
            names@.len() == t,
            forall|k: int|
                0 <= k < t ==> (#[trigger] names@[k])@ == thumb_names(tviews)[k],
        decreases thumbs@.len() - t,
    {
        let v = str_to_chars(thumbs[t].as_str());
        let name = filename_of_chars(&v);
        names.push(name);
        t += 1;
    }

    let mut res: Vec<String> = Vec::new();
    let mut i: usize = 0;
    proof {
        assert(images@.take(0) =~= Seq::<String>::empty());
    }
    while i < images.len()
        invariant
            i <= images@.len(),
            tviews == views_of(thumbs@),
            names@.len() == thumbs@.len(),
            forall|k: int|
                0 <= k < names@.len() ==> (#[trigger] names@[k])@ == thumb_names(tviews)[k],
            res@ == retained(images@.take(i as int), specs@, tviews),
            forall|j: int|
                0 <= j < i ==> candidate_format((#[trigger] images@[j])@) is Some,
        decreases images@.len() - i,
    {
        let ghost pre = images@.take(i as int);
        let ghost post = images@.take(i + 1);
        proof {
            assert(post.drop_last() =~= pre);
            assert(post.last() == images@[i as int]);
        }
        let image = &images[i];
        let v = str_to_chars(image.as_str());
        if v.len() == 0 {
            return Err(Error::NotSupported);
        }
        let filename = filename_of_chars(&v);
        let ext = match ext_of_chars(&filename) {
            Some(e) => e,
            None => {
                return Err(Error::NotSupported);
            },
        };
        let ext_string = chars_to_string(&ext);
        let format = match ImageFormat::from_extension(ext_string.as_str()) {
            Some(f) => f,
            None => {
                return Err(Error::NotSupported);
            },
        };
        let stem = stem_of_chars(&filename);
        let fmt_ext = str_to_chars(format.ext());

        let mut has_all = true;
        let mut k: usize = 0;
        while k < specs.len()
            invariant
                k <= specs@.len(),
                tviews == views_of(thumbs@),
                names@.len() == thumbs@.len(),
                forall|m: int|
                    0 <= m < names@.len() ==> (#[trigger] names@[m])@ == thumb_names(tviews)[m],
                stem@ == stem_view(filename_view(image@)),
                fmt_ext@ == format.ext_view(),
                has_all == forall|m: int|
                    0 <= m < k ==> thumb_names(tviews).contains(
                        expected_thumb_name(
                            stem_view(filename_view(image@)),
                            (#[trigger] specs@[m]).name@,
                            format,
                        ),
                    ),
            decreases specs@.len() - k,
        {
            proof {
                reveal_strlit("_");
                reveal_strlit(".");
            }
            let mut expected: Vec<char> = Vec::new();
            push_all(&mut expected, &stem);
            expected.push('_');
            let name_chars = str_to_chars(specs[k].name.as_str());
            push_all(&mut expected, &name_chars);
            expected.push('.');
            push_all(&mut expected, &fmt_ext);
            assert(expected@ =~= expected_thumb_name(
                stem_view(filename_view(image@)),
                specs@[k as int].name@,
                format,
            ));
            let found = names_contain(&names, &expected);
            proof {
                if found {
                    let j = choose|j: int|
                        0 <= j < names@.len() && (#[trigger] names@[j])@ == expected@;
                    assert(thumb_names(tviews)[j] == expected@);
                    assert(thumb_names(tviews).contains(expected@));
                } else {
                    if thumb_names(tviews).contains(expected@) {
                        let j = choose|j: int|
                            0 <= j < thumb_names(tviews).len() && thumb_names(tviews)[j]
                                == expected@;
                        assert(names@[j]@ == expected@);
                    }
                }
            }
            has_all = has_all && found;
            k += 1;
        }

        proof {
            assert(candidate_format(image@) == Some(format));
            if !has_all {
                assert(needs_thumbs(image@, specs@, tviews));
            } else {
                assert(!needs_thumbs(image@, specs@, tviews));
            }
        }
        if !has_all {
            res.push(image.clone());
        }
        i += 1;
        proof {
            assert(res@ == retained(images@.take(i as int), specs@, tviews));
        }
    }
    proof {
        assert(images@.take(images@.len() as int) =~= images@);
    }
    Ok(res)
}

} // verus!
