use vstd::prelude::*;

use crate::error::{Error, ThumbsResult};
use crate::geometry::{lemma_crop_never_upscales, lemma_fit_never_upscales, thumb_size_view};
use crate::image::{
    calculate_thumbnail, decode_image, decoded_dims, encodable, encode_image, Image,
};
use crate::model::{FocalPoint, ImageDetails, ImageFormat, Mode, Params};
use crate::naming::{
    default_pattern, generate_path, generate_thumb_stem, lemma_default_stem,
    normalized_path_view, parse_path, path_ok, path_view, strip_leading_slash, thumb_stem_view,
};

verus! {

/// The naming pattern of one specification: its own, or the default.
pub open spec fn pattern_of(p: Params) -> Seq<char> {
    match p.naming_pattern {
        Some(s) => s@,
        None => default_pattern(),
    }
}

/// The destination stem one specification gives a source stem.
pub open spec fn thumb_stem_of(image_stem: Seq<char>, p: Params) -> Seq<char> {
    thumb_stem_view(image_stem, p.name@, pattern_of(p))
}

/// The raw destination path of one specification, before normalization.
pub open spec fn thumb_path_of(
    dest_dir: Seq<char>,
    image_stem: Seq<char>,
    fmt: ImageFormat,
    p: Params,
) -> Seq<char> {
    path_view(dest_dir, thumb_stem_of(image_stem, p), fmt)
}

/// The destination path of one specification, as the store sees it.
pub open spec fn dest_path_of(
    dest_dir: Seq<char>,
    image_stem: Seq<char>,
    fmt: ImageFormat,
    p: Params,
) -> Seq<char> {
    normalized_path_view(thumb_path_of(dest_dir, image_stem, fmt, p))
}

/// The indices of the specifications one run renders: all of them when
/// `force_override` is set, otherwise those whose destination is not there
/// yet; always in specification order.
pub open spec fn planned(existing: Seq<bool>, force_override: bool) -> Seq<int>
    decreases existing.len(),
{
    if existing.len() == 0 {
        Seq::empty()
    } else {
        let init = planned(existing.drop_last(), force_override);
        if force_override || !existing.last() {
            init.push(existing.len() - 1)
        } else {
            init
        }
    }
}

/// Every planned index lies within the flag list, an index is planned
/// exactly when the run is forced or its destination is missing, and the
/// plan keeps specification order.
pub proof fn lemma_planned_characterizes(existing: Seq<bool>, force_override: bool)
    ensures
        forall|k: int|
            0 <= k < planned(existing, force_override).len() ==> 0 <= #[trigger] planned(
                existing,
                force_override,
            )[k] < existing.len(),
        forall|i: int|
            #![trigger existing[i]]
            0 <= i < existing.len() ==> (planned(existing, force_override).contains(i) <==> (
            force_override || !existing[i])),
        forall|k1: int, k2: int|
            0 <= k1 < k2 < planned(existing, force_override).len() ==> #[trigger] planned(
                existing,
                force_override,
            )[k1] < #[trigger] planned(existing, force_override)[k2],
    decreases existing.len(),
{
    if existing.len() > 0 {
        let prefix = existing.drop_last();
        lemma_planned_characterizes(prefix, force_override);
        let all = planned(existing, force_override);
        let init = planned(prefix, force_override);
        assert forall|i: int|
            0 <= i < existing.len() implies (all.contains(i) <==> (force_override
            || !existing[i])) by {
            let last = existing.len() - 1;
            if i < last {
                assert(prefix[i] == existing[i]);
                if init.contains(i) {
                    let k = choose|k: int| 0 <= k < init.len() && init[k] == i;
                    assert(all[k] == i);
                }
                if all.contains(i) {
                    let k = choose|k: int| 0 <= k < all.len() && all[k] == i;
                    if force_override || !existing.last() {
                        if k < init.len() {
                            assert(init[k] == i);
                        }
                    } else {
                        assert(init[k] == i);
                    }
                }
            } else {
                if force_override || !existing[last] {
                    assert(all.last() == last);
                    assert(all.contains(last));
                } else {
                    if all.contains(last) {
                        let k = choose|k: int| 0 <= k < all.len() && all[k] == last;
                        assert(init[k] == last);
                    }
                }
            }
        }
    }
}

/// When every destination already exists and the run is not forced, nothing
/// is planned.
pub proof fn lemma_nothing_planned(existing: Seq<bool>)
    requires
        forall|i: int| 0 <= i < existing.len() ==> #[trigger] existing[i],
    ensures
        planned(existing, false).len() == 0,
    decreases existing.len(),
{
    if existing.len() > 0 {
        assert(existing.last());
        lemma_nothing_planned(existing.drop_last());
    }
}

/// A forced run plans every specification, in order.
pub proof fn lemma_forced_plans_all(existing: Seq<bool>)
    ensures
        planned(existing, true).len() == existing.len(),
        forall|k: int|
            0 <= k < existing.len() ==> #[trigger] planned(existing, true)[k] == k,
    decreases existing.len(),
{
    if existing.len() > 0 {
        lemma_forced_plans_all(existing.drop_last());
    }
}

/// The rendered pixel size of one specification, for a source of the given
/// size and at the given focal point.
pub open spec fn spec_thumb_size(p: Params, w: int, h: int, fx: int, fy: int) -> (int, int) {
    thumb_size_view(p.mode, (p.size.0 as int, p.size.1 as int), (w, h), fx, fy)
}

/// Whether every specification a run plans renders at a size its format can
/// encode.
pub open spec fn all_planned_encodable(
    specs: Seq<Params>,
    existing: Seq<bool>,
    force_override: bool,
    format: ImageFormat,
    w: int,
    h: int,
    fx: int,
    fy: int,
    integer_samples: bool,
) -> bool {
    forall|k: int|
        0 <= k < planned(existing, force_override).len() ==> {
            let d = spec_thumb_size(
                specs[#[trigger] planned(existing, force_override)[k]],
                w,
                h,
                fx,
                fy,
            );
            encodable(format, d.0, d.1, integer_samples)
        }
}

/// The flags a probe of the store yields for one source image: per
/// specification, whether its destination path is already stored.
pub open spec fn existing_flags(
    store: Map<Seq<char>, Seq<u8>>,
    specs: Seq<Params>,
    image_stem: Seq<char>,
    fmt: ImageFormat,
    dest_dir: Seq<char>,
) -> Seq<bool> {
    Seq::new(
        specs.len(),
        |i: int| store.dom().contains(dest_path_of(dest_dir, image_stem, fmt, specs[i])),
    )
}

/// The destination paths of the specifications a run plans, in plan order.
pub open spec fn planned_paths(
    specs: Seq<Params>,
    existing: Seq<bool>,
    force_override: bool,
    image_stem: Seq<char>,
    fmt: ImageFormat,
    dest_dir: Seq<char>,
) -> Seq<Seq<char>> {
    planned(existing, force_override).map_values(
        |i: int| dest_path_of(dest_dir, image_stem, fmt, specs[i]),
    )
}

/// The store after uploading, first to last, the given path/bytes pairs.
pub open spec fn store_after(
    store: Map<Seq<char>, Seq<u8>>,
    paths: Seq<Seq<char>>,
    data: Seq<Seq<u8>>,
) -> Map<Seq<char>, Seq<u8>>
    decreases paths.len(),
{
    if paths.len() == 0 || paths.len() != data.len() {
        store
    } else {
        store_after(store, paths.drop_last(), data.drop_last()).insert(paths.last(), data.last())
    }
}

/// Uploading removes nothing: what the store held it still holds, and every
/// uploaded path is present afterwards.
pub proof fn lemma_store_after_dom(
    store: Map<Seq<char>, Seq<u8>>,
    paths: Seq<Seq<char>>,
    data: Seq<Seq<u8>>,
)
    requires
        paths.len() == data.len(),
    ensures
        forall|p: Seq<char>|
            store.dom().contains(p) ==> store_after(store, paths, data).dom().contains(p),
        forall|k: int|
            0 <= k < paths.len() ==> store_after(store, paths, data).dom().contains(
                #[trigger] paths[k],
            ),
    decreases paths.len(),
{
    if paths.len() > 0 {
        lemma_store_after_dom(store, paths.drop_last(), data.drop_last());
        assert forall|k: int|
            0 <= k < paths.len() implies store_after(store, paths, data).dom().contains(
            #[trigger] paths[k],
        ) by {
            if k < paths.len() - 1 {
                assert(paths.drop_last()[k] == paths[k]);
            } else {
                assert(paths[k] == paths.last());
            }
        }
    }
}

/// A path no upload touches keeps its presence and its bytes.
pub proof fn lemma_store_after_untouched(
    store: Map<Seq<char>, Seq<u8>>,
    paths: Seq<Seq<char>>,
    data: Seq<Seq<u8>>,
    p: Seq<char>,
)
    requires
        paths.len() == data.len(),
        !paths.contains(p),
    ensures
        store_after(store, paths, data).dom().contains(p) == store.dom().contains(p),
        store.dom().contains(p) ==> store_after(store, paths, data)[p] == store[p],
    decreases paths.len(),
{
    if paths.len() > 0 {
        assert(paths.last() != p) by {
            assert(paths[paths.len() - 1] == paths.last());
        }
        assert(!paths.drop_last().contains(p)) by {
            if paths.drop_last().contains(p) {
                let k = choose|k: int|
                    0 <= k < paths.drop_last().len() && paths.drop_last()[k] == p;
                assert(paths[k] == p);
            }
        }
        lemma_store_after_untouched(store, paths.drop_last(), data.drop_last(), p);
    }
}

/// An uploaded path holds its own bytes, when no later upload writes the
/// same path.
pub proof fn lemma_store_after_at(
    store: Map<Seq<char>, Seq<u8>>,
    paths: Seq<Seq<char>>,
    data: Seq<Seq<u8>>,
    k: int,
)
    requires
        paths.len() == data.len(),
        0 <= k < paths.len(),
        forall|j: int| k < j < paths.len() ==> paths[j] != paths[k],
    ensures
        store_after(store, paths, data).dom().contains(paths[k]),
        store_after(store, paths, data)[paths[k]] == data[k],
    decreases paths.len(),
{
    if k == paths.len() - 1 {
    } else {
        assert(paths.last() != paths[k]) by {
            assert(paths[paths.len() - 1] == paths.last());
        }
        assert(paths.drop_last()[k] == paths[k]);
        lemma_store_after_at(store, paths.drop_last(), data.drop_last(), k);
    }
}

/// Under the default naming pattern, two specifications with different
/// names have different destination paths.
pub proof fn lemma_default_names_no_collision(
    dest_dir: Seq<char>,
    image_stem: Seq<char>,
    fmt: ImageFormat,
    p1: Params,
    p2: Params,
)
    requires
        p1.naming_pattern is None,
        p2.naming_pattern is None,
        p1.name@ != p2.name@,
    ensures
        dest_path_of(dest_dir, image_stem, fmt, p1) != dest_path_of(dest_dir, image_stem, fmt, p2),
{
    reveal_strlit("/");
    reveal_strlit(".");
    reveal_strlit("_");
    reveal_strlit("jpg");
    reveal_strlit("png");
    lemma_default_stem(image_stem, p1.name@);
    lemma_default_stem(image_stem, p2.name@);
    let n1 = p1.name@;
    let n2 = p2.name@;
    let pfx = dest_dir + "/"@ + image_stem + "_"@;
    let sfx = "."@ + fmt.ext_view();
    // the stems start with the one slash the path join strips again
    assert(("/"@ + image_stem + "_"@ + n1)[0] == '/');
    assert(("/"@ + image_stem + "_"@ + n2)[0] == '/');
    assert(strip_leading_slash("/"@ + image_stem + "_"@ + n1) =~= image_stem + "_"@ + n1);
    assert(strip_leading_slash("/"@ + image_stem + "_"@ + n2) =~= image_stem + "_"@ + n2);
    let raw1 = thumb_path_of(dest_dir, image_stem, fmt, p1);
    let raw2 = thumb_path_of(dest_dir, image_stem, fmt, p2);
    assert(raw1 =~= (pfx + n1) + sfx);
    assert(raw2 =~= (pfx + n2) + sfx);
    // the raw paths differ: a shared prefix and suffix leave the names
    assert(raw1 != raw2) by {
        if (pfx + n1) + sfx == (pfx + n2) + sfx {
            assert(n1.len() == n2.len());
            assert forall|j: int| 0 <= j < n1.len() implies n1[j] == n2[j] by {
                assert(((pfx + n1) + sfx)[pfx.len() + j] == (pfx + n1)[pfx.len() + j]);
                assert(((pfx + n2) + sfx)[pfx.len() + j] == (pfx + n2)[pfx.len() + j]);
            }
            assert(n1 =~= n2);
        }
        assert(raw1 == (pfx + n1) + sfx && raw2 == (pfx + n2) + sfx);
    }
    // normalization strips the same single characters from both, so it keeps
    // them apart: both end with the extension's last letter and start alike
    assert(raw1[0] == raw2[0]);
    assert(raw1.last() == sfx.last() && raw2.last() == sfx.last());
    assert(sfx.last() != '/');
    if raw1[0] == '/' {
        assert(normalized_path_view(raw1) == raw1.skip(1));
        assert(normalized_path_view(raw2) == raw2.skip(1));
        if raw1.skip(1) == raw2.skip(1) {
            assert(raw1.len() == raw2.len());
            assert forall|j: int| 0 <= j < raw1.len() implies raw1[j] == raw2[j] by {
                if 1 <= j {
                    assert(raw1.skip(1)[j - 1] == raw1[j]);
                    assert(raw2.skip(1)[j - 1] == raw2[j]);
                }
            }
            assert(raw1 =~= raw2);
        }
    } else {
        assert(normalized_path_view(raw1) == raw1);
        assert(normalized_path_view(raw2) == raw2);
    }
}

/// With the default naming pattern throughout, the data model's unique names
/// give pairwise distinct destination paths: the no-collision premise of the
/// override lemmas below.
pub proof fn lemma_default_names_distinct_paths(
    specs: Seq<Params>,
    dest_dir: Seq<char>,
    image_stem: Seq<char>,
    fmt: ImageFormat,
)
    requires
        forall|i: int| 0 <= i < specs.len() ==> (#[trigger] specs[i]).naming_pattern is None,
        forall|i: int, j: int|
            0 <= i < j < specs.len() ==> (#[trigger] specs[i]).name@ != (#[trigger] specs[j]).name@,
    ensures
        forall|i: int, j: int|
            0 <= i < j < specs.len() ==> dest_path_of(dest_dir, image_stem, fmt, #[trigger] specs[i])
                != dest_path_of(dest_dir, image_stem, fmt, #[trigger] specs[j]),
{
    assert forall|i: int, j: int|
        0 <= i < j < specs.len() implies dest_path_of(
        dest_dir,
        image_stem,
        fmt,
        #[trigger] specs[i],
    ) != dest_path_of(dest_dir, image_stem, fmt, #[trigger] specs[j]) by {
        lemma_default_names_no_collision(dest_dir, image_stem, fmt, specs[i], specs[j]);
    }
}

/// Dedup idempotence: one run uploads each planned destination; a rerun
/// against the resulting store, with `force_override` off, plans nothing, so
/// it uploads nothing further.
pub proof fn lemma_rerun_uploads_nothing(
    store0: Map<Seq<char>, Seq<u8>>,
    specs: Seq<Params>,
    image_stem: Seq<char>,
    fmt: ImageFormat,
    dest_dir: Seq<char>,
    force_override: bool,
    data: Seq<Seq<u8>>,
)
    requires
        data.len() == planned(
            existing_flags(store0, specs, image_stem, fmt, dest_dir),
            force_override,
        ).len(),
    ensures
        ({
            let flags0 = existing_flags(store0, specs, image_stem, fmt, dest_dir);
            let store1 = store_after(
                store0,
                planned_paths(specs, flags0, force_override, image_stem, fmt, dest_dir),
                data,
            );
            planned(existing_flags(store1, specs, image_stem, fmt, dest_dir), false).len() == 0
        }),
{
    let flags0 = existing_flags(store0, specs, image_stem, fmt, dest_dir);
    let paths = planned_paths(specs, flags0, force_override, image_stem, fmt, dest_dir);
    let store1 = store_after(store0, paths, data);
    let flags1 = existing_flags(store1, specs, image_stem, fmt, dest_dir);
    lemma_planned_characterizes(flags0, force_override);
    lemma_store_after_dom(store0, paths, data);
    assert forall|i: int| 0 <= i < flags1.len() implies #[trigger] flags1[i] by {
        let p = dest_path_of(dest_dir, image_stem, fmt, specs[i]);
        if flags0[i] {
            assert(store0.dom().contains(p));
        } else {
            assert(planned(flags0, force_override).contains(i));
            let k = choose|k: int|
                0 <= k < planned(flags0, force_override).len() && planned(
                    flags0,
                    force_override,
                )[k] == i;
            assert(paths[k] == p);
        }
    }
    lemma_nothing_planned(flags1);
}

/// Override correctness, the replacing half: a forced run renders every
/// specification and rewrites each destination with the fresh bytes,
/// whatever the store held there, provided the specifications' destination
/// paths do not collide.
pub proof fn lemma_force_override_replaces(
    store0: Map<Seq<char>, Seq<u8>>,
    specs: Seq<Params>,
    image_stem: Seq<char>,
    fmt: ImageFormat,
    dest_dir: Seq<char>,
    data: Seq<Seq<u8>>,
    i: int,
)
    requires
        data.len() == specs.len(),
        0 <= i < specs.len(),
        forall|j: int, k: int|
            0 <= j < k < specs.len() ==> dest_path_of(dest_dir, image_stem, fmt, #[trigger] specs[j])
                != dest_path_of(dest_dir, image_stem, fmt, #[trigger] specs[k]),
    ensures
        ({
            let flags0 = existing_flags(store0, specs, image_stem, fmt, dest_dir);
            let store1 = store_after(
                store0,
                planned_paths(specs, flags0, true, image_stem, fmt, dest_dir),
                data,
            );
            let p = dest_path_of(dest_dir, image_stem, fmt, specs[i]);
            store1.dom().contains(p) && store1[p] == data[i]
        }),
{
    let flags0 = existing_flags(store0, specs, image_stem, fmt, dest_dir);
    let paths = planned_paths(specs, flags0, true, image_stem, fmt, dest_dir);
    lemma_forced_plans_all(flags0);
    assert(paths[i] == dest_path_of(dest_dir, image_stem, fmt, specs[i]));
    assert forall|j: int| i < j < paths.len() implies paths[j] != paths[i] by {
        assert(paths[j] == dest_path_of(dest_dir, image_stem, fmt, specs[j]));
    }
    lemma_store_after_at(store0, paths, data, i);
}

/// Override correctness, the preserving half: without `force_override`, a
/// destination that already exists is not rendered and keeps its stored
/// bytes, even where a fresh render would differ, provided the
/// specifications' destination paths do not collide.
pub proof fn lemma_no_override_preserves(
    store0: Map<Seq<char>, Seq<u8>>,
    specs: Seq<Params>,
    image_stem: Seq<char>,
    fmt: ImageFormat,
    dest_dir: Seq<char>,
    data: Seq<Seq<u8>>,
    i: int,
)
    requires
        0 <= i < specs.len(),
        store0.dom().contains(dest_path_of(dest_dir, image_stem, fmt, specs[i])),
        data.len() == planned(existing_flags(store0, specs, image_stem, fmt, dest_dir), false).len(),
        forall|j: int, k: int|
            0 <= j < k < specs.len() ==> dest_path_of(dest_dir, image_stem, fmt, #[trigger] specs[j])
                != dest_path_of(dest_dir, image_stem, fmt, #[trigger] specs[k]),
    ensures
        ({
            let flags0 = existing_flags(store0, specs, image_stem, fmt, dest_dir);
            let store1 = store_after(
                store0,
                planned_paths(specs, flags0, false, image_stem, fmt, dest_dir),
                data,
            );
            let p = dest_path_of(dest_dir, image_stem, fmt, specs[i]);
            store1.dom().contains(p) && store1[p] == store0[p]
        }),
{
    let flags0 = existing_flags(store0, specs, image_stem, fmt, dest_dir);
    let paths = planned_paths(specs, flags0, false, image_stem, fmt, dest_dir);
    let p = dest_path_of(dest_dir, image_stem, fmt, specs[i]);
    lemma_planned_characterizes(flags0, false);
    assert(flags0[i]);
    assert(!planned(flags0, false).contains(i));
    assert forall|k: int| 0 <= k < paths.len() implies paths[k] != p by {
        let idx = planned(flags0, false)[k];
        assert(planned(flags0, false).contains(idx));
        assert(paths[k] == dest_path_of(dest_dir, image_stem, fmt, specs[idx]));
        if idx < i {
            assert(dest_path_of(dest_dir, image_stem, fmt, specs[idx]) != dest_path_of(
                dest_dir,
                image_stem,
                fmt,
                specs[i],
            ));
        } else {
            assert(i < idx);
        }
    }
    assert(!paths.contains(p)) by {
        if paths.contains(p) {
            let k = choose|k: int| 0 <= k < paths.len() && paths[k] == p;
            assert(paths[k] != p);
        }
    }
    lemma_store_after_untouched(store0, paths, data, p);
}

/// Override correctness under the data model's own invariant: with the
/// default naming pattern and unique specification names, a forced run
/// rewrites every destination with the freshly rendered bytes.
pub proof fn lemma_force_override_replaces_default(
    store0: Map<Seq<char>, Seq<u8>>,
    specs: Seq<Params>,
    image_stem: Seq<char>,
    fmt: ImageFormat,
    dest_dir: Seq<char>,
    data: Seq<Seq<u8>>,
    i: int,
)
    requires
        data.len() == specs.len(),
        0 <= i < specs.len(),
        forall|k: int| 0 <= k < specs.len() ==> (#[trigger] specs[k]).naming_pattern is None,
        forall|k: int, l: int|
            0 <= k < l < specs.len() ==> (#[trigger] specs[k]).name@ != (#[trigger] specs[l]).name@,
    ensures
        ({
            let flags0 = existing_flags(store0, specs, image_stem, fmt, dest_dir);
            let store1 = store_after(
                store0,
                planned_paths(specs, flags0, true, image_stem, fmt, dest_dir),
                data,
            );
            let p = dest_path_of(dest_dir, image_stem, fmt, specs[i]);
            store1.dom().contains(p) && store1[p] == data[i]
        }),
{
    lemma_default_names_distinct_paths(specs, dest_dir, image_stem, fmt);
    lemma_force_override_replaces(store0, specs, image_stem, fmt, dest_dir, data, i);
}

/// Override correctness under the data model's own invariant: with the
/// default naming pattern and unique specification names, a run without
/// `force_override` leaves an already-present destination byte-for-byte
/// unchanged.
pub proof fn lemma_no_override_preserves_default(
    store0: Map<Seq<char>, Seq<u8>>,
    specs: Seq<Params>,
    image_stem: Seq<char>,
    fmt: ImageFormat,
    dest_dir: Seq<char>,
    data: Seq<Seq<u8>>,
    i: int,
)
    requires
        0 <= i < specs.len(),
        store0.dom().contains(dest_path_of(dest_dir, image_stem, fmt, specs[i])),
        data.len() == planned(existing_flags(store0, specs, image_stem, fmt, dest_dir), false).len(),
        forall|k: int| 0 <= k < specs.len() ==> (#[trigger] specs[k]).naming_pattern is None,
        forall|k: int, l: int|
            0 <= k < l < specs.len() ==> (#[trigger] specs[k]).name@ != (#[trigger] specs[l]).name@,
    ensures
        ({
            let flags0 = existing_flags(store0, specs, image_stem, fmt, dest_dir);
            let store1 = store_after(
                store0,
                planned_paths(specs, flags0, false, image_stem, fmt, dest_dir),
                data,
            );
            let p = dest_path_of(dest_dir, image_stem, fmt, specs[i]);
            store1.dom().contains(p) && store1[p] == store0[p]
        }),
{
    lemma_default_names_distinct_paths(specs, dest_dir, image_stem, fmt);
    lemma_no_override_preserves(store0, specs, image_stem, fmt, dest_dir, data, i);
}

/// Renders the thumbnails of one decoded source image: the specifications a
/// run plans, in order, each resized by its own mode, encoded in the source's
/// format, and named by its pattern.
pub fn create_thumb_images(
    image: &Image,
    stem: &str,
    format: ImageFormat,
    dest_dir: &str,
    specs: &Vec<Params>,
    existing: &Vec<bool>,
    force_override: bool,
    center: FocalPoint,
) -> (r: ThumbsResult<Vec<ImageDetails>>)
    requires
        image.wf(),
        center.wf(),
        forall|i: int| 0 <= i < specs@.len() ==> (#[trigger] specs@[i]).wf(),
        existing@.len() == specs@.len(),
    ensures
        r matches Ok(v) ==> {
            let plan = planned(existing@, force_override);
            &&& v@.len() == plan.len()
            &&& forall|k: int|
                0 <= k < plan.len() ==> {
                    let p = specs@[plan[k]];
                    &&& (#[trigger] v@[k]).stem@ == thumb_stem_of(stem@, p)
                    &&& v@[k].format == format
                    &&& v@[k].path@ == dest_dir@
                    &&& 1 <= v@[k].bytes@.len()
                    &&& (v@[k].width as int, v@[k].height as int) == thumb_size_view(
                        p.mode,
                        (p.size.0 as int, p.size.1 as int),
                        (image.spec_width() as int, image.spec_height() as int),
                        center.x_per_mille as int,
                        center.y_per_mille as int,
                    )
                }
        },
        r is Ok <== all_planned_encodable(
            specs@,
            existing@,
            force_override,
            format,
            image.spec_width() as int,
            image.spec_height() as int,
            center.x_per_mille as int,
            center.y_per_mille as int,
            image.spec_integer_samples(),
        ),
        r matches Err(e) ==> (e == Error::NotSupported || e == Error::Image),
{
    let mut res: Vec<ImageDetails> = Vec::new();
    let mut i: usize = 0;
    proof {
        assert(existing@.take(0) =~= Seq::<bool>::empty());
    }
    while i < specs.len()
        invariant
            image.wf(),
            center.wf(),
            forall|j: int| 0 <= j < specs@.len() ==> (#[trigger] specs@[j]).wf(),
            existing@.len() == specs@.len(),
            i <= specs@.len(),
            res@.len() == planned(existing@.take(i as int), force_override).len(),
            forall|k: int|
                0 <= k < res@.len() ==> 0 <= #[trigger] planned(
                    existing@.take(i as int),
                    force_override,
                )[k] < i,
            forall|k: int|
                0 <= k < res@.len() ==> {
                    let p = specs@[planned(existing@.take(i as int), force_override)[k]];
                    &&& (#[trigger] res@[k]).stem@ == thumb_stem_of(stem@, p)
                    &&& res@[k].format == format
                    &&& res@[k].path@ == dest_dir@
                    &&& 1 <= res@[k].bytes@.len()
                    &&& (res@[k].width as int, res@[k].height as int) == thumb_size_view(
                        p.mode,
                        (p.size.0 as int, p.size.1 as int),
                        (image.spec_width() as int, image.spec_height() as int),
                        center.x_per_mille as int,
                        center.y_per_mille as int,
                    )
                },
        decreases specs@.len() - i,
    {
        let ghost pre = existing@.take(i as int);
        let ghost post = existing@.take(i + 1);
        proof {
            assert(post.drop_last() =~= pre);
            assert(post.last() == existing@[i as int]);
        }
        if force_override || !existing[i] {
            let params = &specs[i];
            let thumb_stem = match &params.naming_pattern {
                Some(pattern) => generate_thumb_stem(stem, &params.name, pattern.as_str()),
                None => generate_thumb_stem(stem, &params.name, "/{image_stem}_{thumb_name}"),
            };
            let thumbnail = calculate_thumbnail(image, params, center)?;
            let bytes = match encode_image(&thumbnail, format, params.quality) {
                Ok(b) => b,
                Err(e) => {
                    proof {
                        // this specification is planned and its rendered size
                        // is not encodable, so the success premise is false
                        lemma_planned_characterizes(existing@, force_override);
                        let plan = planned(existing@, force_override);
                        assert(plan.contains(i as int));
                        let k = choose|k: int| 0 <= k < plan.len() && plan[k] == i as int;
                        assert(!({
                            let d = spec_thumb_size(
                                specs@[plan[k]],
                                image.spec_width() as int,
                                image.spec_height() as int,
                                center.x_per_mille as int,
                                center.y_per_mille as int,
                            );
                            encodable(format, d.0, d.1, image.spec_integer_samples())
                        }));
                    }
                    return Err(e);
                },
            };
            let details = ImageDetails {
                stem: thumb_stem,
                format,
                path: dest_dir.to_owned(),
                bytes,
                width: thumbnail.width(),
                height: thumbnail.height(),
            };
            res.push(details);
            proof {
                assert(planned(post, force_override) =~= planned(pre, force_override).push(
                    i as int,
                ));
            }
        } else {
            proof {
                assert(planned(post, force_override) =~= planned(pre, force_override));
            }
        }
        i += 1;
    }
    proof {
        assert(existing@.take(specs@.len() as int) =~= existing@);
    }
    Ok(res)
}

/// The full destination path of one rendered thumbnail, as the store sees
/// it: its directory, stem and extension joined and normalized.
pub fn destination_path(details: &ImageDetails) -> (r: ThumbsResult<String>)
    ensures
        r matches Ok(p) ==> p@ == normalized_path_view(
            path_view(details.path@, details.stem@, details.format),
        ),
        r is Err <==> !path_ok(path_view(details.path@, details.stem@, details.format)),
        r matches Err(e) ==> e == Error::Path,
{
    let raw = generate_path(&details.path, &details.stem, details.format);
    parse_path(raw.as_str())
}

/// Decodes the source bytes once and renders its thumbnails. The call
/// succeeds exactly when the bytes decode to an image with at least one
/// pixel on each axis; undecodable bytes fail the whole call, before any
/// thumbnail is produced.
pub fn create_thumb_images_from_bytes(
    bytes: &Vec<u8>,
    stem: &str,
    format: ImageFormat,
    dest_dir: &str,
    specs: &Vec<Params>,
    existing: &Vec<bool>,
    force_override: bool,
    center: FocalPoint,
) -> (r: ThumbsResult<Vec<ImageDetails>>)
    requires
        center.wf(),
        forall|i: int| 0 <= i < specs@.len() ==> (#[trigger] specs@[i]).wf(),
        existing@.len() == specs@.len(),
    ensures
        r is Ok <==> (decoded_dims(bytes@, format) matches Some(d) && 1 <= d.0 && 1 <= d.1),
        r matches Ok(v) ==> (decoded_dims(bytes@, format) matches Some(dd) && {
            let plan = planned(existing@, force_override);
            &&& v@.len() == plan.len()
            &&& forall|k: int|
                0 <= k < plan.len() ==> {
                    let p = specs@[plan[k]];
                    &&& (#[trigger] v@[k]).stem@ == thumb_stem_of(stem@, p)
                    &&& v@[k].format == format
                    &&& v@[k].path@ == dest_dir@
                }
            &&& forall|k: int|
                0 <= k < plan.len() ==> ((#[trigger] v@[k]).width as int, v@[k].height as int)
                    == spec_thumb_size(
                    specs@[plan[k]],
                    dd.0 as int,
                    dd.1 as int,
                    center.x_per_mille as int,
                    center.y_per_mille as int,
                )
        }),
        r matches Err(e) ==> (e == Error::NotSupported || e == Error::Image),
{
    let image = match decode_image(bytes, format) {
        Ok(img) => img,
        Err(e) => {
            return Err(e);
        },
    };
    proof {
        lemma_planned_characterizes(existing@, force_override);
        let w = image.spec_width() as int;
        let h = image.spec_height() as int;
        let fx = center.x_per_mille as int;
        let fy = center.y_per_mille as int;
        // a thumbnail never upscales, so every planned specification renders
        // at a size the source format's encoder takes
        assert forall|k: int|
            0 <= k < planned(existing@, force_override).len() implies ({
            let d = spec_thumb_size(
                specs@[#[trigger] planned(existing@, force_override)[k]],
                w,
                h,
                fx,
                fy,
            );
            encodable(format, d.0, d.1, image.spec_integer_samples())
        }) by {
            let i = planned(existing@, force_override)[k];
            let p = specs@[i];
            assert(p.wf());
            match p.mode {
                Mode::Fit => lemma_fit_never_upscales(
                    (p.size.0 as int, p.size.1 as int),
                    (w, h),
                ),
                Mode::Crop => lemma_crop_never_upscales(
                    (p.size.0 as int, p.size.1 as int),
                    (w, h),
                    fx,
                    fy,
                ),
            }
        }
    }
    create_thumb_images(&image, stem, format, dest_dir, specs, existing, force_override, center)
}

/// The destination paths the specifications would write for one source
/// image, in specification order, each parsed into its normalized form; a
/// malformed destination fails the whole call.
pub fn thumb_paths(specs: &Vec<Params>, stem: &str, format: ImageFormat, dest_dir: &str) -> (r:
    ThumbsResult<Vec<String>>)
    ensures
        r matches Ok(v) ==> {
            &&& v@.len() == specs@.len()
            &&& forall|i: int|
                0 <= i < specs@.len() ==> #[trigger] path_ok(
                    thumb_path_of(dest_dir@, stem@, format, specs@[i]),
                )
            &&& forall|i: int|
                0 <= i < specs@.len() ==> (#[trigger] v@[i])@ == dest_path_of(
                    dest_dir@,
                    stem@,
                    format,
                    specs@[i],
                )
        },
        r matches Err(e) ==> e == Error::Path && exists|i: int|
            0 <= i < specs@.len() && !path_ok(
                thumb_path_of(dest_dir@, stem@, format, #[trigger] specs@[i]),
            ),
{
    let mut out: Vec<String> = Vec::new();
    let mut i: usize = 0;
    while i < specs.len()
        invariant
            i <= specs@.len(),
            out@.len() == i,
            forall|j: int|
                0 <= j < i ==> #[trigger] path_ok(thumb_path_of(dest_dir@, stem@, format, specs@[j])),
            forall|j: int|
                0 <= j < i ==> (#[trigger] out@[j])@ == dest_path_of(dest_dir@, stem@, format, specs@[j]),
        decreases specs@.len() - i,
    {
        let params = &specs[i];
        let thumb_stem = match &params.naming_pattern {
            Some(pattern) => generate_thumb_stem(stem, &params.name, pattern.as_str()),
            None => generate_thumb_stem(stem, &params.name, "/{image_stem}_{thumb_name}"),
        };
        assert(thumb_stem@ == thumb_stem_of(stem@, specs@[i as int]));
        let raw = generate_path(dest_dir, thumb_stem.as_str(), format);
        assert(raw@ == thumb_path_of(dest_dir@, stem@, format, specs@[i as int]));
        let parsed = parse_path(raw.as_str())?;
        out.push(parsed);
        i += 1;
    }
    Ok(out)
}

} // verus!
