//! Bounded byte search and in-place substitution inside a disc image.
//!
//! The patcher is handed the two extracted boot-loader blobs and the
//! leading bytes of the target image.  It checks that the blobs are
//! interchangeable (equal length), looks for the undesired variant's
//! bytes within the first `SEARCH_BOUND` bytes of the image, and
//! overwrites the first occurrence with the desired variant — or
//! reports that the desired bytes are already in place, or that
//! neither variant occurs and the image is not of the expected format.
//! The caller maps the file and persists the mutated bytes.

use crate::udf::UdfError;
use vstd::prelude::*;

verus! {

/// How far into the image the search may look: the target bytes are
/// defined by the on-disk layout to begin within the first MiB, so no
/// byte at or past this offset is ever examined.
pub const SEARCH_BOUND: usize = 1048576;

/// Why a patch attempt failed.
#[derive(Debug)]
pub enum PatchError {
    /// The filesystem layer could not extract the boot-loader blobs.
    Udf(UdfError),
    /// Opening, mapping or flushing the image failed; carries the
    /// operating system's diagnostic text.
    Io(String),
    /// The image is not of the expected structure: the blobs differ in
    /// length, or neither variant's bytes occur in the search region.
    InvalidIsoFormat,
}

/// Number of image bytes the search may examine: the whole image where
/// it is shorter than `SEARCH_BOUND`.
pub open spec fn spec_window(image_len: int) -> int {
    if image_len < SEARCH_BOUND {
        image_len
    } else {
        SEARCH_BOUND as int
    }
}

/// `needle` occurs at offset `i` of `image`, wholly within the first
/// `bound` bytes.
pub open spec fn match_within(image: Seq<u8>, needle: Seq<u8>, bound: int, i: int) -> bool {
    &&& 0 <= i
    &&& i + needle.len() <= bound
    &&& bound <= image.len()
    &&& image.subrange(i, i + needle.len()) == needle
}

/// `needle` occurs at offset `i`, wholly within the search window.
pub open spec fn is_match(image: Seq<u8>, needle: Seq<u8>, i: int) -> bool {
    match_within(image, needle, spec_window(image.len() as int), i)
}

/// `needle` occurs somewhere in the search window.
pub open spec fn found(image: Seq<u8>, needle: Seq<u8>) -> bool {
    exists|i: int| is_match(image, needle, i)
}

/// `i` is the lowest offset at which `needle` occurs in the window.
pub open spec fn is_first_match(image: Seq<u8>, needle: Seq<u8>, i: int) -> bool {
    &&& is_match(image, needle, i)
    &&& forall|j: int| 0 <= j < i ==> !is_match(image, needle, j)
}

/// The lowest offset at which `needle` occurs in the window.
pub open spec fn first_match(image: Seq<u8>, needle: Seq<u8>) -> int {
    choose|i: int| is_first_match(image, needle, i)
}

/// `s` with the `t.len()` bytes at offset `i` replaced by `t`.
pub open spec fn spec_splice(s: Seq<u8>, i: int, t: Seq<u8>) -> Seq<u8> {
    s.subrange(0, i) + t + s.subrange(i + t.len(), s.len() as int)
}

/// The bytes the patch must remove: the variant the caller does not
/// want.
pub open spec fn spec_from(cdboot: Seq<u8>, cdboot_noprompt: Seq<u8>, want_prompt: bool) -> Seq<
    u8,
> {
    if want_prompt {
        cdboot_noprompt
    } else {
        cdboot
    }
}

/// The bytes the patch must install: the variant the caller wants.
pub open spec fn spec_to(cdboot: Seq<u8>, cdboot_noprompt: Seq<u8>, want_prompt: bool) -> Seq<u8> {
    if want_prompt {
        cdboot
    } else {
        cdboot_noprompt
    }
}

/// The outcome a patch attempt reports: `Ok(true)` when the undesired
/// variant was found (and replaced), `Ok(false)` when only the desired
/// variant was found, and a format error when the blobs differ in
/// length or neither variant occurs in the window.
pub open spec fn spec_patch_result(
    image: Seq<u8>,
    cdboot: Seq<u8>,
    cdboot_noprompt: Seq<u8>,
    want_prompt: bool,
) -> Result<bool, PatchError> {
    if cdboot.len() != cdboot_noprompt.len() {
        Err(PatchError::InvalidIsoFormat)
    } else if found(image, spec_from(cdboot, cdboot_noprompt, want_prompt)) {
        Ok(true)
    } else if found(image, spec_to(cdboot, cdboot_noprompt, want_prompt)) {
        Ok(false)
    } else {
        Err(PatchError::InvalidIsoFormat)
    }
}

/// The image bytes after a patch attempt: the desired variant spliced
/// over the first occurrence of the undesired one when the attempt
/// patches, and the image unchanged in every other case.
pub open spec fn spec_patched_image(
    image: Seq<u8>,
    cdboot: Seq<u8>,
    cdboot_noprompt: Seq<u8>,
    want_prompt: bool,
) -> Seq<u8> {
    let from = spec_from(cdboot, cdboot_noprompt, want_prompt);
    let to = spec_to(cdboot, cdboot_noprompt, want_prompt);
    if cdboot.len() == cdboot_noprompt.len() && found(image, from) {
        spec_splice(image, first_match(image, from), to)
    } else {
        image
    }
}

/// Whether `needle` matches `image` byte for byte at offset `i`.
fn matches_at(image: &Vec<u8>, needle: &Vec<u8>, i: usize) -> (r: bool)
    requires
        i + needle@.len() <= image@.len(),
    ensures
        r <==> image@.subrange(i as int, i + needle@.len()) == needle@,
{
    let ilen = image.len();
    let n = needle.len();
    let mut j: usize = 0;
    while j < n
        invariant
            ilen == image@.len(),
            n == needle@.len(),
            i + n <= ilen,
            0 <= j <= n,
            forall|k: int| 0 <= k < j ==> image@[i + k] == needle@[k],
        decreases n - j,
    {
        if image[i + j] != needle[j] {
            proof {
                assert(image@.subrange(i as int, i + needle@.len())[j as int] == image@[i + j]);
            }
            return false;
        }
        j += 1;
    }
    proof {
        assert(image@.subrange(i as int, i + needle@.len()) =~= needle@);
    }
    true
}

/// The lowest offset at which `needle` occurs wholly within the first
/// `bound` bytes of `image`, if it occurs there at all.
fn find_first(image: &Vec<u8>, needle: &Vec<u8>, bound: usize) -> (r: Option<usize>)
    requires
        bound <= image@.len(),
    ensures
        r matches Some(i) ==> match_within(image@, needle@, bound as int, i as int) && (forall|
            j: int,
        |
            0 <= j < i ==> !match_within(image@, needle@, bound as int, j)),
        r is None ==> forall|i: int| !match_within(image@, needle@, bound as int, i),
{
    if needle.len() > bound {
        return None;
    }
    if needle.len() == 0 {
        proof {
            assert(image@.subrange(0, 0) =~= needle@);
        }
        return Some(0);
    }
    let last = bound - needle.len();
    let mut i: usize = 0;
    while i <= last
        invariant
            bound <= image@.len(),
            1 <= needle@.len() <= bound,
            last == bound - needle@.len(),
            0 <= i <= last + 1,
            forall|j: int| 0 <= j < i ==> !match_within(image@, needle@, bound as int, j),
        decreases last + 1 - i,
    {
        if matches_at(image, needle, i) {
            return Some(i);
        }
        i += 1;
    }
    None
}

/// Writes `t` over the bytes of `image` at offset `i`, leaving every
/// other byte as it was.
fn overwrite(image: &mut Vec<u8>, i: usize, t: &Vec<u8>)
    requires
        i + t@.len() <= old(image)@.len(),
    ensures
        final(image)@ == spec_splice(old(image)@, i as int, t@),
{
    let ilen = image.len();
    let n = t.len();
    let mut j: usize = 0;
    while j < n
        invariant
            ilen == old(image)@.len(),
            n == t@.len(),
            i + n <= ilen,
            0 <= j <= n,
            image@.len() == old(image)@.len(),
            forall|k: int| 0 <= k < j ==> image@[i + k] == t@[k],
            forall|k: int|
                0 <= k < old(image)@.len() && !(i <= k < i + j) ==> image@[k] == old(image)@[k],
        decreases n - j,
    {
        let v = t[j];
        image.set(i + j, v);
        j += 1;
    }
    proof {
        assert(image@ =~= spec_splice(old(image)@, i as int, t@));
    }
}

/// Patches the loaded image bytes toward the desired variant.
///
/// The two blobs must be interchangeable, so unequal lengths are a
/// format error and the image is left untouched.  Otherwise the first
/// occurrence of the undesired variant's bytes in the search window is
/// overwritten with the desired variant's bytes and `Ok(true)` is
/// returned; where only the desired bytes occur the image is already in
/// the desired state and `Ok(false)` is returned without mutation; and
/// where neither occurs the image is not of the expected format.
pub fn patch(
    image: &mut Vec<u8>,
    cdboot: &Vec<u8>,
    cdboot_noprompt: &Vec<u8>,
    want_prompt: bool,
) -> (r: Result<bool, PatchError>)
    ensures
        r == spec_patch_result(old(image)@, cdboot@, cdboot_noprompt@, want_prompt),
        final(image)@ == spec_patched_image(old(image)@, cdboot@, cdboot_noprompt@, want_prompt),
        cdboot@.len() != cdboot_noprompt@.len() ==> (r matches Err(e) && e is InvalidIsoFormat
            && final(image)@ == old(image)@),
        r !is Ok || r == Ok::<bool, PatchError>(false) ==> final(image)@ == old(image)@,
{
    if cdboot.len() != cdboot_noprompt.len() {
        return Err(PatchError::InvalidIsoFormat);
    }
    let (from, to) = if want_prompt {
        (cdboot_noprompt, cdboot)
    } else {
        (cdboot, cdboot_noprompt)
    };
    let bound = if image.len() < SEARCH_BOUND {
        image.len()
    } else {
        SEARCH_BOUND
    };
    proof {
        assert(bound as int == spec_window(image@.len() as int));
    }
    match find_first(image, from, bound) {
        Some(i) => {
            proof {
                assert(is_first_match(image@, from@, i as int));
                lemma_first_match_unique(image@, from@, i as int);
            }
            overwrite(image, i, to);
            Ok(true)
        },
        None => {
            match find_first(image, to, bound) {
                Some(i) => {
                    proof {
                        assert(is_match(image@, to@, i as int));
                    }
                    Ok(false)
                },
                None => Err(PatchError::InvalidIsoFormat),
            }
        },
    }
}

/// Any two lowest match offsets are the same offset.
proof fn lemma_first_match_unique(image: Seq<u8>, needle: Seq<u8>, i: int)
    requires
        is_first_match(image, needle, i),
    ensures
        first_match(image, needle) == i,
{
    assert(exists|k: int| is_first_match(image, needle, k));
    let w = first_match(image, needle);
    assert(is_first_match(image, needle, w));
    if w < i {
        assert(!is_match(image, needle, w));
    }
    if i < w {
        assert(!is_match(image, needle, i));
    }
}

/// Wherever `needle` occurs at all, it also occurs at a lowest offset.
proof fn lemma_exists_first_match(image: Seq<u8>, needle: Seq<u8>, i: int)
    requires
        is_match(image, needle, i),
    ensures
        exists|j: int| is_first_match(image, needle, j),
    decreases i,
{
    if forall|j: int| 0 <= j < i ==> !is_match(image, needle, j) {
        assert(is_first_match(image, needle, i));
    } else {
        let j = choose|j: int| 0 <= j < i && is_match(image, needle, j);
        lemma_exists_first_match(image, needle, j);
    }
}

/// Law: a patch that reported success is idempotent.  Provided no
/// further copy of the undesired bytes remains in the window of the
/// patched image, a second attempt toward the same variant reports the
/// image already in the desired state and leaves every byte unchanged.
pub proof fn lemma_patch_idempotent(
    image: Seq<u8>,
    cdboot: Seq<u8>,
    cdboot_noprompt: Seq<u8>,
    want_prompt: bool,
)
    requires
        cdboot.len() == cdboot_noprompt.len(),
        spec_patch_result(image, cdboot, cdboot_noprompt, want_prompt) == Ok::<
            bool,
            PatchError,
        >(true),
        !found(
            spec_patched_image(image, cdboot, cdboot_noprompt, want_prompt),
            spec_from(cdboot, cdboot_noprompt, want_prompt),
        ),
    ensures
        spec_patch_result(
            spec_patched_image(image, cdboot, cdboot_noprompt, want_prompt),
            cdboot,
            cdboot_noprompt,
            want_prompt,
        ) == Ok::<bool, PatchError>(false),
        spec_patched_image(
            spec_patched_image(image, cdboot, cdboot_noprompt, want_prompt),
            cdboot,
            cdboot_noprompt,
            want_prompt,
        ) == spec_patched_image(image, cdboot, cdboot_noprompt, want_prompt),
{
    let from = spec_from(cdboot, cdboot_noprompt, want_prompt);
    let to = spec_to(cdboot, cdboot_noprompt, want_prompt);
    let image1 = spec_patched_image(image, cdboot, cdboot_noprompt, want_prompt);
    let w = choose|i: int| is_match(image, from, i);
    lemma_exists_first_match(image, from, w);
    let i = first_match(image, from);
    assert(is_first_match(image, from, i));
    assert(image1 == spec_splice(image, i, to));
    assert(image1.len() == image.len());
    assert(image1.subrange(i, i + to.len()) =~= to);
    assert(is_match(image1, to, i));
    assert(found(image1, to));
}

/// Law: a round trip restores the image.  After a patch toward one
/// variant reported success, a patch toward the other variant reports
/// success and restores the image byte for byte — provided the first
/// occurrence of the just-installed bytes in the patched image is the
/// patched offset itself.
pub proof fn lemma_patch_round_trip(
    image: Seq<u8>,
    cdboot: Seq<u8>,
    cdboot_noprompt: Seq<u8>,
    want_prompt: bool,
)
    requires
        cdboot.len() == cdboot_noprompt.len(),
        spec_patch_result(image, cdboot, cdboot_noprompt, want_prompt) == Ok::<
            bool,
            PatchError,
        >(true),
        is_first_match(
            spec_patched_image(image, cdboot, cdboot_noprompt, want_prompt),
            spec_to(cdboot, cdboot_noprompt, want_prompt),
            first_match(image, spec_from(cdboot, cdboot_noprompt, want_prompt)),
        ),
    ensures
        spec_patch_result(
            spec_patched_image(image, cdboot, cdboot_noprompt, want_prompt),
            cdboot,
            cdboot_noprompt,
            !want_prompt,
        ) == Ok::<bool, PatchError>(true),
        spec_patched_image(
            spec_patched_image(image, cdboot, cdboot_noprompt, want_prompt),
            cdboot,
            cdboot_noprompt,
            !want_prompt,
        ) == image,
{
    let from = spec_from(cdboot, cdboot_noprompt, want_prompt);
    let to = spec_to(cdboot, cdboot_noprompt, want_prompt);
    let w = choose|i: int| is_match(image, from, i);
    lemma_exists_first_match(image, from, w);
    let i = first_match(image, from);
    assert(is_first_match(image, from, i));
    let image1 = spec_patched_image(image, cdboot, cdboot_noprompt, want_prompt);
    assert(image1 == spec_splice(image, i, to));
    assert(image1.len() == image.len());
    assert(found(image1, to));
    lemma_first_match_unique(image1, to, i);
    assert(spec_patched_image(image1, cdboot, cdboot_noprompt, !want_prompt) == spec_splice(
        image1,
        i,
        from,
    ));
    assert(image.subrange(i, i + from.len()) == from);
    assert(spec_splice(image1, i, from) =~= image);
}

/// Law: the search is bounded.  A needle whose every occurrence in the
/// whole image begins at or past `SEARCH_BOUND` is never found.
pub proof fn lemma_search_bounded(image: Seq<u8>, needle: Seq<u8>)
    requires
        needle.len() > 0,
        forall|i: int|
            (0 <= i && i + needle.len() <= image.len() && #[trigger] image.subrange(
                i,
                i + needle.len(),
            ) == needle) ==> i >= SEARCH_BOUND,
    ensures
        !found(image, needle),
{
    assert forall|i: int| !is_match(image, needle, i) by {
        if is_match(image, needle, i) {
            assert(i + needle.len() <= spec_window(image.len() as int));
            assert(spec_window(image.len() as int) <= image.len());
            assert(spec_window(image.len() as int) <= SEARCH_BOUND);
            assert(image.subrange(i, i + needle.len()) == needle);
            assert(i >= SEARCH_BOUND);
            assert(false);
        }
    }
}

/// Law: where neither variant's bytes begin within the search region,
/// a patch attempt reports a format error and changes nothing.
pub proof fn lemma_patch_out_of_region(
    image: Seq<u8>,
    cdboot: Seq<u8>,
    cdboot_noprompt: Seq<u8>,
    want_prompt: bool,
)
    requires
        cdboot.len() == cdboot_noprompt.len(),
        cdboot.len() > 0,
        forall|i: int|
            (0 <= i && i + cdboot.len() <= image.len() && #[trigger] image.subrange(
                i,
                i + cdboot.len(),
            ) == cdboot) ==> i >= SEARCH_BOUND,
        forall|i: int|
            (0 <= i && i + cdboot_noprompt.len() <= image.len() && #[trigger] image.subrange(
                i,
                i + cdboot_noprompt.len(),
            ) == cdboot_noprompt) ==> i >= SEARCH_BOUND,
    ensures
        spec_patch_result(image, cdboot, cdboot_noprompt, want_prompt) == Err::<
            bool,
            PatchError,
        >(PatchError::InvalidIsoFormat),
        spec_patched_image(image, cdboot, cdboot_noprompt, want_prompt) == image,
{
    lemma_search_bounded(image, cdboot);
    lemma_search_bounded(image, cdboot_noprompt);
}

} // verus!

