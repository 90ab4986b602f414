//! Icon frame names: the stem of an icon, its primary frame, its glow frame,
//! and which icons the previews skip.

use vstd::prelude::*;
use crate::contracts::GlowMakerOptions;
use crate::text::{
    all_digits, chars_of, concat_chars, concat_str, contains_chars, contains_seq, copy_range,
    ends_with_chars, ends_with_str, find_chars, has_prefix, has_suffix, is_digit, lower,
    lower_chars, occurs_at, starts_with_str, string_from_chars,
};

verus! {

/// A frame name without a `.png` (or `.PNG`) extension.
pub open spec fn strip_png_spec(name: Seq<char>) -> Seq<char> {
    if has_suffix(name, ".png"@) || has_suffix(name, ".PNG"@) {
        name.subrange(0, name.len() - 4)
    } else {
        name
    }
}

/// A frame name without a `.png` (or `.PNG`) extension.
pub fn strip_png_extension(name: &[char]) -> (r: Vec<char>)
    ensures
        r@ == strip_png_spec(name@),
{
    proof {
        reveal_strlit(".png");
        reveal_strlit(".PNG");
    }
    if ends_with_str(name, ".png") || ends_with_str(name, ".PNG") {
        copy_range(name, 0, name.len() - 4)
    } else {
        copy_range(name, 0, name.len())
    }
}

/// A frame key for comparisons: without `.png` and in lower case.
pub fn normalize_frame_key(name: &str) -> (r: String)
    ensures
        r@ == lower(strip_png_spec(name@)),
{
    let v = chars_of(name);
    let b = strip_png_extension(v.as_slice());
    let l = lower_chars(b.as_slice());
    string_from_chars(l.as_slice())
}

/// Index of the last `c`, or `-1`.
pub open spec fn last_index_of(s: Seq<char>, c: char) -> int
    decreases s.len(),
{
    if s.len() == 0 {
        -1
    } else if s.last() == c {
        s.len() - 1
    } else {
        last_index_of(s.drop_last(), c)
    }
}

/// The icon stem (`{type}_{number}`) of a frame name: the name without
/// `.png` and without a `_extra_001`, `_glow_001`, `_3_001` or `_2_001`
/// suffix (any case); or, for a plain `_001` frame, the part before `_001`
/// when what follows its last `_` is a non-empty run of digits.
pub open spec fn icon_stem_spec(name: Seq<char>) -> Option<Seq<char>> {
    let base = strip_png_spec(name);
    let low = lower(base);
    if has_suffix(low, "_extra_001"@) {
        Some(base.subrange(0, base.len() - 10))
    } else if has_suffix(low, "_glow_001"@) {
        Some(base.subrange(0, base.len() - 9))
    } else if has_suffix(low, "_3_001"@) {
        Some(base.subrange(0, base.len() - 6))
    } else if has_suffix(low, "_2_001"@) {
        Some(base.subrange(0, base.len() - 6))
    } else if has_suffix(low, "_001"@) {
        if !has_suffix(base, "_001"@) {
            None
        } else {
            let before = base.subrange(0, base.len() - 4);
            let u = last_index_of(before, '_');
            if u < 0 {
                None
            } else {
                let number = before.subrange(u + 1, before.len() as int);
                if number.len() > 0 && all_digits(number) {
                    Some(before)
                } else {
                    None
                }
            }
        }
    } else {
        None
    }
}

/// Index of the last `c`.
pub fn last_index_of_exec(s: &[char], c: char) -> (r: Option<usize>)
    ensures
        match r {
            Some(i) => i as int == last_index_of(s@, c) && i < s.len(),
            None => last_index_of(s@, c) == -1,
        },
{
    let mut i: usize = s.len();
    proof {
        assert(s@.subrange(0, s@.len() as int) =~= s@);
    }
    while i > 0
        invariant
            i <= s.len(),
            last_index_of(s@, c) == last_index_of(s@.subrange(0, i as int), c),
        decreases i,
    {
        proof {
            assert(s@.subrange(0, i as int).drop_last() =~= s@.subrange(0, i - 1));
        }
        if s[i - 1] == c {
            return Some(i - 1);
        }
        i = i - 1;
    }
    None
}

/// Whether every character is an ASCII digit.
pub fn all_digits_exec(s: &[char]) -> (r: bool)
    ensures
        r == all_digits(s@),
{
    let mut i: usize = 0;
    while i < s.len()
        invariant
            i <= s.len(),
            forall|k: int| 0 <= k < i ==> is_digit(#[trigger] s@[k]),
        decreases s.len() - i,
    {
        if !('0' <= s[i] && s[i] <= '9') {
            return false;
        }
        i = i + 1;
    }
    true
}

/// The icon stem of a frame name (`player_12_001.png` → `player_12`).
pub fn icon_stem_from_frame_name(name: &str) -> (r: Option<String>)
    ensures
        match r {
            Some(s) => icon_stem_spec(name@) == Some(s@),
            None => icon_stem_spec(name@) is None,
        },
{
    let v = chars_of(name);
    let base = strip_png_extension(v.as_slice());
    let low = lower_chars(base.as_slice());
    proof {
        reveal_strlit("_extra_001");
        reveal_strlit("_glow_001");
        reveal_strlit("_3_001");
        reveal_strlit("_2_001");
        reveal_strlit("_001");
    }
    if ends_with_str(low.as_slice(), "_extra_001") {
        return Some(string_from_chars(copy_range(base.as_slice(), 0, base.len() - 10).as_slice()));
    }
    if ends_with_str(low.as_slice(), "_glow_001") {
        return Some(string_from_chars(copy_range(base.as_slice(), 0, base.len() - 9).as_slice()));
    }
    if ends_with_str(low.as_slice(), "_3_001") {
        return Some(string_from_chars(copy_range(base.as_slice(), 0, base.len() - 6).as_slice()));
    }
    if ends_with_str(low.as_slice(), "_2_001") {
        return Some(string_from_chars(copy_range(base.as_slice(), 0, base.len() - 6).as_slice()));
    }
    if ends_with_str(low.as_slice(), "_001") {
        if !ends_with_str(base.as_slice(), "_001") {
            return None;
        }
        let before = copy_range(base.as_slice(), 0, base.len() - 4);
        let u = match last_index_of_exec(before.as_slice(), '_') {
            Some(u) => u,
            None => return None,
        };
        let number = copy_range(before.as_slice(), u + 1, before.len());
        if number.len() > 0 && all_digits_exec(number.as_slice()) {
            return Some(string_from_chars(before.as_slice()));
        }
        return None;
    }
    None
}

/// A primary icon frame (`{kind}_{id}_001.png`): no `_glow`, not a secondary,
/// third or extra layer, and an icon stem can be taken from it.
pub open spec fn icon_primary_spec(name: Seq<char>) -> bool {
    let low = lower(name);
    &&& !contains_seq(low, "_glow"@)
    &&& !(has_suffix(low, "_2_001.png"@) || has_suffix(low, "_3_001.png"@) || has_suffix(
        low,
        "_extra_001.png"@,
    ) || has_suffix(low, "_2_001"@) || has_suffix(low, "_3_001"@) || has_suffix(
        low,
        "_extra_001"@,
    ))
    &&& icon_stem_spec(name) is Some
}

/// Whether a frame is a primary icon frame.
pub fn is_icon_primary_frame(frame_name: &str) -> (r: bool)
    ensures
        r == icon_primary_spec(frame_name@),
{
    let v = chars_of(frame_name);
    let low = lower_chars(v.as_slice());
    if crate::text::contains_str(low.as_slice(), "_glow") {
        return false;
    }
    if ends_with_str(low.as_slice(), "_2_001.png") || ends_with_str(low.as_slice(), "_3_001.png")
        || ends_with_str(low.as_slice(), "_extra_001.png") || ends_with_str(
        low.as_slice(),
        "_2_001",
    ) || ends_with_str(low.as_slice(), "_3_001") || ends_with_str(low.as_slice(), "_extra_001") {
        return false;
    }
    icon_stem_from_frame_name(frame_name).is_some()
}

/// Which preview takes the random icon.
#[derive(Debug, Clone, Copy, PartialEq, Eq, Structural)]
pub enum PreviewIconAudience {
    /// The Glow Maker preview.
    GlowMaker,
    /// The particle editor's silhouette.
    ParticleSilhouette,
    /// The particle editor's ship-drag silhouette.
    ParticleShip,
}

/// A stem in lower case without a `-uhd` (else `-hd`) suffix.
pub open spec fn tierless_lower(stem: Seq<char>) -> Seq<char> {
    let low = lower(stem);
    if has_suffix(low, "-uhd"@) {
        low.subrange(0, low.len() - 4)
    } else if has_suffix(low, "-hd"@) {
        low.subrange(0, low.len() - 3)
    } else {
        low
    }
}

/// Icons a preview skips: UFOs (`bird_`, `ufo_`), robots and spiders for all
/// but the ship preview; the silhouette also skips waves (`dart_`) and
/// swings; the ship preview keeps only ships.
pub open spec fn excluded_preview_spec(stem: Seq<char>, audience: PreviewIconAudience) -> bool {
    let base = tierless_lower(stem);
    let shared = has_prefix(base, "bird_"@) || has_prefix(base, "ufo_"@) || has_prefix(
        base,
        "robot_"@,
    ) || has_prefix(base, "spider_"@);
    match audience {
        PreviewIconAudience::GlowMaker => shared,
        PreviewIconAudience::ParticleSilhouette => shared || has_prefix(base, "dart_"@)
            || has_prefix(base, "swing_"@),
        PreviewIconAudience::ParticleShip => !has_prefix(base, "ship_"@),
    }
}

/// Whether a preview skips the icon sheet with this stem.
pub fn is_excluded_preview_icon_stem(stem: &str, audience: PreviewIconAudience) -> (r: bool)
    ensures
        r == excluded_preview_spec(stem@, audience),
{
    let v = chars_of(stem);
    let low = lower_chars(v.as_slice());
    proof {
        reveal_strlit("-uhd");
        reveal_strlit("-hd");
    }
    let base = if ends_with_str(low.as_slice(), "-uhd") {
        copy_range(low.as_slice(), 0, low.len() - 4)
    } else if ends_with_str(low.as_slice(), "-hd") {
        copy_range(low.as_slice(), 0, low.len() - 3)
    } else {
        copy_range(low.as_slice(), 0, low.len())
    };
    proof {
        assert(low@.subrange(0, low@.len() as int) =~= low@);
        assert(base@ == tierless_lower(stem@));
    }
    let b = base.as_slice();
    let shared = starts_with_str(b, "bird_") || starts_with_str(b, "ufo_") || starts_with_str(
        b,
        "robot_",
    ) || starts_with_str(b, "spider_");
    match audience {
        PreviewIconAudience::GlowMaker => shared,
        PreviewIconAudience::ParticleSilhouette => shared || starts_with_str(b, "dart_")
            || starts_with_str(b, "swing_"),
        PreviewIconAudience::ParticleShip => !starts_with_str(b, "ship_"),
    }
}

/// A glow, secondary, third or extra layer frame.
pub open spec fn excluded_variant_spec(name: Seq<char>) -> bool {
    let low = lower(name);
    contains_seq(low, "_glow"@) || contains_seq(low, "_2_001"@) || contains_seq(low, "_3_001"@)
        || contains_seq(low, "_extra_001"@)
}

/// Whether a frame is a glow, secondary, third or extra layer.
pub fn is_preview_excluded_variant_frame(frame_name: &str) -> (r: bool)
    ensures
        r == excluded_variant_spec(frame_name@),
{
    let v = chars_of(frame_name);
    let low = lower_chars(v.as_slice());
    crate::text::contains_str(low.as_slice(), "_glow") || crate::text::contains_str(
        low.as_slice(),
        "_2_001",
    ) || crate::text::contains_str(low.as_slice(), "_3_001") || crate::text::contains_str(
        low.as_slice(),
        "_extra_001",
    )
}

/// Glow options with the thickness brought into `1..=128`.
pub fn clamp_glow_options(options: &GlowMakerOptions) -> (r: GlowMakerOptions)
    ensures
        r.thickness == if options.thickness < 1 {
            1
        } else if options.thickness > 128 {
            128
        } else {
            options.thickness
        },
        r.tolerance == options.tolerance,
        r.dimensions == options.dimensions,
        r.rainbow_glow == options.rainbow_glow,
        r.composite_layers == options.composite_layers,
{
    let t = if options.thickness < 1 {
        1
    } else if options.thickness > 128 {
        128
    } else {
        options.thickness
    };
    GlowMakerOptions {
        thickness: t,
        tolerance: options.tolerance,
        dimensions: options.dimensions,
        rainbow_glow: options.rainbow_glow,
        composite_layers: options.composite_layers,
    }
}

/// The primary frame of a glow frame: `{prefix}_glow_001.png` gives
/// `{prefix}_001.png`; otherwise the first `_glow_` loses its `_glow`; none
/// when there is no `_glow_`.
pub open spec fn glow_primary_spec(name: Seq<char>) -> Option<Seq<char>> {
    if has_suffix(name, "_glow_001.png"@) {
        Some(name.subrange(0, name.len() - 13) + "_001.png"@)
    } else if contains_seq(name, "_glow_"@) {
        let pos = choose|i: int| occurs_at(name, "_glow_"@, i) && forall|k: int| 0 <= k < i ==> !occurs_at(name, "_glow_"@, k);
        Some(name.subrange(0, pos) + name.subrange(pos + 5, name.len() as int))
    } else {
        None
    }
}

/// The primary frame of a glow frame.
pub fn glow_primary_name_for(glow_frame_name: &str) -> (r: Option<String>)
    ensures
        match r {
            Some(s) => glow_primary_spec(glow_frame_name@) == Some(s@),
            None => glow_primary_spec(glow_frame_name@) is None,
        },
{
    let v = chars_of(glow_frame_name);
    proof {
        reveal_strlit("_glow_001.png");
        reveal_strlit("_glow_");
    }
    if ends_with_str(v.as_slice(), "_glow_001.png") {
        let prefix = copy_range(v.as_slice(), 0, v.len() - 13);
        let out = concat_str(prefix.as_slice(), "_001.png");
        return Some(string_from_chars(out.as_slice()));
    }
    let pat = chars_of("_glow_");
    match find_chars(v.as_slice(), pat.as_slice()) {
        Some(pos) => {
            proof {
                assert(pat@.len() == 6);
                assert(contains_seq(v@, "_glow_"@));
                let p = choose|i: int| occurs_at(v@, "_glow_"@, i) && forall|k: int| 0 <= k < i ==> !occurs_at(v@, "_glow_"@, k);
                if p < pos {
                    assert(!occurs_at(v@, pat@, p));
                } else if p > pos {
                    assert(occurs_at(v@, pat@, pos as int));
                }
                assert(p == pos);
            }
            let a = copy_range(v.as_slice(), 0, pos);
            let b = copy_range(v.as_slice(), pos + 5, v.len());
            let out = concat_chars(a.as_slice(), b.as_slice());
            Some(string_from_chars(out.as_slice()))
        },
        None => None,
    }
}

/// An extra-layer frame: its file name (after the last `/` or `\`), in lower
/// case and without `.png`, ends with `_extra_001`.
pub open spec fn icon_extra_spec(name: Seq<char>) -> bool {
    let file = name.subrange(last_sep(name) + 1, name.len() as int);
    let low = lower(file);
    let stem = if has_suffix(low, ".png"@) {
        low.subrange(0, low.len() - 4)
    } else {
        low
    };
    has_suffix(stem, "_extra_001"@)
}

/// Index of the last `/` or `\`, or `-1`.
pub open spec fn last_sep(s: Seq<char>) -> int
    decreases s.len(),
{
    if s.len() == 0 {
        -1
    } else if s.last() == '/' || s.last() == '\\' {
        s.len() - 1
    } else {
        last_sep(s.drop_last())
    }
}

/// Whether a frame is an extra-layer frame.
pub fn is_icon_extra_frame(frame_name: &str) -> (r: bool)
    ensures
        r == icon_extra_spec(frame_name@),
{
    let v = chars_of(frame_name);
    let mut i: usize = v.len();
    proof {
        assert(v@.subrange(0, v@.len() as int) =~= v@);
    }
    while i > 0 && v[i - 1] != '/' && v[i - 1] != '\\'
        invariant
            i <= v.len(),
            v@ == frame_name@,
            last_sep(v@) == last_sep(v@.subrange(0, i as int)),
        decreases i,
    {
        proof {
            assert(v@.subrange(0, i as int).drop_last() =~= v@.subrange(0, i - 1));
        }
        i = i - 1;
    }
    proof {
        if i > 0 {
            assert(v@.subrange(0, i as int).last() == v@[i - 1]);
            assert(last_sep(v@.subrange(0, i as int)) == i - 1);
        } else {
            assert(v@.subrange(0, 0) =~= Seq::<char>::empty());
        }
        assert(last_sep(v@) + 1 == i);
    }
    let file = copy_range(v.as_slice(), i, v.len());
    let low = lower_chars(file.as_slice());
    proof {
        reveal_strlit(".png");
    }
    let stem = if ends_with_str(low.as_slice(), ".png") {
        copy_range(low.as_slice(), 0, low.len() - 4)
    } else {
        copy_range(low.as_slice(), 0, low.len())
    };
    proof {
        assert(low@.subrange(0, low@.len() as int) =~= low@);
    }
    ends_with_str(stem.as_slice(), "_extra_001")
}

} // verus!
