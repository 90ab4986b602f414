//! Properties that relate several results of the library.

use vstd::prelude::*;
use crate::app_update::{is_newer_spec, semver_triple_spec, triple_gt};
use crate::glow_names::{excluded_preview_spec, glow_primary_spec, PreviewIconAudience, tierless_lower};
use crate::icon_editor::{rename_spec, replace_spec, tierless_spec};
use crate::image_alpha::{alpha_at, cleared_spec, has_orthogonal_neighbor, isolated};
use crate::text::{has_prefix, has_suffix, trim};
use crate::glow_alpha::{dilate_at, dilated_spec, disk_spec};
use crate::data_url::{b64_char, base64_spec, first_comma, payload_spec, png_data_url_spec};
use crate::ink_finish::{closed_cores_spec, px};
use crate::merge_sheet::{frame_order, merge_done, merged_sheet, planned_slots, slot_views, MergedSheet};
use crate::merger::{overlap, slot};
use crate::plist_tree::{shape_of, PlistShape};
use crate::outline_aa::{
    lemma_falloff_keeps_occupancy, lifted_fringe_spec, refined_outline_spec, same_occupancy,
};

verus! {

/// No version is newer than itself.
pub proof fn law_no_version_is_newer_than_itself(v: Seq<char>)
    ensures
        !is_newer_spec(v, v),
{
}

/// Of two versions that both read as `major.minor.patch`, at most one is
/// newer than the other.
pub proof fn law_newer_is_asymmetric(a: Seq<char>, b: Seq<char>)
    requires
        semver_triple_spec(a) is Some,
        semver_triple_spec(b) is Some,
    ensures
        !(is_newer_spec(a, b) && is_newer_spec(b, a)),
{
}

/// Newer is transitive among versions that read as `major.minor.patch`.
pub proof fn law_newer_is_transitive(a: Seq<char>, b: Seq<char>, c: Seq<char>)
    requires
        semver_triple_spec(a) is Some,
        semver_triple_spec(b) is Some,
        semver_triple_spec(c) is Some,
        is_newer_spec(a, b),
        is_newer_spec(b, c),
    ensures
        is_newer_spec(a, c),
{
}

/// The glow frame of a primary frame leads back to it:
/// `{p}_glow_001.png` resolves to `{p}_001.png`.
pub proof fn law_glow_frame_resolves_to_its_primary(prefix: Seq<char>)
    ensures
        glow_primary_spec(prefix + "_glow_001.png"@) == Some(prefix + "_001.png"@),
{
    reveal_strlit("_glow_001.png");
    let name = prefix + "_glow_001.png"@;
    assert(name.subrange(name.len() - 13, name.len() as int) =~= "_glow_001.png"@);
    assert(name.subrange(0, name.len() - 13) =~= prefix);
}

/// Whatever the Glow Maker preview skips, the particle silhouette skips too.
pub proof fn law_silhouette_skips_what_glow_preview_skips(stem: Seq<char>)
    requires
        excluded_preview_spec(stem, PreviewIconAudience::GlowMaker),
    ensures
        excluded_preview_spec(stem, PreviewIconAudience::ParticleSilhouette),
{
}

/// Adding the `-uhd` tier to a stem and stripping the tier gives the stem
/// back.
pub proof fn law_strip_uhd_tier(stem: Seq<char>)
    ensures
        tierless_spec(stem + "-uhd"@) == stem,
{
    reveal_strlit("-uhd");
    let s = stem + "-uhd"@;
    assert(s.subrange(s.len() - 4, s.len() as int) =~= "-uhd"@);
    assert(s.subrange(0, s.len() - 4) =~= stem);
}

/// Adding the `-hd` tier to a stem and stripping the tier gives the stem
/// back, unless the stem ends in `-u` (then it reads as `-uhd`).
pub proof fn law_strip_hd_tier(stem: Seq<char>)
    requires
        !has_suffix(stem + "-hd"@, "-uhd"@),
    ensures
        tierless_spec(stem + "-hd"@) == stem,
{
    reveal_strlit("-hd");
    let s = stem + "-hd"@;
    assert(s.subrange(s.len() - 3, s.len() as int) =~= "-hd"@);
    assert(s.subrange(0, s.len() - 3) =~= stem);
}

/// Renaming a sheet to its own name changes no text.
pub proof fn law_rename_to_same_name_changes_nothing(text: Seq<char>, stem: Seq<char>, sprite: Seq<char>)
    ensures
        rename_spec(text, stem, stem, sprite, sprite) == text,
{
}

/// Replacing a pattern that does not occur changes nothing.
pub proof fn law_replace_absent_pattern(s: Seq<char>, from: Seq<char>, to: Seq<char>)
    requires
        from.len() > 0,
        forall|i: int| 0 <= i <= s.len() ==> !has_prefix(#[trigger] s.subrange(i, s.len() as int), from),
    ensures
        replace_spec(s, from, to) == s,
    decreases s.len(),
{
    if s.len() > 0 {
        assert(s.subrange(0, s.len() as int) =~= s);
        let t = s.drop_first();
        assert forall|i: int| 0 <= i <= t.len() implies !has_prefix(#[trigger] t.subrange(i, t.len() as int), from) by {
            assert(t.subrange(i, t.len() as int) =~= s.subrange(i + 1, s.len() as int));
        }
        law_replace_absent_pattern(t, from, to);
        assert(seq![s[0]] + t =~= s);
    }
}

proof fn lemma_mod_prev(p: int, w: int)
    requires
        w >= 1,
        p >= 0,
        p % w > 0,
    ensures
        (p - 1) % w == p % w - 1,
        p >= 1,
{
    vstd::arithmetic::div_mod::lemma_fundamental_div_mod(p, w);
    vstd::arithmetic::div_mod::lemma_mod_pos_bound(p, w);
    assert(w * (p / w) == (p / w) * w) by (nonlinear_arith);
    if p == 0 {
        vstd::arithmetic::div_mod::lemma_small_mod(0, w as nat);
    }
    vstd::arithmetic::div_mod::lemma_fundamental_div_mod_converse(p - 1, w, p / w, p % w - 1);
}

proof fn lemma_mod_next(p: int, w: int)
    requires
        w >= 1,
        p >= 0,
        p % w + 1 < w,
    ensures
        (p + 1) % w == p % w + 1,
{
    vstd::arithmetic::div_mod::lemma_fundamental_div_mod(p, w);
    vstd::arithmetic::div_mod::lemma_mod_pos_bound(p, w);
    assert(w * (p / w) == (p / w) * w) by (nonlinear_arith);
    vstd::arithmetic::div_mod::lemma_fundamental_div_mod_converse(p + 1, w, p / w, p % w + 1);
}

proof fn lemma_right_in_grid(p: int, w: int, h: int)
    requires
        0 <= p < w * h,
        w >= 1,
        p % w + 1 < w,
    ensures
        p + 1 < w * h,
{
    vstd::arithmetic::div_mod::lemma_fundamental_div_mod(p, w);
    let q = p / w;
    let r = p % w;
    vstd::arithmetic::div_mod::lemma_mod_pos_bound(p, w);
    assert(q < h) by (nonlinear_arith)
        requires
            p == w * q + r,
            0 <= r,
            p < w * h,
            w >= 1,
    ;
    assert(p + 1 < w * h) by (nonlinear_arith)
        requires
            p == w * q + r,
            r + 1 < w,
            q < h,
            w >= 1,
            p >= 0,
            r >= 0,
    ;
}

proof fn lemma_cleared_alpha(d: Seq<u8>, w: int, n: int, p: int)
    requires
        d.len() == 4 * n,
        0 <= p < n,
    ensures
        alpha_at(cleared_spec(d, w, n), p) == if isolated(d, w, n, p) { 0u8 } else { alpha_at(d, p) },
{
    assert((4 * p + 3) / 4 == p);
}

/// Clearing isolated pixels twice clears nothing more than once: a pixel that
/// survives keeps an occupied orthogonal neighbour, which survives too.
pub proof fn law_clearing_isolated_pixels_is_idempotent(d: Seq<u8>, w: int, h: int)
    requires
        w >= 1,
        h >= 0,
        d.len() == 4 * (w * h),
    ensures
        cleared_spec(cleared_spec(d, w, w * h), w, w * h) == cleared_spec(d, w, w * h),
{
    let n = w * h;
    let c = cleared_spec(d, w, n);
    assert forall|p: int| 0 <= p < n implies !#[trigger] isolated(c, w, n, p) by {
        lemma_cleared_alpha(d, w, n, p);
        if alpha_at(c, p) > 0 {
            assert(!isolated(d, w, n, p));
            assert(has_orthogonal_neighbor(d, w, n, p));
            vstd::arithmetic::div_mod::lemma_mod_pos_bound(p, w);
            if p % w > 0 && alpha_at(d, p - 1) > 0 {
                lemma_mod_prev(p, w);
                lemma_cleared_alpha(d, w, n, p - 1);
                assert(has_orthogonal_neighbor(d, w, n, p - 1));
            } else if p % w + 1 < w && alpha_at(d, p + 1) > 0 {
                lemma_mod_next(p, w);
                lemma_right_in_grid(p, w, h);
                lemma_cleared_alpha(d, w, n, p + 1);
                assert(has_orthogonal_neighbor(d, w, n, p + 1));
            } else if p >= w && alpha_at(d, p - w) > 0 {
                lemma_cleared_alpha(d, w, n, p - w);
                assert(has_orthogonal_neighbor(d, w, n, p - w));
            } else {
                assert(p + w < n && alpha_at(d, p + w) > 0);
                lemma_cleared_alpha(d, w, n, p + w);
                assert(has_orthogonal_neighbor(d, w, n, p + w));
            }
        }
    }
    assert forall|k: int| 0 <= k < c.len() implies #[trigger] cleared_spec(c, w, n)[k] == c[k] by {
        assert(0 <= k / 4 < n);
        assert(!isolated(c, w, n, k / 4));
    }
    assert(cleared_spec(c, w, n) =~= c);
}


proof fn lemma_b64_char(v: int, w: int)
    requires
        0 <= v < 64,
        0 <= w < 64,
    ensures
        b64_char(v) != '=',
        b64_char(v) != ',',
        b64_char(v) == b64_char(w) ==> v == w,
{
}

proof fn lemma_group(x0: int, x1: int, x2: int, y0: int, y1: int, y2: int)
    requires
        0 <= x0 < 256,
        0 <= x1 < 256,
        0 <= x2 < 256,
        0 <= y0 < 256,
        0 <= y1 < 256,
        0 <= y2 < 256,
        x0 / 4 == y0 / 4,
        (x0 % 4) * 16 + x1 / 16 == (y0 % 4) * 16 + y1 / 16,
        (x1 % 16) * 4 + x2 / 64 == (y1 % 16) * 4 + y2 / 64,
        x2 % 64 == y2 % 64,
    ensures
        x0 == y0,
        x1 == y1,
        x2 == y2,
{
}

proof fn lemma_group_two(x0: int, x1: int, y0: int, y1: int)
    requires
        0 <= x0 < 256,
        0 <= x1 < 256,
        0 <= y0 < 256,
        0 <= y1 < 256,
        x0 / 4 == y0 / 4,
        (x0 % 4) * 16 + x1 / 16 == (y0 % 4) * 16 + y1 / 16,
        (x1 % 16) * 4 == (y1 % 16) * 4,
    ensures
        x0 == y0,
        x1 == y1,
{
}

/// Base64 gives different bytes different texts: the encoding can be read
/// back.
pub proof fn law_base64_is_one_to_one(b: Seq<u8>, c: Seq<u8>)
    requires
        base64_spec(b) == base64_spec(c),
    ensures
        b == c,
    decreases b.len(),
{
    let eb = base64_spec(b);
    let ec = base64_spec(c);
    if b.len() == 0 || c.len() == 0 {
        assert(eb.len() == 0 || ec.len() == 0);
        assert(b.len() == 0 && c.len() == 0);
        assert(b =~= c);
        return;
    }
    let x0 = b[0] as int;
    let y0 = c[0] as int;
    lemma_b64_char(x0 / 4, y0 / 4);
    assert(eb[0] == b64_char(x0 / 4) && ec[0] == b64_char(y0 / 4));
    if b.len() == 1 || c.len() == 1 || b.len() == 2 || c.len() == 2 {
        // The padding tells the short groups apart.
        let x1: int = if b.len() >= 2 { b[1] as int } else { 0 };
        let y1: int = if c.len() >= 2 { c[1] as int } else { 0 };
        let x2: int = if b.len() >= 3 { b[2] as int } else { 0 };
        let y2: int = if c.len() >= 3 { c[2] as int } else { 0 };
        lemma_b64_char((x0 % 4) * 16 + x1 / 16, (y0 % 4) * 16 + y1 / 16);
        lemma_b64_char((x1 % 16) * 4 + x2 / 64, (y1 % 16) * 4 + y2 / 64);
        lemma_b64_char((x1 % 16) * 4, (y1 % 16) * 4);
        lemma_b64_char(x2 % 64, y2 % 64);
        lemma_b64_char((x0 % 4) * 16, (y0 % 4) * 16);
        lemma_b64_char((x0 % 4) * 16 + x1 / 16, (y0 % 4) * 16);
        lemma_b64_char((x0 % 4) * 16, (y0 % 4) * 16 + y1 / 16);
        lemma_b64_char((x1 % 16) * 4, (y1 % 16) * 4 + y2 / 64);
        lemma_b64_char((x1 % 16) * 4 + x2 / 64, (y1 % 16) * 4);
        assert(b.len() == c.len());
        if b.len() == 1 {
            assert(x0 == y0);
            assert(b =~= c);
        } else if b.len() == 2 {
            lemma_group_two(x0, x1, y0, y1);
            assert(b =~= c);
        }
        return;
    }
    let x1 = b[1] as int;
    let y1 = c[1] as int;
    let x2 = b[2] as int;
    let y2 = c[2] as int;
    lemma_b64_char((x0 % 4) * 16 + x1 / 16, (y0 % 4) * 16 + y1 / 16);
    lemma_b64_char((x1 % 16) * 4 + x2 / 64, (y1 % 16) * 4 + y2 / 64);
    lemma_b64_char(x2 % 64, y2 % 64);
    assert(eb[1] == b64_char((x0 % 4) * 16 + x1 / 16));
    assert(ec[1] == b64_char((y0 % 4) * 16 + y1 / 16));
    assert(eb[2] == b64_char((x1 % 16) * 4 + x2 / 64));
    assert(ec[2] == b64_char((y1 % 16) * 4 + y2 / 64));
    assert(eb[3] == b64_char(x2 % 64));
    assert(ec[3] == b64_char(y2 % 64));
    lemma_group(x0, x1, x2, y0, y1, y2);
    let tb = b.subrange(3, b.len() as int);
    let tc = c.subrange(3, c.len() as int);
    assert(eb.subrange(4, eb.len() as int) =~= base64_spec(tb));
    assert(ec.subrange(4, ec.len() as int) =~= base64_spec(tc));
    law_base64_is_one_to_one(tb, tc);
    assert(b =~= seq![b[0], b[1], b[2]] + tb);
    assert(c =~= seq![c[0], c[1], c[2]] + tc);
}

proof fn lemma_no_comma_in_base64(b: Seq<u8>)
    ensures
        forall|i: int| 0 <= i < base64_spec(b).len() ==> base64_spec(b)[i] != ',',
    decreases b.len(),
{
    let e = base64_spec(b);
    if b.len() == 0 {
        return;
    }
    let x0 = b[0] as int;
    let x1: int = if b.len() >= 2 { b[1] as int } else { 0 };
    let x2: int = if b.len() >= 3 { b[2] as int } else { 0 };
    lemma_b64_char(x0 / 4, 0);
    lemma_b64_char((x0 % 4) * 16, 0);
    lemma_b64_char((x0 % 4) * 16 + x1 / 16, 0);
    lemma_b64_char((x1 % 16) * 4, 0);
    lemma_b64_char((x1 % 16) * 4 + x2 / 64, 0);
    lemma_b64_char(x2 % 64, 0);
    if b.len() >= 3 {
        let t = b.subrange(3, b.len() as int);
        lemma_no_comma_in_base64(t);
        assert forall|i: int| 0 <= i < e.len() implies e[i] != ',' by {
            if i >= 4 {
                assert(e[i] == base64_spec(t)[i - 4]);
            }
        }
    }
}

proof fn lemma_first_comma_after(p: Seq<char>, rest: Seq<char>)
    requires
        p.len() > 0,
        p.last() == ',',
        forall|i: int| 0 <= i < p.len() - 1 ==> p[i] != ',',
    ensures
        first_comma(p + rest) == p.len() - 1,
    decreases p.len(),
{
    if p.len() > 1 {
        lemma_first_comma_after(p.drop_first(), rest);
        assert((p + rest).drop_first() =~= p.drop_first() + rest);
    }
}

/// A PNG data URL reads back as the bytes it was made from: its payload is
/// the base64 text of the bytes, and the only bytes with that text are
/// those.
pub proof fn law_png_data_url_reads_back(bytes: Seq<u8>, read: Seq<u8>)
    ensures
        payload_spec(png_data_url_spec(bytes)) == Some(base64_spec(bytes)),
        base64_spec(read) == base64_spec(bytes) ==> read == bytes,
{
    reveal_strlit("data:image/png;base64,");
    let prefix = "data:image/png;base64,"@;
    let url = png_data_url_spec(bytes);
    lemma_first_comma_after(prefix, base64_spec(bytes));
    lemma_no_comma_in_base64(bytes);
    assert(url.subrange(prefix.len() as int, url.len() as int) =~= base64_spec(bytes));
    if base64_spec(read) == base64_spec(bytes) {
        law_base64_is_one_to_one(read, bytes);
    }
}


proof fn lemma_dilate_at_least(alpha: Seq<u8>, w: int, h: int, x: int, y: int, offs: Seq<(i32, i32)>)
    ensures
        dilate_at(alpha, w, h, x, y, offs) >= alpha[y * w + x],
    decreases offs.len(),
{
    if offs.len() > 0 {
        lemma_dilate_at_least(alpha, w, h, x, y, offs.drop_last());
    }
}

/// Dilation never lowers an alpha: the glow's outline always covers the
/// field it grew from.
pub proof fn law_dilation_keeps_every_alpha(alpha: Seq<u8>, w: int, h: int, radius: u32, i: int)
    requires
        w >= 1,
        w * h <= alpha.len(),
        0 <= i < w * h,
    ensures
        dilated_spec(alpha, w, h, radius)[i] >= alpha[i],
{
    if radius > 0 {
        vstd::arithmetic::div_mod::lemma_fundamental_div_mod(i, w);
        assert(w * (i / w) == (i / w) * w) by (nonlinear_arith);
        lemma_dilate_at_least(alpha, w, h, i % w, i / w, disk_spec(radius));
    }
}

/// The outline passes never add a pixel to the silhouette nor take one
/// away: a pixel is transparent after the boundary pass exactly when it was
/// before, given lifted alphas that are never zero for a visible pixel.
pub proof fn law_outline_pass_keeps_the_silhouette(
    d: Seq<u8>,
    w: int,
    h: int,
    occupancy: bool,
    boosted: Seq<u8>,
    p: int,
)
    requires
        0 <= w,
        0 <= h,
        d.len() == 4 * (w * h),
        boosted.len() == 256,
        forall|a: int| 0 < a < 256 ==> #[trigger] boosted[a] != 0,
        0 <= p < w * h,
    ensures
        (px(refined_outline_spec(d, w, h, occupancy, boosted), p)[3] == 0) == (px(d, p)[3] == 0),
{
    if !(w < 3 || h < 3) {
        let lifted = lifted_fringe_spec(d, w, h, occupancy, boosted);
        assert forall|q: int| 0 <= q < w * h implies (#[trigger] px(lifted, q)[3] == 0) == (px(d, q)[3] == 0) by {
            assert(4 * q + 3 < d.len());
            assert((4 * q + 3) / 4 == q);
            assert((4 * q + 3) % 4 == 3);
            assert(px(d, q)[3] != 0 ==> boosted[px(d, q)[3] as int] != 0);
        }
        lemma_falloff_keeps_occupancy(lifted, w, h, occupancy);
        let r = refined_outline_spec(d, w, h, occupancy, boosted);
        assert(same_occupancy(r, lifted, w * h));
        assert((px(r, p)[3] == 0) == (px(lifted, p)[3] == 0));
    }
}

/// Closing opaque ink cores never makes a transparent pixel visible: only
/// pixels that already are opaque ink change.
pub proof fn law_closing_cores_adds_no_pixel(d: Seq<u8>, p: int)
    requires
        0 <= p,
        4 * p + 3 < d.len(),
        px(d, p)[3] == 0,
    ensures
        px(closed_cores_spec(d), p) == px(d, p),
{
    let c = closed_cores_spec(d);
    assert((4 * p) / 4 == p && (4 * p + 1) / 4 == p && (4 * p + 2) / 4 == p && (4 * p + 3) / 4 == p);
    assert(c[4 * p] == d[4 * p]);
    assert(c[4 * p + 1] == d[4 * p + 1]);
    assert(c[4 * p + 2] == d[4 * p + 2]);
    assert(c[4 * p + 3] == d[4 * p + 3]);
}

/// A merged sheet places one slot for each frame the plan takes; each
/// placed sprite lies inside the atlas with a one-pixel margin on the top
/// and left and at least two pixels to the right and below (its seam and
/// the margin); no two slots overlap; and the list records the placements
/// and the atlas size.
pub proof fn law_merged_sheet_slots_fit(
    root: PlistShape,
    fs: Seq<(Seq<char>, PlistShape)>,
    sv: Seq<(Seq<char>, u32, u32)>,
    target_width: u32,
    m: MergedSheet,
)
    requires
        merge_done(root, fs, sv, target_width, m),
    ensures
        m.placements@.len() == planned_slots(fs, sv, frame_order(fs), frame_order(fs).len() as int).len(),
        forall|i: int| 0 <= i < m.placements@.len() ==> {
            let p = #[trigger] m.placements@[i];
            &&& p.x >= 1
            &&& p.y >= 1
            &&& p.x + p.width + 2 <= m.width
            &&& p.y + p.height + 2 <= m.height
        },
        forall|i: int, k: int|
            0 <= i < k < m.placements@.len() ==> !overlap(slot(#[trigger] m.placements@[i]), slot(#[trigger] m.placements@[k])),
        merged_sheet(root, m.placements@, m.width, m.height) == Some(shape_of(m.plist)),
{
    let order = frame_order(fs);
    let orig = choose|orig: Seq<crate::merger::PackPlacement>|
        #[trigger] slot_views(orig) == planned_slots(fs, sv, order, order.len() as int)
        && (forall|t: int| 0 <= t < orig.len() ==> #[trigger] orig[t].x == 0 && orig[t].y == 0)
        && crate::merger::packed_as(orig, m.placements@, target_width, (m.width, m.height));
    assert(slot_views(orig).len() == orig.len());
    let fin = m.placements@;
    assert forall|i: int| 0 <= i < fin.len() implies {
        let p = #[trigger] fin[i];
        &&& p.x >= 1
        &&& p.y >= 1
        &&& p.x + p.width + 2 <= m.width
        &&& p.y + p.height + 2 <= m.height
    } by {
        assert(fin.len() > 0);
    }
}

} // verus!
