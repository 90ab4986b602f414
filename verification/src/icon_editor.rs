//! The icon editor's sheet rules: frame keys, sheet names, rotations, crop
//! rectangles and the text forms written to `.plist` files.

use vstd::prelude::*;
use crate::errors::AppError;
use crate::facts::PathFacts;
use crate::order::strs;
use crate::game_files::j;
use crate::image_alpha::{alpha_at, RgbaBuffer};
use crate::paths::{file_name_of, file_name_spec, file_stem_of, join_path, parent_of, parent_spec, stem_spec};
use crate::sheet_lookup::{is_safe_path_segment, safe_segment, with_suffix};
use crate::text::{
    chars_of, concat_chars, concat_str, copy_range, decimal_chars, decimal_chars_exec,
    ends_with_str, first_index_of, first_index_of_exec, has_prefix, has_suffix, lower,
    lower_chars, starts_with_chars, string_from_chars, trim, trim_chars, trim_str, upper_char,
};

verus! {

/// A width and a height.
#[derive(Debug, Clone, Copy, PartialEq, Eq)]
pub struct IconEditorSize {
    pub width: u32,
    pub height: u32,
}

/// A rectangle of an atlas.
#[derive(Debug, Clone, PartialEq, Eq)]
pub struct IconEditorRect {
    pub x: u32,
    pub y: u32,
    pub width: u32,
    pub height: u32,
}

/// Where a renamed sheet's files now are.
#[derive(Debug, Clone, PartialEq, Eq)]
pub struct IconEditorRenameResult {
    pub plist_path: String,
    pub atlas_path: String,
}

/// One frame extracted as a PNG data URL.
#[derive(Debug, Clone, PartialEq, Eq)]
pub struct IconEditorExtractedFrame {
    pub name: String,
    pub png_data_url: String,
}

/// A quarter turn.
#[derive(Debug, Clone, Copy, PartialEq, Eq)]
pub enum IconEditorRotateDirection {
    Clockwise,
    CounterClockwise,
}

/// The turn a text names (trimmed, any case): `clockwise`/`cw`, or
/// `counterclockwise`/`counter-clockwise`/`counter_clockwise`/`ccw`.
pub open spec fn rotate_direction_spec(value: Seq<char>) -> Option<IconEditorRotateDirection> {
    let v = lower(trim(value));
    if v == "clockwise"@ || v == "cw"@ {
        Some(IconEditorRotateDirection::Clockwise)
    } else if v == "counterclockwise"@ || v == "counter-clockwise"@ || v == "counter_clockwise"@
        || v == "ccw"@ {
        Some(IconEditorRotateDirection::CounterClockwise)
    } else {
        None
    }
}

/// The turn a text names; any other text is a parse error naming it.
pub fn parse_rotate_direction(value: &str) -> (r: Result<IconEditorRotateDirection, AppError>)
    ensures
        match rotate_direction_spec(value@) {
            Some(d) => r == Ok::<IconEditorRotateDirection, AppError>(d),
            None => r matches Err(AppError::ParseError(m)) && m@ == "unsupported rotate direction `"@ + value@ + "`"@,
        },
{
    let t = trim_str(value);
    let l = lower_chars(t.as_slice());
    let s = string_from_chars(l.as_slice());
    let v = s.as_str();
    use_str_eq(v, value)
}

fn use_str_eq(v: &str, value: &str) -> (r: Result<IconEditorRotateDirection, AppError>)
    ensures
        match rotate_direction_spec(value@) {
            Some(d) => v@ == lower(trim(value@)) ==> r == Ok::<IconEditorRotateDirection, AppError>(d),
            None => v@ == lower(trim(value@)) ==> (r matches Err(AppError::ParseError(m)) && m@ == "unsupported rotate direction `"@ + value@ + "`"@),
        },
{
    if crate::facts::str_eq(v, "clockwise") || crate::facts::str_eq(v, "cw") {
        Ok(IconEditorRotateDirection::Clockwise)
    } else if crate::facts::str_eq(v, "counterclockwise") || crate::facts::str_eq(v, "counter-clockwise")
        || crate::facts::str_eq(v, "counter_clockwise") || crate::facts::str_eq(v, "ccw") {
        Ok(IconEditorRotateDirection::CounterClockwise)
    } else {
        let a = chars_of("unsupported rotate direction `");
        let b = concat_str(a.as_slice(), value);
        let c = concat_str(b.as_slice(), "`");
        Err(AppError::ParseError(string_from_chars(c.as_slice())))
    }
}

/// Width and height exchanged.
pub fn swap_icon_editor_size(size: IconEditorSize) -> (r: IconEditorSize)
    ensures
        r.width == size.height,
        r.height == size.width,
{
    IconEditorSize { width: size.height, height: size.width }
}

/// The atlas rectangle a frame occupies: the corner of its texture rectangle
/// and its sprite size (each at least 1), exchanged when the frame is stored
/// rotated.
pub fn atlas_crop_rect_for_frame(
    texture_rect: &IconEditorRect,
    sprite_size: IconEditorSize,
    texture_rotated: bool,
) -> (r: IconEditorRect)
    ensures
        r.x == texture_rect.x,
        r.y == texture_rect.y,
        ({
            let cw: u32 = if sprite_size.width > 1 { sprite_size.width } else { 1 };
            let ch: u32 = if sprite_size.height > 1 { sprite_size.height } else { 1 };
            if texture_rotated {
                r.width == ch && r.height == cw
            } else {
                r.width == cw && r.height == ch
            }
        }),
{
    let crop_width = if sprite_size.width > 1 { sprite_size.width } else { 1 };
    let crop_height = if sprite_size.height > 1 { sprite_size.height } else { 1 };
    let (width, height) = if texture_rotated {
        (crop_height, crop_width)
    } else {
        (crop_width, crop_height)
    };
    IconEditorRect { x: texture_rect.x, y: texture_rect.y, width, height }
}

/// The `{{x,y},{w,h}}` text of a texture rectangle.
pub open spec fn texture_rect_text(r: IconEditorRect) -> Seq<char> {
    "{{"@ + decimal_chars(r.x as nat) + ","@ + decimal_chars(r.y as nat) + "},{"@ + decimal_chars(
        r.width as nat,
    ) + ","@ + decimal_chars(r.height as nat) + "}}"@
}

/// The `{{x,y},{w,h}}` text of a texture rectangle.
pub fn format_texture_rect(rect: &IconEditorRect) -> (r: String)
    ensures
        r@ == texture_rect_text(*rect),
{
    let a = chars_of("{{");
    let b = concat_chars(a.as_slice(), decimal_chars_exec(rect.x as u64).as_slice());
    let c = concat_str(b.as_slice(), ",");
    let d = concat_chars(c.as_slice(), decimal_chars_exec(rect.y as u64).as_slice());
    let e = concat_str(d.as_slice(), "},{");
    let f = concat_chars(e.as_slice(), decimal_chars_exec(rect.width as u64).as_slice());
    let g = concat_str(f.as_slice(), ",");
    let h = concat_chars(g.as_slice(), decimal_chars_exec(rect.height as u64).as_slice());
    let i = concat_str(h.as_slice(), "}}");
    string_from_chars(i.as_slice())
}

/// A stem without its `-uhd` (else `-hd`) tier suffix.
pub open spec fn tierless_spec(stem: Seq<char>) -> Seq<char> {
    if has_suffix(stem, "-uhd"@) {
        stem.subrange(0, stem.len() - 4)
    } else if has_suffix(stem, "-hd"@) {
        stem.subrange(0, stem.len() - 3)
    } else {
        stem
    }
}

/// A stem without its graphics tier suffix.
pub fn strip_graphics_tier_suffix(stem: &str) -> (r: String)
    ensures
        r@ == tierless_spec(stem@),
{
    let v = chars_of(stem);
    proof {
        reveal_strlit("-uhd");
        reveal_strlit("-hd");
    }
    if ends_with_str(v.as_slice(), "-uhd") {
        return string_from_chars(copy_range(v.as_slice(), 0, v.len() - 4).as_slice());
    }
    if ends_with_str(v.as_slice(), "-hd") {
        return string_from_chars(copy_range(v.as_slice(), 0, v.len() - 3).as_slice());
    }
    string_from_chars(v.as_slice())
}

/// `str::replace`: every occurrence of `from`, left to right and without
/// overlap, replaced by `to`.
pub open spec fn replace_spec(s: Seq<char>, from: Seq<char>, to: Seq<char>) -> Seq<char>
    recommends
        from.len() > 0,
    decreases s.len(),
{
    if from.len() == 0 || s.len() == 0 {
        s
    } else if has_prefix(s, from) {
        to + replace_spec(s.subrange(from.len() as int, s.len() as int), from, to)
    } else {
        seq![s[0]] + replace_spec(s.drop_first(), from, to)
    }
}

/// `str::replace` with a non-empty pattern.
pub fn replace_all(s: &[char], from: &[char], to: &[char]) -> (r: Vec<char>)
    requires
        from.len() > 0,
    ensures
        r@ == replace_spec(s@, from@, to@),
{
    let mut out: Vec<char> = Vec::new();
    let mut i: usize = 0;
    proof {
        assert(s@.subrange(0, s@.len() as int) =~= s@);
    }
    while i < s.len()
        invariant
            i <= s.len(),
            from.len() > 0,
            out@ + replace_spec(s@.subrange(i as int, s@.len() as int), from@, to@) == replace_spec(s@, from@, to@),
        decreases s.len() - i,
    {
        let ghost rest = s@.subrange(i as int, s@.len() as int);
        let ghost before = out@;
        if crate::text::occurs_at_exec(s, from, i) {
            proof {
                assert(has_prefix(rest, from@)) by {
                    assert(rest.subrange(0, from@.len() as int) =~= s@.subrange(i as int, i + from@.len()));
                }
                assert(rest.subrange(from@.len() as int, rest.len() as int) =~= s@.subrange(i + from@.len(), s@.len() as int));
            }
            let mut k: usize = 0;
            while k < to.len()
                invariant
                    k <= to.len(),
                    out@ == before + to@.subrange(0, k as int),
                decreases to.len() - k,
            {
                out.push(to[k]);
                proof {
                    assert(to@.subrange(0, k + 1) =~= to@.subrange(0, k as int).push(to@[k as int]));
                }
                k = k + 1;
            }
            proof {
                assert(to@.subrange(0, to@.len() as int) =~= to@);
                assert(before + (to@ + replace_spec(s@.subrange(i + from@.len(), s@.len() as int), from@, to@)) =~= out@ + replace_spec(s@.subrange(i + from@.len(), s@.len() as int), from@, to@));
            }
            i = i + from.len();
        } else {
            proof {
                assert(!has_prefix(rest, from@)) by {
                    if has_prefix(rest, from@) {
                        assert(rest.subrange(0, from@.len() as int) =~= s@.subrange(i as int, i + from@.len()));
                    }
                }
                assert(rest.drop_first() =~= s@.subrange(i + 1, s@.len() as int));
                assert(rest[0] == s@[i as int]);
            }
            out.push(s[i]);
            proof {
                assert(before + (seq![s@[i as int]] + replace_spec(s@.subrange(i + 1, s@.len() as int), from@, to@)) =~= out@ + replace_spec(s@.subrange(i + 1, s@.len() as int), from@, to@));
            }
            i = i + 1;
        }
    }
    proof {
        assert(s@.subrange(s@.len() as int, s@.len() as int) =~= Seq::<char>::empty());
        assert(out@ + Seq::<char>::empty() =~= out@);
    }
    out
}

/// A sheet rename applied to a text: the old stem replaced by the new one
/// (when they differ and the old one is not empty), then the old sprite stem
/// by the new sprite stem (likewise).
pub open spec fn rename_spec(
    text: Seq<char>,
    old_stem: Seq<char>,
    new_stem: Seq<char>,
    old_sprite: Seq<char>,
    new_sprite: Seq<char>,
) -> Seq<char> {
    let a = if old_stem != new_stem && old_stem.len() > 0 {
        replace_spec(text, old_stem, new_stem)
    } else {
        text
    };
    if old_sprite != new_sprite && old_sprite.len() > 0 {
        replace_spec(a, old_sprite, new_sprite)
    } else {
        a
    }
}

/// A sheet rename applied to a text.
pub fn apply_rename_replacements(
    text: &str,
    old_stem: &str,
    new_stem: &str,
    old_sprite_stem: &str,
    new_sprite_stem: &str,
) -> (r: String)
    ensures
        r@ == rename_spec(text@, old_stem@, new_stem@, old_sprite_stem@, new_sprite_stem@),
{
    let t = chars_of(text);
    let os = chars_of(old_stem);
    let ns = chars_of(new_stem);
    let osp = chars_of(old_sprite_stem);
    let nsp = chars_of(new_sprite_stem);
    let a = if !crate::facts::str_eq(old_stem, new_stem) && os.len() > 0 {
        replace_all(t.as_slice(), os.as_slice(), ns.as_slice())
    } else {
        t
    };
    let b = if !crate::facts::str_eq(old_sprite_stem, new_sprite_stem) && osp.len() > 0 {
        replace_all(a.as_slice(), osp.as_slice(), nsp.as_slice())
    } else {
        a
    };
    string_from_chars(b.as_slice())
}

/// A frame key's stem: trimmed, without `.png`.
pub open spec fn frame_key_stem_spec(name: Seq<char>) -> Seq<char> {
    let t = trim(name);
    if has_suffix(t, ".png"@) {
        t.subrange(0, t.len() - 4)
    } else {
        t
    }
}

/// A frame key's stem.
pub fn frame_key_stem(name: &str) -> (r: String)
    ensures
        r@ == frame_key_stem_spec(name@),
{
    let t = trim_str(name);
    proof {
        reveal_strlit(".png");
    }
    if ends_with_str(t.as_slice(), ".png") {
        string_from_chars(copy_range(t.as_slice(), 0, t.len() - 4).as_slice())
    } else {
        string_from_chars(t.as_slice())
    }
}

/// A frame key ending in `.png`: trimmed, with `.png` added when missing;
/// empty for a blank name.
pub open spec fn png_frame_key_spec(name: Seq<char>) -> Seq<char> {
    let t = trim(name);
    if t.len() == 0 {
        Seq::empty()
    } else if has_suffix(t, ".png"@) {
        t
    } else {
        t + ".png"@
    }
}

/// A frame key ending in `.png`.
pub fn ensure_png_frame_key(name: &str) -> (r: String)
    ensures
        r@ == png_frame_key_spec(name@),
{
    let t = trim_str(name);
    if t.len() == 0 {
        return String::new();
    }
    if ends_with_str(t.as_slice(), ".png") {
        string_from_chars(t.as_slice())
    } else {
        string_from_chars(concat_str(t.as_slice(), ".png").as_slice())
    }
}

/// A frame key the editor may remove: its stem ends in `_extra_001` in any
/// case.
pub open spec fn removable_extra_spec(name: Seq<char>) -> bool {
    let t = trim(name);
    let stem = if has_suffix(t, ".png"@) {
        t.subrange(0, t.len() - 4)
    } else {
        t
    };
    has_suffix(lower(stem), "_extra_001"@)
}

/// Whether the editor may remove a frame key.
pub fn is_removable_extra_frame_key(name: &str) -> (r: bool)
    ensures
        r == removable_extra_spec(name@),
{
    let t = trim_str(name);
    proof {
        reveal_strlit(".png");
    }
    let stem = if ends_with_str(t.as_slice(), ".png") {
        copy_range(t.as_slice(), 0, t.len() - 4)
    } else {
        copy_range(t.as_slice(), 0, t.len())
    };
    proof {
        assert(t@.subrange(0, t@.len() as int) =~= t@);
    }
    let low = lower_chars(stem.as_slice());
    ends_with_str(low.as_slice(), "_extra_001")
}

/// An ASCII upper-cased text.
pub open spec fn upper(s: Seq<char>) -> Seq<char> {
    s.map_values(|c: char| upper_char(c))
}

/// Windows device names a sheet may not take.
pub open spec fn reserved_device_name(s: Seq<char>) -> bool {
    s == "CON"@ || s == "PRN"@ || s == "AUX"@ || s == "NUL"@ || s == "COM1"@ || s == "COM2"@ || s
        == "COM3"@ || s == "COM4"@ || s == "COM5"@ || s == "COM6"@ || s == "COM7"@ || s == "COM8"@
        || s == "COM9"@ || s == "LPT1"@ || s == "LPT2"@ || s == "LPT3"@ || s == "LPT4"@ || s
        == "LPT5"@ || s == "LPT6"@ || s == "LPT7"@ || s == "LPT8"@ || s == "LPT9"@
}

/// The check of a new sheet name: not blank; no `/`, `\` or NUL; one plain
/// path segment; and, before its first `.`, not a Windows device name.
pub open spec fn sheet_stem_error(new_stem: Seq<char>) -> Option<Seq<char>> {
    let t = trim(new_stem);
    let before_dot = if first_index_of(t, '.') < t.len() {
        t.subrange(0, first_index_of(t, '.') as int)
    } else {
        t
    };
    if t.len() == 0 {
        Some("new sheet name cannot be empty"@)
    } else if t.contains('/') || t.contains('\\') || t.contains('\0') {
        Some("new sheet name cannot contain separators"@)
    } else if !safe_segment(t) {
        Some("new sheet name is not a valid single path segment"@)
    } else if reserved_device_name(upper(before_dot)) {
        Some("new sheet name cannot use a reserved system name"@)
    } else {
        None
    }
}

fn contains_char(v: &[char], c: char) -> (r: bool)
    ensures
        r == v@.contains(c),
{
    let mut i: usize = 0;
    while i < v.len()
        invariant
            i <= v.len(),
            forall|k: int| 0 <= k < i ==> v@[k] != c,
        decreases v.len() - i,
    {
        if v[i] == c {
            proof {
                assert(v@[i as int] == c);
            }
            return true;
        }
        i = i + 1;
    }
    false
}

fn upper_chars(v: &[char]) -> (r: Vec<char>)
    ensures
        r@ == upper(v@),
{
    let mut out: Vec<char> = Vec::new();
    let mut i: usize = 0;
    while i < v.len()
        invariant
            i <= v.len(),
            out@ == upper(v@.subrange(0, i as int)),
        decreases v.len() - i,
    {
        out.push(crate::text::upper_char_exec(v[i]));
        proof {
            assert(upper(v@.subrange(0, i + 1)) =~= upper(v@.subrange(0, i as int)).push(upper_char(v@[i as int])));
        }
        i = i + 1;
    }
    proof {
        assert(v@.subrange(0, v@.len() as int) =~= v@);
    }
    out
}

fn is_reserved_device_name(s: &str) -> (r: bool)
    ensures
        r == reserved_device_name(s@),
{
    let names = [
        "CON", "PRN", "AUX", "NUL", "COM1", "COM2", "COM3", "COM4", "COM5", "COM6", "COM7",
        "COM8", "COM9", "LPT1", "LPT2", "LPT3", "LPT4", "LPT5", "LPT6", "LPT7", "LPT8", "LPT9",
    ];
    let mut i: usize = 0;
    while i < 22
        invariant
            i <= 22,
            names@ == seq![
                "CON", "PRN", "AUX", "NUL", "COM1", "COM2", "COM3", "COM4", "COM5", "COM6", "COM7",
                "COM8", "COM9", "LPT1", "LPT2", "LPT3", "LPT4", "LPT5", "LPT6", "LPT7", "LPT8", "LPT9",
            ],
            forall|k: int| 0 <= k < i ==> s@ != (#[trigger] names@[k])@,
        decreases 22 - i,
    {
        if crate::facts::str_eq(s, names[i]) {
            return true;
        }
        i = i + 1;
    }
    proof {
        assert(!reserved_device_name(s@)) by {
            assert(s@ != names@[0]@ && s@ != names@[1]@ && s@ != names@[2]@ && s@ != names@[3]@);
            assert(s@ != names@[4]@ && s@ != names@[5]@ && s@ != names@[6]@ && s@ != names@[7]@);
            assert(s@ != names@[8]@ && s@ != names@[9]@ && s@ != names@[10]@ && s@ != names@[11]@);
            assert(s@ != names@[12]@ && s@ != names@[13]@ && s@ != names@[14]@ && s@ != names@[15]@);
            assert(s@ != names@[16]@ && s@ != names@[17]@ && s@ != names@[18]@ && s@ != names@[19]@);
            assert(s@ != names@[20]@ && s@ != names@[21]@);
        }
    }
    false
}

/// Checks a new sheet name.
pub fn validate_sheet_stem(new_stem: &str) -> (r: Result<(), AppError>)
    ensures
        match sheet_stem_error(new_stem@) {
            None => r is Ok,
            Some(m) => r matches Err(AppError::InvalidOperation(x)) && x@ == m,
        },
{
    let t = trim_str(new_stem);
    if t.len() == 0 {
        return Err(AppError::InvalidOperation("new sheet name cannot be empty"));
    }
    if contains_char(t.as_slice(), '/') || contains_char(t.as_slice(), '\\') || contains_char(
        t.as_slice(),
        '\0',
    ) {
        return Err(AppError::InvalidOperation("new sheet name cannot contain separators"));
    }
    let ts = string_from_chars(t.as_slice());
    if !is_safe_path_segment(ts.as_str()) {
        return Err(AppError::InvalidOperation("new sheet name is not a valid single path segment"));
    }
    let dot = first_index_of_exec(t.as_slice(), '.');
    let before = copy_range(t.as_slice(), 0, dot);
    proof {
        assert(t@.subrange(0, t@.len() as int) =~= t@);
    }
    let up = upper_chars(before.as_slice());
    let us = string_from_chars(up.as_slice());
    if is_reserved_device_name(us.as_str()) {
        return Err(AppError::InvalidOperation("new sheet name cannot use a reserved system name"));
    }
    Ok(())
}

/// The stem of a sheet's `.plist`.
pub fn sheet_stem_from_plist_path(plist_path: &str) -> (r: Result<String, AppError>)
    ensures
        match file_name_spec(plist_path@) {
            Some(n) => r matches Ok(s) && s@ == stem_spec(n),
            None => r matches Err(AppError::InvalidPath(m)) && m@ == "plist file name is invalid"@,
        },
{
    match file_name_of(plist_path) {
        Some(n) => Ok(file_stem_of(n.as_str())),
        None => Err(AppError::InvalidPath("plist file name is invalid")),
    }
}

/// Where a sheet's files go when it is renamed to `stem`: the `.plist`
/// beside the old one, the `.png` beside the old atlas.
pub open spec fn renamed_paths_spec(plist: Seq<char>, atlas: Seq<char>, stem: Seq<char>) -> Option<(Seq<char>, Seq<char>)> {
    match (parent_spec(plist), parent_spec(atlas)) {
        (Some(pp), Some(ap)) => Some((j(pp, stem + ".plist"@), j(ap, stem + ".png"@))),
        _ => None,
    }
}

/// Renaming a sheet: checks the new name and the old `.plist` name, and
/// gives the paths the files move to. `atlas_path` is the sheet's atlas as
/// its `.plist` names it.
pub fn icon_editor_rename_sheet(plist_path: &str, atlas_path: &str, new_stem: &str) -> (r: Result<
    IconEditorRenameResult,
    AppError,
>)
    ensures
        match sheet_stem_error(new_stem@) {
            Some(m) => r matches Err(AppError::InvalidOperation(x)) && x@ == m,
            None => if file_name_spec(plist_path@) is None {
                r matches Err(AppError::InvalidPath(x)) && x@ == "plist file name is invalid"@
            } else if parent_spec(plist_path@) is None {
                r matches Err(AppError::InvalidPath(x)) && x@ == "plist path has no parent directory"@
            } else if parent_spec(atlas_path@) is None {
                r matches Err(AppError::InvalidPath(x)) && x@ == "atlas path has no parent directory"@
            } else {
                r matches Ok(res) && renamed_paths_spec(plist_path@, atlas_path@, new_stem@) == Some((res.plist_path@, res.atlas_path@))
            },
        },
{
    match validate_sheet_stem(new_stem) {
        Ok(()) => {},
        Err(e) => return Err(e),
    }
    match sheet_stem_from_plist_path(plist_path) {
        Ok(_) => {},
        Err(e) => return Err(e),
    }
    let pp = match parent_of(plist_path) {
        Some(p) => p,
        None => return Err(AppError::InvalidPath("plist path has no parent directory")),
    };
    let ap = match parent_of(atlas_path) {
        Some(p) => p,
        None => return Err(AppError::InvalidPath("atlas path has no parent directory")),
    };
    let pn = with_suffix(new_stem, ".plist");
    let an = with_suffix(new_stem, ".png");
    Ok(
        IconEditorRenameResult {
            plist_path: join_path(pp.as_str(), pn.as_str()),
            atlas_path: join_path(ap.as_str(), an.as_str()),
        },
    )
}

/// The name checks of Copy Sheet, made before the sheet is read: the new
/// name is not blank and has no separator, the `.plist` has a file name, and
/// its stem differs from the new name. Gives the old stem.
pub fn icon_editor_copy_name_check(plist_path: &str, new_stem: &str) -> (r: Result<String, AppError>)
    ensures
        trim(new_stem@).len() == 0 ==> (r matches Err(AppError::InvalidOperation(m)) && m@
            == "new sheet name cannot be empty"@),
        trim(new_stem@).len() != 0 && (new_stem@.contains('/') || new_stem@.contains('\\')) ==> (r matches Err(
            AppError::InvalidOperation(m),
        ) && m@ == "new sheet name cannot contain separators"@),
        trim(new_stem@).len() != 0 && !new_stem@.contains('/') && !new_stem@.contains('\\') ==> match file_name_spec(plist_path@) {
            None => r matches Err(AppError::InvalidPath(m)) && m@ == "plist file name is invalid"@,
            Some(n) => if stem_spec(n) == new_stem@ {
                r matches Err(AppError::InvalidOperation(m)) && m@
                    == "copy name must differ from the current sheet name"@
            } else {
                r matches Ok(old) && old@ == stem_spec(n)
            },
        },
{
    let t = trim_str(new_stem);
    if t.len() == 0 {
        return Err(AppError::InvalidOperation("new sheet name cannot be empty"));
    }
    let v = chars_of(new_stem);
    if contains_char(v.as_slice(), '/') || contains_char(v.as_slice(), '\\') {
        return Err(AppError::InvalidOperation("new sheet name cannot contain separators"));
    }
    let old = match sheet_stem_from_plist_path(plist_path) {
        Ok(o) => o,
        Err(e) => return Err(e),
    };
    if crate::facts::str_eq(old.as_str(), new_stem) {
        return Err(AppError::InvalidOperation("copy name must differ from the current sheet name"));
    }
    Ok(old)
}

/// `Path::with_file_name`: the last segment replaced by `name` when the path
/// has a file name, else `name` joined on.
pub open spec fn with_file_name_spec(p: Seq<char>, name: Seq<char>) -> Seq<char> {
    if file_name_spec(p) is Some {
        j(parent_spec(p)->0, name)
    } else {
        j(p, name)
    }
}

fn with_file_name(p: &str, name: &str) -> (r: String)
    ensures
        r@ == with_file_name_spec(p@, name@),
{
    if file_name_of(p).is_some() {
        match parent_of(p) {
            Some(parent) => join_path(parent.as_str(), name),
            None => join_path(p, name),
        }
    } else {
        join_path(p, name)
    }
}

/// Where Copy Sheet writes: `{new}.plist` beside the `.plist`, `{new}.png`
/// in place of the atlas's file name. Refused when the `.plist` has no
/// parent folder or when either target already exists.
pub fn icon_editor_copy_targets(
    plist_path: &str,
    atlas_path: &str,
    new_stem: &str,
    facts: &PathFacts,
) -> (r: Result<IconEditorRenameResult, AppError>)
    ensures
        match parent_spec(plist_path@) {
            None => r matches Err(AppError::InvalidPath(m)) && m@ == "plist path has no parent directory"@,
            Some(pp) => {
                let plist = j(pp, new_stem@ + ".plist"@);
                let atlas = with_file_name_spec(atlas_path@, new_stem@ + ".png"@);
                if facts.has_path(plist) {
                    r matches Err(AppError::InvalidOperation(m)) && m@
                        == "target plist name already exists in destination directory"@
                } else if facts.has_path(atlas) {
                    r matches Err(AppError::InvalidOperation(m)) && m@
                        == "target png name already exists in destination directory"@
                } else {
                    r matches Ok(res) && res.plist_path@ == plist && res.atlas_path@ == atlas
                }
            },
        },
{
    let parent = match parent_of(plist_path) {
        Some(p) => p,
        None => return Err(AppError::InvalidPath("plist path has no parent directory")),
    };
    let plist_name = with_suffix(new_stem, ".plist");
    let png_name = with_suffix(new_stem, ".png");
    let copied_plist = join_path(parent.as_str(), plist_name.as_str());
    let copied_atlas = with_file_name(atlas_path, png_name.as_str());
    if facts.path_exists(copied_plist.as_str()) {
        return Err(AppError::InvalidOperation("target plist name already exists in destination directory"));
    }
    if facts.path_exists(copied_atlas.as_str()) {
        return Err(AppError::InvalidOperation("target png name already exists in destination directory"));
    }
    Ok(IconEditorRenameResult { plist_path: copied_plist, atlas_path: copied_atlas })
}

/// The texture file name a copied sheet's metadata names:
/// `icons/{atlas file name}` (`icons/icons.png` without one).
pub fn copied_metadata_texture_name(copied_atlas_path: &str) -> (r: String)
    ensures
        r@ == "icons/"@ + match file_name_spec(copied_atlas_path@) {
            Some(n) => n,
            None => "icons.png"@,
        },
{
    let name = match file_name_of(copied_atlas_path) {
        Some(n) => n,
        None => "icons.png".to_string(),
    };
    let a = chars_of("icons/");
    let b = concat_str(a.as_slice(), name.as_str());
    string_from_chars(b.as_slice())
}

/// The frame keys a save or copy removes: each requested name trimmed, kept
/// when it is not empty and names a removable extra frame (a check that
/// trims too).
pub open spec fn removals_spec(requested: Seq<Seq<char>>) -> Seq<Seq<char>>
    decreases requested.len(),
{
    if requested.len() == 0 {
        Seq::empty()
    } else {
        let prev = removals_spec(requested.drop_last());
        let t = trim(requested.last());
        if t.len() > 0 && removable_extra_spec(requested.last()) {
            prev.push(t)
        } else {
            prev
        }
    }
}

/// The frame keys a save or copy removes.
pub fn frame_keys_to_remove(requested: &Vec<String>) -> (r: Vec<String>)
    ensures
        strs(r@) == removals_spec(strs(requested@)),
{
    let ghost req = strs(requested@);
    let mut out: Vec<String> = Vec::new();
    let mut i: usize = 0;
    proof {
        assert(req.subrange(0, 0) =~= Seq::<Seq<char>>::empty());
        assert(strs(out@) =~= Seq::<Seq<char>>::empty());
    }
    while i < requested.len()
        invariant
            i <= requested@.len(),
            req == strs(requested@),
            strs(out@) == removals_spec(req.subrange(0, i as int)),
        decreases requested@.len() - i,
    {
        proof {
            assert(req.subrange(0, i + 1).drop_last() =~= req.subrange(0, i as int));
            assert(req.subrange(0, i + 1).last() == requested@[i as int]@);
        }
        let t = trim_str(requested[i].as_str());
        let ts = string_from_chars(t.as_slice());
        if t.len() > 0 && is_removable_extra_frame_key(requested[i].as_str()) {
            out.push(ts);
            proof {
                assert(strs(out@) =~= removals_spec(req.subrange(0, i as int)).push(t@));
            }
        }
        i = i + 1;
    }
    proof {
        assert(req.subrange(0, req.len() as int) =~= req);
    }
    out
}

/// The transparent margins of an image.
#[derive(Debug, Clone, Copy, PartialEq, Eq)]
pub struct TrimInsets {
    pub left: u32,
    pub top: u32,
    pub right: u32,
    pub bottom: u32,
}

/// Pixel `(x, y)` of a `w`-wide image is occupied.
pub open spec fn occupied_at(d: Seq<u8>, w: int, x: int, y: int) -> bool {
    alpha_at(d, y * w + x) > 0
}

/// The margins around the occupied pixels: none for an empty canvas; all of
/// it but one pixel when nothing is occupied; else the distances from the
/// occupied bounding box to the edges.
pub open spec fn insets_spec(img: RgbaBuffer, r: TrimInsets) -> bool {
    let w = img.width as int;
    let h = img.height as int;
    let d = img.data@;
    if w == 0 || h == 0 {
        r == TrimInsets { left: 0, top: 0, right: 0, bottom: 0 }
    } else if !exists|x: int, y: int| 0 <= x < w && 0 <= y < h && #[trigger] occupied_at(d, w, x, y) {
        r == TrimInsets { left: 0, top: 0, right: (w - 1) as u32, bottom: (h - 1) as u32 }
    } else {
        &&& exists|x: int, y: int| 0 <= x < w && 0 <= y < h && #[trigger] occupied_at(d, w, x, y) && x == r.left
        &&& exists|x: int, y: int| 0 <= x < w && 0 <= y < h && #[trigger] occupied_at(d, w, x, y) && y == r.top
        &&& exists|x: int, y: int| 0 <= x < w && 0 <= y < h && #[trigger] occupied_at(d, w, x, y) && x == w - 1 - r.right
        &&& exists|x: int, y: int| 0 <= x < w && 0 <= y < h && #[trigger] occupied_at(d, w, x, y) && y == h - 1 - r.bottom
        &&& forall|x: int, y: int| 0 <= x < w && 0 <= y < h && #[trigger] occupied_at(d, w, x, y) ==> r.left <= x <= w - 1 - r.right && r.top <= y <= h - 1 - r.bottom
    }
}

proof fn lemma_pixel_index(x: int, y: int, w: int, h: int)
    requires
        0 <= x < w,
        0 <= y < h,
    ensures
        0 <= y * w + x < w * h,
        y * w + w == (y + 1) * w,
{
    assert(0 <= y * w) by (nonlinear_arith)
        requires
            0 <= y,
            0 <= w,
    ;
    assert(y * w + x < w * h) by (nonlinear_arith)
        requires
            0 <= x < w,
            0 <= y < h,
    ;
    assert(y * w + w == (y + 1) * w) by (nonlinear_arith);
}

/// The transparent margins of an image.
pub fn trim_transparent_insets(image: &RgbaBuffer) -> (r: TrimInsets)
    requires
        image.wf(),
    ensures
        insets_spec(*image, r),
{
    let w = image.width;
    let h = image.height;
    if w == 0 || h == 0 {
        return TrimInsets { left: 0, top: 0, right: 0, bottom: 0 };
    }
    let ghost d = image.data@;
    let mut min_x = w;
    let mut min_y = h;
    let mut max_x: u32 = 0;
    let mut max_y: u32 = 0;
    let mut found = false;
    let mut y: u32 = 0;
    let mut idx: usize = 0;
    let len = image.data.len();
    while y < h
        invariant
            w == image.width,
            h == image.height,
            w > 0,
            d == image.data@,
            d.len() == w * h * 4,
            y <= h,
            idx as int == y * w,
            len == d.len(),
            !found ==> min_x == w && min_y == h && max_x == 0 && max_y == 0,
            found ==> min_x < w && min_y < h && max_x < w && max_y < h,
            found <==> exists|x: int, yy: int| 0 <= x < w && 0 <= yy < y && #[trigger] occupied_at(d, w as int, x, yy),
            found ==> exists|x: int, yy: int| 0 <= x < w && 0 <= yy < y && #[trigger] occupied_at(d, w as int, x, yy) && x == min_x,
            found ==> exists|x: int, yy: int| 0 <= x < w && 0 <= yy < y && #[trigger] occupied_at(d, w as int, x, yy) && yy == min_y,
            found ==> exists|x: int, yy: int| 0 <= x < w && 0 <= yy < y && #[trigger] occupied_at(d, w as int, x, yy) && x == max_x,
            found ==> exists|x: int, yy: int| 0 <= x < w && 0 <= yy < y && #[trigger] occupied_at(d, w as int, x, yy) && yy == max_y,
            forall|x: int, yy: int| 0 <= x < w && 0 <= yy < y && #[trigger] occupied_at(d, w as int, x, yy) ==> min_x <= x <= max_x && min_y <= yy <= max_y,
        decreases h - y,
    {
        let mut x: u32 = 0;
        while x < w
            invariant
                w == image.width,
                h == image.height,
                w > 0,
                d == image.data@,
                d.len() == w * h * 4,
                y < h,
                x <= w,
                idx as int == y * w + x,
                len == d.len(),
                !found ==> min_x == w && min_y == h && max_x == 0 && max_y == 0,
                found ==> min_x < w && min_y < h && max_x < w && max_y < h,
                found <==> (exists|xx: int, yy: int| 0 <= xx < w && 0 <= yy < y && #[trigger] occupied_at(d, w as int, xx, yy)) || (exists|xx: int| 0 <= xx < x && #[trigger] occupied_at(d, w as int, xx, y as int)),
                found ==> (exists|xx: int, yy: int| 0 <= xx < w && 0 <= yy <= y && #[trigger] occupied_at(d, w as int, xx, yy) && xx == min_x && (yy < y || xx < x)),
                found ==> (exists|xx: int, yy: int| 0 <= xx < w && 0 <= yy <= y && #[trigger] occupied_at(d, w as int, xx, yy) && yy == min_y && (yy < y || xx < x)),
                found ==> (exists|xx: int, yy: int| 0 <= xx < w && 0 <= yy <= y && #[trigger] occupied_at(d, w as int, xx, yy) && xx == max_x && (yy < y || xx < x)),
                found ==> (exists|xx: int, yy: int| 0 <= xx < w && 0 <= yy <= y && #[trigger] occupied_at(d, w as int, xx, yy) && yy == max_y && (yy < y || xx < x)),
                forall|xx: int, yy: int| 0 <= xx < w && 0 <= yy < y && #[trigger] occupied_at(d, w as int, xx, yy) ==> min_x <= xx <= max_x && min_y <= yy <= max_y,
                forall|xx: int| 0 <= xx < x && #[trigger] occupied_at(d, w as int, xx, y as int) ==> min_x <= xx <= max_x && min_y <= y <= max_y,
            decreases w - x,
        {
            proof {
                lemma_pixel_index(x as int, y as int, w as int, h as int);
                assert(4 * idx + 3 < len);
            }
            let a = image.data[4 * idx + 3];
            proof {
                assert(a == alpha_at(d, y * w + x));
            }
            if a != 0 {
                proof {
                    assert(occupied_at(d, w as int, x as int, y as int));
                }
                found = true;
                if x < min_x {
                    min_x = x;
                }
                if y < min_y {
                    min_y = y;
                }
                if x > max_x {
                    max_x = x;
                }
                if y > max_y {
                    max_y = y;
                }
            }
            x = x + 1;
            idx = idx + 1;
        }
        proof {
            lemma_pixel_index(0, y as int, w as int, h as int);
        }
        y = y + 1;
    }
    if !found {
        return TrimInsets { left: 0, top: 0, right: w - 1, bottom: h - 1 };
    }
    TrimInsets { left: min_x, top: min_y, right: w - (max_x + 1), bottom: h - (max_y + 1) }
}

} // verus!
