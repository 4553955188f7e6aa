//! Image files and IQDB: whether an image can be uploaded as it is, must be
//! re-encoded first or cannot be sent at all, and under which extension the
//! sorted file is saved.

use vstd::prelude::*;
use crate::files::name_extension;
use crate::models::{flag_value, AppConfig, ImageInfo};
use crate::numbers::{decimal, format_u64};
use crate::search::{replace_all, replace_exec};
use crate::text::{
    append_chars, append_str, is_literal, lowercase, lowercase_chars, owned, to_chars, to_string,
};

verus! {

/// IQDB's upload limit, in bytes (8 MiB).
pub const MAX_FILE_SIZE: u64 = 8388608;

/// IQDB's largest accepted width or height, in pixels.
pub const MAX_DIMENSION: u32 = 7500;

/// The format, in lower case, is one IQDB does not take (anything but JPEG,
/// PNG and GIF), so the image must be converted to JPEG first.
pub open spec fn is_conversion_format(lower: Seq<char>) -> bool {
    !(lower == "jpeg"@ || lower == "png"@ || lower == "gif"@)
}

/// The format, in lower case, is one a file can keep when it is saved as
/// IQDB received it.
pub open spec fn is_raw_format(lower: Seq<char>) -> bool {
    lower == "jpg"@ || lower == "jpeg"@ || lower == "png"@ || lower == "gif"@
}

/// Wider or higher than IQDB accepts.
pub open spec fn exceeds_dimensions(info: ImageInfo) -> bool {
    info.width > MAX_DIMENSION || info.height > MAX_DIMENSION
}

/// A file of `byte_len` bytes is heavier than IQDB accepts.
pub open spec fn exceeds_size(byte_len: u64) -> bool {
    byte_len > MAX_FILE_SIZE
}

/// How an image is sent to IQDB.
#[derive(Debug, Clone, Copy, PartialEq, Eq, Structural)]
pub enum PayloadPlan {
    /// The file's own bytes.
    Original,
    /// A JPEG re-encoding, first scaled down to fit the pixel limit when
    /// `resize` holds, then shrunk until it fits the size limit.
    Reencode { resize: bool },
}

/// Refusal for an image too large when resizing is switched off.
pub open spec fn resize_refused(width: u32, height: u32) -> Seq<char> {
    "Dimensions ("@ + decimal(width as nat) + "x"@ + decimal(height as nat)
        + ") exceed IQDB's 7500px limit, but image resizing is disabled."@
}

/// Refusal for a format that needs conversion when conversion is switched off.
pub open spec fn conversion_refused(format: Seq<char>) -> Seq<char> {
    "Format '"@ + format + "' requires conversion to JPEG for IQDB, but conversion is disabled."@
}

/// Refusal for an image too heavy when shrinking is switched off.
pub open spec fn shrink_refused() -> Seq<char> {
    "File exceeds IQDB's 8MB limit, and image shrinking is disabled."@
}

/// How an image goes to IQDB: as it is when it is within every limit;
/// otherwise re-encoded, unless the setting that the first broken limit
/// calls for (resizing, then conversion, then shrinking) is switched off.
pub open spec fn payload_plan(
    info: ImageInfo,
    byte_len: u64,
    allow_shrinking: bool,
    allow_resizing: bool,
    allow_conversion: bool,
) -> Result<PayloadPlan, Seq<char>> {
    let convert = is_conversion_format(lowercase(info.format@));
    let resize = exceeds_dimensions(info);
    let heavy = exceeds_size(byte_len);
    if !heavy && !convert && !resize {
        Ok(PayloadPlan::Original)
    } else if resize && !allow_resizing {
        Err(resize_refused(info.width, info.height))
    } else if convert && !allow_conversion {
        Err(conversion_refused(info.format@))
    } else if heavy && !allow_shrinking {
        Err(shrink_refused())
    } else {
        Ok(PayloadPlan::Reencode { resize })
    }
}

/// [`payload_plan`] under the settings `allowShrinking`, `allowResizing` and
/// `allowImageConversion`, each on when unset.
pub open spec fn configured_plan(info: ImageInfo, byte_len: u64, flags: Seq<(String, bool)>) -> Result<
    PayloadPlan,
    Seq<char>,
> {
    payload_plan(
        info,
        byte_len,
        flag_value(flags, "allowShrinking"@, true),
        flag_value(flags, "allowResizing"@, true),
        flag_value(flags, "allowImageConversion"@, true),
    )
}

/// With resizing, conversion and shrinking all allowed, no image is
/// refused, and the file's own bytes are sent exactly when it is within
/// every limit.
pub proof fn lemma_never_refused_when_allowed(info: ImageInfo, byte_len: u64)
    ensures
        payload_plan(info, byte_len, true, true, true) is Ok,
        (payload_plan(info, byte_len, true, true, true) == Ok::<PayloadPlan, Seq<char>>(
            PayloadPlan::Original,
        )) == (!exceeds_size(byte_len) && !is_conversion_format(lowercase(info.format@))
            && !exceeds_dimensions(info)),
{
}

/// Whatever the settings, an image breaking one of IQDB's limits is never
/// sent as it is: it is re-encoded or refused.
pub proof fn lemma_original_only_within_limits(
    info: ImageInfo,
    byte_len: u64,
    allow_shrinking: bool,
    allow_resizing: bool,
    allow_conversion: bool,
)
    ensures
        payload_plan(info, byte_len, allow_shrinking, allow_resizing, allow_conversion) == Ok::<
            PayloadPlan,
            Seq<char>,
        >(PayloadPlan::Original) ==> !exceeds_size(byte_len) && !exceeds_dimensions(info)
            && !is_conversion_format(lowercase(info.format@)),
{
}

/// IQDB's limits as the upload plan keeps them, whatever the settings: the
/// file's own bytes go only for a JPEG, PNG or GIF of at most 7500 by 7500
/// pixels and at most 8 MiB; an image wider or higher than 7500 pixels is
/// refused when resizing is switched off, and scaled down when everything is
/// allowed; a re-encoding
/// resizes exactly when a side exceeds 7500 pixels; and an image within
/// every limit always goes as it is.
pub proof fn lemma_payload_limits(
    info: ImageInfo,
    byte_len: u64,
    allow_shrinking: bool,
    allow_resizing: bool,
    allow_conversion: bool,
)
    ensures
        ({
            let plan = payload_plan(
                info,
                byte_len,
                allow_shrinking,
                allow_resizing,
                allow_conversion,
            );
            let f = lowercase(info.format@);
            let too_big = info.width > 7500 || info.height > 7500;
            let supported = f == "jpeg"@ || f == "png"@ || f == "gif"@;
            &&& plan == Ok::<PayloadPlan, Seq<char>>(PayloadPlan::Original) ==> info.width <= 7500
                && info.height <= 7500 && byte_len <= 8388608 && supported
            &&& too_big && allow_resizing && allow_conversion && allow_shrinking ==> plan == Ok::<
                PayloadPlan,
                Seq<char>,
            >(PayloadPlan::Reencode { resize: true })
            &&& too_big && !allow_resizing ==> plan is Err
            &&& plan matches Ok(PayloadPlan::Reencode { resize }) ==> resize == too_big
            &&& !too_big && byte_len <= 8388608 && supported ==> plan == Ok::<
                PayloadPlan,
                Seq<char>,
            >(PayloadPlan::Original)
        }),
{
}

fn conversion_format(format: &str) -> (b: bool)
    ensures
        b == is_conversion_format(lowercase(format@)),
{
    let l = lowercase_chars(format);
    !(is_literal(&l, "jpeg") || is_literal(&l, "png") || is_literal(&l, "gif"))
}

fn raw_format(format: &str) -> (b: bool)
    ensures
        b == is_raw_format(lowercase(format@)),
{
    let l = lowercase_chars(format);
    is_literal(&l, "jpg") || is_literal(&l, "jpeg") || is_literal(&l, "png") || is_literal(
        &l,
        "gif",
    )
}

fn exceeds_dimensions_exec(info: &ImageInfo) -> (b: bool)
    ensures
        b == exceeds_dimensions(*info),
{
    info.width > MAX_DIMENSION || info.height > MAX_DIMENSION
}



/// Decides how the image described by `info`, a file of `byte_len` bytes,
/// is sent to IQDB, under the user's settings; see [`configured_plan`].
pub fn plan_iqdb_payload(info: &ImageInfo, byte_len: u64, config: &AppConfig) -> (r: Result<
    PayloadPlan,
    String,
>)
    requires
        config.wf(),
    ensures
        match r {
            Ok(p) => configured_plan(*info, byte_len, config.flags@) == Ok::<PayloadPlan, Seq<char>>(p),
            Err(e) => configured_plan(*info, byte_len, config.flags@) == Err::<PayloadPlan, Seq<char>>(
                e@,
            ),
        },
{
    let allow_shrinking = config.flag("allowShrinking", true);
    let allow_resizing = config.flag("allowResizing", true);
    let allow_conversion = config.flag("allowImageConversion", true);
    let convert = conversion_format(info.format.as_str());
    let resize = exceeds_dimensions_exec(info);
    let heavy = byte_len > MAX_FILE_SIZE;
    if !heavy && !convert && !resize {
        Ok(PayloadPlan::Original)
    } else if resize && !allow_resizing {
        let mut m = owned("Dimensions (");
        append_chars(&mut m, &format_u64(info.width as u64));
        append_str(&mut m, "x");
        append_chars(&mut m, &format_u64(info.height as u64));
        append_str(&mut m, ") exceed IQDB's 7500px limit, but image resizing is disabled.");
        Err(m)
    } else if convert && !allow_conversion {
        let mut m = owned("Format '");
        append_str(&mut m, info.format.as_str());
        append_str(&mut m, "' requires conversion to JPEG for IQDB, but conversion is disabled.");
        Err(m)
    } else if heavy && !allow_shrinking {
        Err(owned("File exceeds IQDB's 8MB limit, and image shrinking is disabled."))
    } else {
        Ok(PayloadPlan::Reencode { resize })
    }
}

// ---- the saved file's extension ------------------------------------------

/// The extension of a file name as the sorter reads it: its own, or `jpg`
/// when it has none.
pub open spec fn own_extension(file_name: Seq<char>) -> Seq<char> {
    match name_extension(file_name) {
        Some(e) => e,
        None => "jpg"@,
    }
}

/// The extension a sorted file is saved under. When the re-encoded upload is
/// what gets saved (`apply_mods`) and the image was not a plain JPEG, PNG or
/// GIF within IQDB's limits, that upload is a JPEG, so the extension is `jpg`;
/// otherwise the file keeps its own.
pub open spec fn saved_extension_of(
    file_name: Seq<char>,
    info: ImageInfo,
    byte_len: u64,
    apply_mods: bool,
) -> Seq<char> {
    if apply_mods && (!is_raw_format(lowercase(info.format@)) || exceeds_dimensions(info)
        || exceeds_size(byte_len)) {
        "jpg"@
    } else {
        own_extension(file_name)
    }
}

/// The extension under which the image `info`, read from the file called
/// `file_name` of `byte_len` bytes, is saved; `apply_mods` is the setting
/// `applyModsToSaved`, off when unset.
pub fn saved_extension(file_name: &str, info: &ImageInfo, byte_len: u64, config: &AppConfig) -> (r:
    String)
    requires
        config.wf(),
    ensures
        r@ == saved_extension_of(
            file_name@,
            *info,
            byte_len,
            flag_value(config.flags@, "applyModsToSaved"@, false),
        ),
{
    let apply_mods = config.flag("applyModsToSaved", false);
    if apply_mods && (!raw_format(info.format.as_str()) || exceeds_dimensions_exec(info)
        || byte_len > MAX_FILE_SIZE) {
        return owned("jpg");
    }
    match crate::files::split_file_name(file_name).extension {
        Some(e) => e,
        None => owned("jpg"),
    }
}

/// Whenever an image goes to IQDB re-encoded and re-encoded uploads are what
/// gets saved, the saved file's extension is `jpg`, matching the JPEG bytes.
/// (A format named `jpg` is kept as it is; image headers name it `Jpeg`.)
pub proof fn lemma_reencoded_saves_as_jpg(
    file_name: Seq<char>,
    info: ImageInfo,
    byte_len: u64,
    flags: Seq<(String, bool)>,
)
    requires
        configured_plan(info, byte_len, flags) matches Ok(PayloadPlan::Reencode { .. }),
        lowercase(info.format@) != "jpg"@,
    ensures
        saved_extension_of(file_name, info, byte_len, true) == "jpg"@,
{
}

// ---- extension and content that disagree ---------------------------------

/// The file's extension and its detected format disagree. Both are compared
/// in lower case; `jpg` and `jpeg` name the format `jpeg`, `tif` and `tiff`
/// the format `tiff`, and a file without an extension disagrees with nothing.
pub open spec fn is_mismatch(ext: Seq<char>, detected: Seq<char>) -> bool {
    if ext == "jpg"@ || ext == "jpeg"@ {
        detected != "jpeg"@
    } else if ext == "tif"@ || ext == "tiff"@ {
        detected != "tiff"@
    } else if ext.len() == 0 {
        false
    } else {
        ext != detected
    }
}

/// The extension of a file name, in lower case; empty when it has none.
pub open spec fn lower_extension(file_name: Seq<char>) -> Seq<char> {
    lowercase(
        match name_extension(file_name) {
            Some(e) => e,
            None => ""@,
        },
    )
}

/// The warning given when a file's extension does not match its content.
pub open spec fn mismatch_message(shown_name: Seq<char>, ext: Seq<char>, format: Seq<char>) -> Seq<
    char,
> {
    "Filetype mismatch on '"@ + shown_name + "': extension is ."@ + ext
        + ", but the file is actually a "@ + format
}

/// Compares the extension of `file_name` with the format detected in the
/// file described by `info`, and returns the warning to give when they
/// disagree (see [`is_mismatch`]).
pub fn mismatch_warning(file_name: &str, info: &ImageInfo) -> (r: Option<String>)
    ensures
        is_mismatch(lower_extension(file_name@), lowercase(info.format@)) ==> (r matches Some(m)
            && m@ == mismatch_message(info.filename@, lower_extension(file_name@), info.format@)),
        !is_mismatch(lower_extension(file_name@), lowercase(info.format@)) ==> r is None,
{
    let raw = match crate::files::split_file_name(file_name).extension {
        Some(e) => e,
        None => owned(""),
    };
    let ext = lowercase_chars(raw.as_str());
    let detected = lowercase_chars(info.format.as_str());
    let mismatch = if is_literal(&ext, "jpg") || is_literal(&ext, "jpeg") {
        !is_literal(&detected, "jpeg")
    } else if is_literal(&ext, "tif") || is_literal(&ext, "tiff") {
        !is_literal(&detected, "tiff")
    } else if ext.len() == 0 {
        false
    } else {
        !crate::text::same_chars(&ext, &detected)
    };
    if mismatch {
        let mut m = owned("Filetype mismatch on '");
        append_str(&mut m, info.filename.as_str());
        append_str(&mut m, "': extension is .");
        append_chars(&mut m, &ext);
        append_str(&mut m, ", but the file is actually a ");
        append_str(&mut m, info.format.as_str());
        Some(m)
    } else {
        None
    }
}

// ---- image metadata ------------------------------------------------------

/// A path as shown to the user: without the `\\?\` prefix Windows gives
/// verbatim paths, wherever it stands.
pub open spec fn shown_path(path: Seq<char>) -> Seq<char> {
    replace_all(path, "\\\\?\\"@, ""@)
}

/// Executable form of [`shown_path`].
pub fn clean_path(path: &str) -> (r: String)
    ensures
        r@ == shown_path(path@),
{
    proof {
        reveal_strlit("\\\\?\\");
        reveal_strlit("");
    }
    let nothing: Vec<char> = Vec::new();
    assert(nothing@ =~= ""@);
    to_string(&replace_exec(&to_chars(path), &to_chars("\\\\?\\"), &nothing))
}

/// The metadata of an image from what its file and headers say: the path
/// as shown to the user, the file name, the format's name, the dimensions
/// and the size in whole kibibytes.
pub fn image_info(path: &str, file_name: &str, format: &str, width: u32, height: u32, byte_len: u64) -> (r: ImageInfo)
    ensures
        r.path@ == shown_path(path@),
        r.filename@ == file_name@,
        r.format@ == format@,
        r.width == width,
        r.height == height,
        r.size_kb == byte_len / 1024,
{
    ImageInfo {
        path: clean_path(path),
        filename: owned(file_name),
        format: owned(format),
        width,
        height,
        size_kb: byte_len / 1024,
    }
}

} // verus!
