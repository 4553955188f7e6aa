//! Where a processed image ends up: the folders of the result hierarchy,
//! the file's new name, what happens to duplicates, the folder for files
//! that could not be identified, and how a result path is shown.

use vstd::prelude::*;
use crate::files::{
    copy_name, finalize_path, is_illegal, lemma_sanitized_is_safe, lemma_sanitized_keeps_safe,
    name_extension, name_stem, sanitize_filename, sanitized, split_file_name,
};
use crate::models::{flag_value, AppConfig, BooruResponse, HierarchyBlock};
use crate::tags::strings;
use crate::media::{clean_path, shown_path};
use crate::search::{starts_with, starts_with_exec};
use crate::text::{
    append_str, is_literal, is_space, owned, push_char, to_chars, to_string, trim, trim_chars,
};

verus! {

// ---- the results folder ----------------------------------------------------

/// The folder results are sorted into: the configured one, or `default_base`
/// when none is configured.
pub open spec fn results_base(output_folder: Seq<char>, default_base: Seq<char>) -> Seq<char> {
    if output_folder.len() == 0 {
        default_base
    } else {
        output_folder
    }
}

/// Executable form of [`results_base`] for the settings `config`.
pub fn results_folder(config: &AppConfig, default_base: &str) -> (r: String)
    ensures
        r@ == results_base(config.output_folder@, default_base@),
{
    if to_chars(config.output_folder.as_str()).len() == 0 {
        owned(default_base)
    } else {
        config.output_folder.clone()
    }
}

// ---- the hierarchy -----------------------------------------------------------

/// The folder name one hierarchy level takes from a result: the field its
/// block names, or `Misc` for a block of another name.
pub open spec fn block_folder(block_name: Seq<char>, data: BooruResponse) -> Seq<char> {
    if block_name == "Fandom"@ {
        data.fandom@
    } else if block_name == "Character"@ {
        data.name@
    } else if block_name == "Artist"@ {
        data.artist@
    } else if block_name == "Year"@ {
        data.year@
    } else if block_name == "Rating (SFW/NSFW)"@ {
        data.rating@
    } else {
        "Misc"@
    }
}

/// The folders, one per active hierarchy block and in its order, that a
/// result is sorted into below the results folder; each name sanitized.
pub open spec fn hierarchy_folders(blocks: Seq<HierarchyBlock>, data: BooruResponse) -> Seq<
    Seq<char>,
> {
    Seq::new(blocks.len(), |i: int| sanitized(block_folder(blocks[i].name@, data)))
}

/// Every hierarchy folder is a safe single folder name: there is one per
/// block, none holds `/`, `\`, `?`, `%`, `*`, `:`, `|`, `"`, `<` or `>`, none
/// begins or ends with whitespace, and a name that was safe already (no such
/// character, no two spaces in a row, no whitespace at either end) is kept as
/// it is.
pub proof fn lemma_hierarchy_folders_safe(blocks: Seq<HierarchyBlock>, data: BooruResponse)
    ensures
        hierarchy_folders(blocks, data).len() == blocks.len(),
        forall|i: int, k: int|
            0 <= i < blocks.len() && 0 <= k < hierarchy_folders(blocks, data)[i].len() ==> {
                let c = #[trigger] hierarchy_folders(blocks, data)[i][k];
                c != '/' && c != '\\' && c != '?' && c != '%' && c != '*' && c != ':' && c != '|'
                    && c != '"' && c != '<' && c != '>'
            },
        forall|i: int|
            0 <= i < blocks.len() && #[trigger] hierarchy_folders(blocks, data)[i].len() > 0 ==> !is_space(
                hierarchy_folders(blocks, data)[i][0],
            ) && !is_space(hierarchy_folders(blocks, data)[i].last()),
        forall|i: int|
            0 <= i < blocks.len() && {
                let f = block_folder(blocks[i].name@, data);
                &&& forall|k: int| 0 <= k < f.len() ==> !is_illegal(#[trigger] f[k])
                &&& forall|k: int| 0 <= k < f.len() - 1 ==> !(#[trigger] f[k] == ' ' && f[k + 1] == ' ')
                &&& f.len() > 0 ==> !is_space(f[0]) && !is_space(f.last())
            } ==> #[trigger] hierarchy_folders(blocks, data)[i] == block_folder(blocks[i].name@, data),
{
    let h = hierarchy_folders(blocks, data);
    assert forall|i: int, k: int| 0 <= i < blocks.len() && 0 <= k < h[i].len() implies {
        let c = #[trigger] h[i][k];
        c != '/' && c != '\\' && c != '?' && c != '%' && c != '*' && c != ':' && c != '|' && c != '"'
            && c != '<' && c != '>'
    } by {
        lemma_sanitized_is_safe(block_folder(blocks[i].name@, data));
    }
    assert forall|i: int| 0 <= i < blocks.len() && #[trigger] h[i].len() > 0 implies !is_space(h[i][0])
        && !is_space(h[i].last()) by {
        lemma_sanitized_is_safe(block_folder(blocks[i].name@, data));
    }
    assert forall|i: int|
        0 <= i < blocks.len() && {
            let f = block_folder(blocks[i].name@, data);
            &&& forall|k: int| 0 <= k < f.len() ==> !is_illegal(#[trigger] f[k])
            &&& forall|k: int| 0 <= k < f.len() - 1 ==> !(#[trigger] f[k] == ' ' && f[k + 1] == ' ')
            &&& f.len() > 0 ==> !is_space(f[0]) && !is_space(f.last())
        } implies #[trigger] h[i] == block_folder(blocks[i].name@, data) by {
        lemma_sanitized_keeps_safe(block_folder(blocks[i].name@, data));
    }
}

fn block_folder_exec(block_name: &str, data: &BooruResponse) -> (r: String)
    ensures
        r@ == block_folder(block_name@, *data),
{
    let n = to_chars(block_name);
    if is_literal(&n, "Fandom") {
        data.fandom.clone()
    } else if is_literal(&n, "Character") {
        data.name.clone()
    } else if is_literal(&n, "Artist") {
        data.artist.clone()
    } else if is_literal(&n, "Year") {
        data.year.clone()
    } else if is_literal(&n, "Rating (SFW/NSFW)") {
        data.rating.clone()
    } else {
        owned("Misc")
    }
}

/// Executable form of [`hierarchy_folders`].
pub fn folders_for(blocks: &Vec<HierarchyBlock>, data: &BooruResponse) -> (r: Vec<String>)
    ensures
        strings(r@) == hierarchy_folders(blocks@, *data),
{
    let mut r: Vec<String> = Vec::new();
    let mut i: usize = 0;
    while i < blocks.len()
        invariant
            i <= blocks@.len(),
            r@.len() == i,
            forall|k: int|
                0 <= k < i ==> (#[trigger] r@[k])@ == sanitized(block_folder(blocks@[k].name@, *data)),
        decreases blocks@.len() - i,
    {
        let f = block_folder_exec(blocks[i].name.as_str(), data);
        r.push(sanitize_filename(f.as_str()));
        i = i + 1;
    }
    assert(strings(r@) =~= hierarchy_folders(blocks@, *data));
    r
}

// ---- the new file name ---------------------------------------------------------

/// The first letter of a service's name, or `U` when it has none.
pub open spec fn service_prefix(service: Seq<char>) -> char {
    if service.len() > 0 {
        service[0]
    } else {
        'U'
    }
}

/// The stem a result file is saved under: the source file's own stem under
/// the setting `original`, the random id under `random_id`, and otherwise
/// the service's initial followed by the post id (such as `D12345`).
pub open spec fn stem_for(
    rename_behavior: Seq<char>,
    source_name: Seq<char>,
    data: BooruResponse,
    random_id: Seq<char>,
) -> Seq<char> {
    if rename_behavior == "original"@ {
        name_stem(source_name)
    } else if rename_behavior == "random_id"@ {
        random_id
    } else {
        seq![service_prefix(data.service@)] + data.id@
    }
}

/// A lower-case hexadecimal digit.
pub open spec fn is_lower_hex(c: char) -> bool {
    ('0' <= c <= '9') || ('a' <= c <= 'f')
}

/// The hyphenated, lower-case text of a version 4 (random) UUID: 32 hex
/// digits in groups of 8-4-4-4-12, the version digit `4`, and a variant digit
/// among `8`, `9`, `a`, `b`.
pub open spec fn is_v4_uuid_text(s: Seq<char>) -> bool {
    &&& s.len() == 36
    &&& forall|i: int|
        0 <= i < 36 ==> if i == 8 || i == 13 || i == 18 || i == 23 {
            #[trigger] s[i] == '-'
        } else {
            is_lower_hex(s[i])
        }
    &&& s[14] == '4'
    &&& (s[19] == '8' || s[19] == '9' || s[19] == 'a' || s[19] == 'b')
}

/// Draws a random id with `uuid::Uuid::new_v4` and writes it with
/// `to_string`. The value rests on chance; the contract states only the form
/// that the `uuid` source gives every such text (version and variant bits
/// fixed, hyphenated lower-case hex). `new_v4` panics when the operating
/// system cannot supply random bytes; that case is not stated.
#[verifier::external_body]
fn random_id() -> (r: String)
    ensures
        is_v4_uuid_text(r@),
{
    uuid::Uuid::new_v4().to_string()
}

/// What happens to a result whose file name is already taken in its folder.
#[derive(Debug, Clone, Copy, PartialEq, Eq, Structural)]
pub enum DuplicateTarget {
    /// The new file is deleted; the existing one stays (setting `delete`).
    DeleteSource,
    /// The new file is stored beside the existing one under a free name.
    SameFolder,
    /// The new file goes to a `.duplicates` folder inside its own folder
    /// (setting `move_folder_deep`).
    NestedFolder,
    /// The new file goes to a `.duplicates` folder in the results folder
    /// (setting `move_folder_root`).
    RootFolder,
}

/// The duplicate rule a setting selects; unknown settings keep the file
/// beside the existing one.
pub open spec fn duplicate_target_of(behavior: Seq<char>) -> DuplicateTarget {
    if behavior == "delete"@ {
        DuplicateTarget::DeleteSource
    } else if behavior == "move_folder_deep"@ {
        DuplicateTarget::NestedFolder
    } else if behavior == "move_folder_root"@ {
        DuplicateTarget::RootFolder
    } else {
        DuplicateTarget::SameFolder
    }
}

/// Executable form of [`duplicate_target_of`].
pub fn duplicate_target(behavior: &str) -> (r: DuplicateTarget)
    ensures
        r == duplicate_target_of(behavior@),
{
    let b = to_chars(behavior);
    if is_literal(&b, "delete") {
        DuplicateTarget::DeleteSource
    } else if is_literal(&b, "move_folder_deep") {
        DuplicateTarget::NestedFolder
    } else if is_literal(&b, "move_folder_root") {
        DuplicateTarget::RootFolder
    } else {
        DuplicateTarget::SameFolder
    }
}

/// Where and under which name a result is saved, below the results folder.
pub struct ResultPlan {
    /// The hierarchy folders, outermost first.
    pub folders: Vec<String>,
    /// The file's stem.
    pub stem: String,
    /// The file's extension.
    pub extension: String,
    /// `stem.extension`, the name tried first.
    pub file_name: String,
    /// What to do when that name is taken.
    pub on_duplicate: DuplicateTarget,
    /// The re-encoded upload is written in place of moving the original file
    /// (setting `applyModsToSaved`, off when unset).
    pub write_payload: bool,
}

/// The mathematical content of a [`ResultPlan`].
pub struct ResultView {
    pub folders: Seq<Seq<char>>,
    pub stem: Seq<char>,
    pub extension: Seq<char>,
    pub file_name: Seq<char>,
    pub on_duplicate: DuplicateTarget,
    pub write_payload: bool,
}

impl View for ResultPlan {
    type V = ResultView;

    open spec fn view(&self) -> ResultView {
        ResultView {
            folders: strings(self.folders@),
            stem: self.stem@,
            extension: self.extension@,
            file_name: self.file_name@,
            on_duplicate: self.on_duplicate,
            write_payload: self.write_payload,
        }
    }
}

/// Where a result described by `data`, found for the file called
/// `source_name`, is saved with the extension `extension` under the settings
/// `config`; `random_id` is the stem used under the setting `random_id`.
pub open spec fn result_plan_of(
    config: AppConfig,
    data: BooruResponse,
    source_name: Seq<char>,
    extension: Seq<char>,
    random_id: Seq<char>,
) -> ResultView {
    let stem = stem_for(config.rename_behavior@, source_name, data, random_id);
    ResultView {
        folders: hierarchy_folders(config.active_hierarchy@, data),
        stem,
        extension,
        file_name: stem + seq!['.'] + extension,
        on_duplicate: duplicate_target_of(config.duplicate_behavior@),
        write_payload: flag_value(config.flags@, "applyModsToSaved"@, false),
    }
}

/// [`result_plan_of`] with a given random id.
pub fn plan_result_with_id(
    config: &AppConfig,
    data: &BooruResponse,
    source_name: &str,
    extension: &str,
    random_id: &str,
) -> (r: ResultPlan)
    requires
        config.wf(),
    ensures
        r@ == result_plan_of(*config, *data, source_name@, extension@, random_id@),
{
    let rename = to_chars(config.rename_behavior.as_str());
    let stem = if is_literal(&rename, "original") {
        split_file_name(source_name).stem
    } else if is_literal(&rename, "random_id") {
        owned(random_id)
    } else {
        let s = to_chars(data.service.as_str());
        let prefix = if s.len() > 0 {
            s[0]
        } else {
            'U'
        };
        let mut t = String::new();
        crate::text::push_char(&mut t, prefix);
        append_str(&mut t, data.id.as_str());
        assert(t@ =~= seq![service_prefix(data.service@)] + data.id@);
        t
    };
    let mut file_name = stem.clone();
    crate::text::push_char(&mut file_name, '.');
    append_str(&mut file_name, extension);
    assert(file_name@ =~= stem@ + seq!['.'] + extension@);
    ResultPlan {
        folders: folders_for(&config.active_hierarchy, data),
        stem,
        extension: owned(extension),
        file_name,
        on_duplicate: duplicate_target(config.duplicate_behavior.as_str()),
        write_payload: config.flag("applyModsToSaved", false),
    }
}

/// Plans where a result is saved (see [`result_plan_of`]), drawing a random
/// UUID for the stem under the setting `random_id`.
pub fn plan_result(config: &AppConfig, data: &BooruResponse, source_name: &str, extension: &str) -> (r: ResultPlan)
    requires
        config.wf(),
    ensures
        config.rename_behavior@ != "random_id"@ ==> r@ == result_plan_of(
            *config,
            *data,
            source_name@,
            extension@,
            ""@,
        ),
        config.rename_behavior@ == "random_id"@ ==> is_v4_uuid_text(r.stem@) && r@
            == result_plan_of(*config, *data, source_name@, extension@, r.stem@),
{
    if is_literal(&to_chars(config.rename_behavior.as_str()), "random_id") {
        let id = random_id();
        let r = plan_result_with_id(config, data, source_name, extension, id.as_str());
        assert("original"@ != "random_id"@) by {
            reveal_strlit("original");
            reveal_strlit("random_id");
            assert("original"@.len() == 8);
            assert("random_id"@.len() == 9);
        }
        r
    } else {
        plan_result_with_id(config, data, source_name, extension, "")
    }
}

/// The folder, below the results folder, that a duplicate goes to; `None`
/// when the duplicate is deleted instead.
pub open spec fn duplicate_folders_of(target: DuplicateTarget, folders: Seq<Seq<char>>) -> Option<
    Seq<Seq<char>>,
> {
    match target {
        DuplicateTarget::DeleteSource => None,
        DuplicateTarget::SameFolder => Some(folders),
        DuplicateTarget::NestedFolder => Some(folders.push(".duplicates"@)),
        DuplicateTarget::RootFolder => Some(seq![".duplicates"@]),
    }
}

/// Executable form of [`duplicate_folders_of`] for a plan.
pub fn duplicate_folders(plan: &ResultPlan) -> (r: Option<Vec<String>>)
    ensures
        match duplicate_folders_of(plan@.on_duplicate, plan@.folders) {
            Some(f) => (r matches Some(v) && strings(v@) == f),
            None => r is None,
        },
{
    match plan.on_duplicate {
        DuplicateTarget::DeleteSource => None,
        DuplicateTarget::SameFolder => Some(plan.folders.clone()),
        DuplicateTarget::NestedFolder => {
            let mut v = plan.folders.clone();
            v.push(owned(".duplicates"));
            assert(strings(v@) =~= strings(plan.folders@).push(".duplicates"@));
            Some(v)
        },
        DuplicateTarget::RootFolder => {
            let mut v: Vec<String> = Vec::new();
            v.push(owned(".duplicates"));
            assert(strings(v@) =~= seq![".duplicates"@]);
            Some(v)
        },
    }
}

// ---- files that could not be identified -----------------------------------------

/// The folder, below the results folder, for files that could not be
/// identified: the configured one without surrounding whitespace, or
/// `.invalid` when none is configured.
pub open spec fn invalid_folder_of(setting: Seq<char>) -> Seq<char> {
    if trim(setting).len() == 0 {
        ".invalid"@
    } else {
        trim(setting)
    }
}

/// Executable form of [`invalid_folder_of`] for the settings `config`.
pub fn invalid_folder_name(config: &AppConfig) -> (r: String)
    ensures
        r@ == invalid_folder_of(config.invalid_folder@),
{
    let t = trim_chars(&to_chars(config.invalid_folder.as_str()));
    if t.len() == 0 {
        owned(".invalid")
    } else {
        to_string(&t)
    }
}

/// The extension of a file name, or nothing when it has none.
pub open spec fn extension_or_empty(name: Seq<char>) -> Seq<char> {
    match name_extension(name) {
        Some(e) => e,
        None => ""@,
    }
}

/// The name under which the file called `source_name` is stored in the
/// folder for unidentified files, which holds `existing`: the first of its
/// own stem and extension, then `stem_copy1`, `stem_copy2`, ... that is free.
pub fn invalid_destination(existing: &Vec<String>, source_name: &str) -> (r: String)
    ensures
        !strings(existing@).contains(r@),
        exists|k: nat|
            r@ == #[trigger] copy_name(name_stem(source_name@), extension_or_empty(source_name@), k)
                && forall|j: nat|
                j < k ==> strings(existing@).contains(
                    copy_name(name_stem(source_name@), extension_or_empty(source_name@), j),
                ),
{
    let parts = split_file_name(source_name);
    let ext = match parts.extension {
        Some(e) => e,
        None => owned(""),
    };
    assert(ext@ == extension_or_empty(source_name@));
    let r = finalize_path(existing, parts.stem.as_str(), ext.as_str());
    proof {
        let k = choose|k: nat|
            r@ == #[trigger] copy_name(parts.stem@, ext@, k) && forall|j: nat|
                j < k ==> strings(existing@).contains(copy_name(parts.stem@, ext@, j));
        assert(r@ == copy_name(name_stem(source_name@), extension_or_empty(source_name@), k));
    }
    r
}

// ---- showing where a result went ----------------------------------------------

/// The folder a shown result path is relative to: the configured results
/// folder, or `default_base` when the setting is blank.
pub open spec fn display_base(output_folder: Seq<char>, default_base: Seq<char>) -> Seq<char> {
    if trim(output_folder).len() == 0 {
        default_base
    } else {
        output_folder
    }
}

/// `s` without the `/` and `\\` characters it begins with.
pub open spec fn skip_separators(s: Seq<char>) -> Seq<char>
    decreases s.len(),
{
    if s.len() > 0 && (s[0] == '/' || s[0] == '\\') {
        skip_separators(s.drop_first())
    } else {
        s
    }
}

/// `s` with every `\\` turned into `/`.
pub open spec fn forward_slashes(s: Seq<char>) -> Seq<char> {
    s.map_values(|c: char| if c == '\\' { '/' } else { c })
}

/// How the path a result was saved at is shown, such as
/// `Arknights/Yvonne/D12345.png`: without the verbatim prefix, relative to
/// [`display_base`] when it lies below it, without leading separators, and
/// with forward slashes.
pub open spec fn display_path_of(full: Seq<char>, output_folder: Seq<char>, default_base: Seq<char>) -> Seq<char> {
    let clean = shown_path(full);
    let base = display_base(output_folder, default_base);
    let rest = if starts_with(clean, base) {
        clean.skip(base.len() as int)
    } else {
        clean
    };
    forward_slashes(skip_separators(rest))
}

/// A shown result path never begins with a separator and holds no
/// backslash.
pub proof fn lemma_display_path_clean(full: Seq<char>, output_folder: Seq<char>, default_base: Seq<char>)
    ensures
        ({
            let shown = display_path_of(full, output_folder, default_base);
            &&& shown.len() > 0 ==> shown[0] != '/' && shown[0] != '\\'
            &&& forall|i: int| 0 <= i < shown.len() ==> shown[i] != '\\'
        }),
{
    let clean = shown_path(full);
    let base = display_base(output_folder, default_base);
    let rest = if starts_with(clean, base) {
        clean.skip(base.len() as int)
    } else {
        clean
    };
    lemma_skip_separators(rest);
}

proof fn lemma_skip_separators(s: Seq<char>)
    ensures
        skip_separators(s).len() > 0 ==> skip_separators(s)[0] != '/' && skip_separators(s)[0]
            != '\\',
    decreases s.len(),
{
    if s.len() > 0 && (s[0] == '/' || s[0] == '\\') {
        lemma_skip_separators(s.drop_first());
    }
}

/// Executable form of [`display_path_of`] for the settings `config`.
pub fn display_path(full: &str, config: &AppConfig, default_base: &str) -> (r: String)
    ensures
        r@ == display_path_of(full@, config.output_folder@, default_base@),
{
    let clean = to_chars(clean_path(full).as_str());
    let out = to_chars(config.output_folder.as_str());
    let base = if trim_chars(&out).len() == 0 {
        to_chars(default_base)
    } else {
        out
    };
    let mut i: usize = if starts_with_exec(&clean, &base) {
        base.len()
    } else {
        0
    };
    let ghost rest = if starts_with(clean@, base@) {
        clean@.skip(base@.len() as int)
    } else {
        clean@
    };
    assert(clean@.skip(i as int) =~= rest);
    while i < clean.len() && (clean[i] == '/' || clean[i] == '\\')
        invariant
            i <= clean@.len(),
            skip_separators(clean@.skip(i as int)) == skip_separators(rest),
        decreases clean@.len() - i,
    {
        assert(clean@.skip(i as int).drop_first() =~= clean@.skip(i + 1));
        i = i + 1;
    }
    let mut r = String::new();
    let start = i;
    while i < clean.len()
        invariant
            start <= i <= clean@.len(),
            skip_separators(clean@.skip(start as int)) == clean@.skip(start as int),
            r@ == forward_slashes(clean@.subrange(start as int, i as int)),
        decreases clean@.len() - i,
    {
        let c = if clean[i] == '\\' {
            '/'
        } else {
            clean[i]
        };
        push_char(&mut r, c);
        i = i + 1;
        assert(r@ =~= forward_slashes(clean@.subrange(start as int, i as int)));
    }
    assert(clean@.subrange(start as int, i as int) =~= clean@.skip(start as int));
    r
}

// ---- downloads ------------------------------------------------------------------

/// The downloads folder inside the results folder (see [`results_base`]): the
/// configured one, or `.downloads` when the setting is blank.
pub open spec fn downloads_folder_of(setting: Seq<char>) -> Seq<char> {
    if trim(setting).len() == 0 {
        ".downloads"@
    } else {
        setting
    }
}

/// The path, as its components, of the folder downloads are saved in: the
/// downloads folder inside the results folder, which is `default_base` when
/// no results folder is configured.
pub fn downloads_location(config: &AppConfig, default_base: &str) -> (r: Vec<String>)
    ensures
        strings(r@) == seq![
            results_base(config.output_folder@, default_base@),
            downloads_folder_of(config.downloads_folder@),
        ],
{
    let base = results_folder(config, default_base);
    let folder = if trim_chars(&to_chars(config.downloads_folder.as_str())).len() == 0 {
        owned(".downloads")
    } else {
        config.downloads_folder.clone()
    };
    let mut r: Vec<String> = Vec::new();
    r.push(base);
    r.push(folder);
    assert(strings(r@) =~= seq![
        results_base(config.output_folder@, default_base@),
        downloads_folder_of(config.downloads_folder@),
    ]);
    r
}

/// The path, as its components, of the folder the file explorer is opened
/// at: the downloads folder when `target` is `downloads`, otherwise the
/// results folder the sorter saves to (`default_base` when none is
/// configured).
pub fn folder_to_open(config: &AppConfig, target: &str, default_base: &str) -> (r: Vec<String>)
    ensures
        target@ == "downloads"@ ==> strings(r@) == seq![
            results_base(config.output_folder@, default_base@),
            downloads_folder_of(config.downloads_folder@),
        ],
        target@ != "downloads"@ ==> strings(r@) == seq![
            results_base(config.output_folder@, default_base@),
        ],
{
    if is_literal(&to_chars(target), "downloads") {
        downloads_location(config, default_base)
    } else {
        let mut v: Vec<String> = Vec::new();
        v.push(results_folder(config, default_base));
        assert(strings(v@) =~= seq![results_base(config.output_folder@, default_base@)]);
        v
    }
}

} // verus!
