//! The data the sorter works with: settings, booru services, results.

use vstd::prelude::*;
use crate::text::{owned, same_chars, to_chars};

verus! {

/// How to query one booru service: the post URL template and, where the
/// service needs a second request for tag details, that template too.
/// Templates hold the placeholders `${ID}`, `${USERNAME}`, `${API_KEY}` and
/// `${TAGS}`.
#[derive(Debug, Clone)]
pub struct BooruConfig {
    pub url: String,
    pub post_url: Option<String>,
}

/// One level of the folder hierarchy the results are sorted into.
#[derive(Debug, Clone)]
pub struct HierarchyBlock {
    pub id: u32,
    pub name: String,
}

/// The user's settings. `services` and `flags` are maps from names; they are
/// held as lists of pairs whose names do not repeat (see [`AppConfig::wf`]).
#[derive(Debug, Clone)]
pub struct AppConfig {
    pub services: Vec<(String, BooruConfig)>,
    pub flags: Vec<(String, bool)>,
    pub output_folder: String,
    pub original_folder: String,
    pub invalid_folder: String,
    pub blacklist: String,
    pub rename_behavior: String,
    pub duplicate_behavior: String,
    pub confidence_threshold: u8,
    pub active_hierarchy: Vec<HierarchyBlock>,
    pub available_blocks: Vec<HierarchyBlock>,
    pub downloads_folder: String,
}

/// What a booru reports about an identified image, cleaned for display.
#[derive(Debug, Clone)]
pub struct BooruResponse {
    pub id: String,
    pub name: String,
    pub fandom: String,
    pub artist: String,
    pub rating: String,
    pub year: String,
    pub service: String,
    pub similarity: u8,
    pub file_path: String,
}

/// Metadata read from an image file's headers.
#[derive(Debug, Clone)]
pub struct ImageInfo {
    pub path: String,
    pub filename: String,
    pub format: String,
    pub width: u32,
    pub height: u32,
    pub size_kb: u64,
}

/// The names and values of a list of flags.
pub open spec fn flag_view(v: Seq<(String, bool)>) -> Seq<(Seq<char>, bool)> {
    v.map_values(|p: (String, bool)| (p.0@, p.1))
}

/// The names of a list of services.
pub open spec fn service_names(v: Seq<(String, BooruConfig)>) -> Seq<Seq<char>> {
    v.map_values(|p: (String, BooruConfig)| p.0@)
}

/// The value stored under `name` in a list of named flags: that of the first
/// pair with that name.
pub open spec fn lookup_flag(v: Seq<(Seq<char>, bool)>, name: Seq<char>) -> Option<bool>
    decreases v.len(),
{
    if v.len() == 0 {
        None
    } else if v[0].0 == name {
        Some(v[0].1)
    } else {
        lookup_flag(v.drop_first(), name)
    }
}

/// Position of the first name equal to `name`.
pub open spec fn position_of(names: Seq<Seq<char>>, name: Seq<char>) -> Option<int>
    decreases names.len(),
{
    if names.len() == 0 {
        None
    } else if names[0] == name {
        Some(0)
    } else {
        match position_of(names.drop_first(), name) {
            Some(k) => Some(k + 1),
            None => None,
        }
    }
}

/// No name occurs twice.
pub open spec fn distinct_names(names: Seq<Seq<char>>) -> bool {
    forall|i: int, j: int| 0 <= i < j < names.len() ==> names[i] != names[j]
}

/// The view of a string option.
pub open spec fn opt_view(o: Option<String>) -> Option<Seq<char>> {
    match o {
        Some(s) => Some(s@),
        None => None,
    }
}

proof fn lemma_position_of(names: Seq<Seq<char>>, name: Seq<char>)
    ensures
        position_of(names, name) matches Some(k) ==> 0 <= k < names.len() && names[k] == name
            && forall|j: int| 0 <= j < k ==> names[j] != name,
        position_of(names, name) is None ==> forall|j: int|
            0 <= j < names.len() ==> names[j] != name,
    decreases names.len(),
{
    if names.len() > 0 {
        lemma_position_of(names.drop_first(), name);
        if names[0] != name {
            assert forall|j: int| 1 <= j < names.len() implies names[j] == names.drop_first()[j
                - 1] by {}
        }
    }
}

/// The value of the flag `name` in a list of named flags, or `default` when
/// it is not set.
pub open spec fn flag_value(flags: Seq<(String, bool)>, name: Seq<char>, default: bool) -> bool {
    match lookup_flag(flag_view(flags), name) {
        Some(v) => v,
        None => default,
    }
}

proof fn lemma_lookup_flag(v: Seq<(Seq<char>, bool)>, name: Seq<char>)
    requires
        distinct_names(v.map_values(|p: (Seq<char>, bool)| p.0)),
    ensures
        forall|i: int|
            0 <= i < v.len() && #[trigger] v[i].0 == name ==> lookup_flag(v, name) == Some(v[i].1),
        (forall|i: int| 0 <= i < v.len() ==> #[trigger] v[i].0 != name) ==> lookup_flag(v, name)
            is None,
    decreases v.len(),
{
    if v.len() > 0 {
        let names = v.map_values(|p: (Seq<char>, bool)| p.0);
        let d = v.drop_first();
        assert(d.map_values(|p: (Seq<char>, bool)| p.0) =~= names.drop_first());
        lemma_lookup_flag(d, name);
        assert forall|i: int| 0 <= i < v.len() && #[trigger] v[i].0 == name implies lookup_flag(
            v,
            name,
        ) == Some(v[i].1) by {
            if i > 0 {
                assert(d[i - 1] == v[i]);
                assert(names[0] != names[i]);
            }
        }
        if forall|i: int| 0 <= i < v.len() ==> #[trigger] v[i].0 != name {
            assert(v[0].0 != name);
            assert forall|i: int| 0 <= i < d.len() implies #[trigger] d[i].0 != name by {
                assert(d[i] == v[i + 1]);
            }
        }
    }
}

/// With no flag named twice, the value of a flag is that of the one pair
/// with its name, or the default when there is none.
pub proof fn lemma_flag_value(flags: Seq<(String, bool)>, name: Seq<char>, default: bool)
    requires
        distinct_names(flag_view(flags).map_values(|p: (Seq<char>, bool)| p.0)),
    ensures
        forall|i: int|
            0 <= i < flags.len() && #[trigger] flags[i].0@ == name ==> flag_value(
                flags,
                name,
                default,
            ) == flags[i].1,
        (forall|i: int| 0 <= i < flags.len() ==> #[trigger] flags[i].0@ != name) ==> flag_value(
            flags,
            name,
            default,
        ) == default,
{
    let fv = flag_view(flags);
    lemma_lookup_flag(fv, name);
    assert forall|i: int| 0 <= i < flags.len() && #[trigger] flags[i].0@ == name implies flag_value(
        flags,
        name,
        default,
    ) == flags[i].1 by {
        assert(fv[i] == (flags[i].0@, flags[i].1));
        assert(fv[i].0 == name);
    }
    if forall|i: int| 0 <= i < flags.len() ==> #[trigger] flags[i].0@ != name {
        assert forall|i: int| 0 <= i < fv.len() implies #[trigger] fv[i].0 != name by {
            assert(fv[i] == (flags[i].0@, flags[i].1));
        }
    }
}

impl AppConfig {
    /// The settings are consistent: no service and no flag is named twice.
    pub open spec fn wf(&self) -> bool {
        &&& distinct_names(service_names(self.services@))
        &&& distinct_names(flag_view(self.flags@).map_values(|p: (Seq<char>, bool)| p.0))
    }

    /// The value of the flag `name`, or `default` when it is not set.
    pub fn flag(&self, name: &str, default: bool) -> (b: bool)
        requires
            self.wf(),
        ensures
            b == flag_value(self.flags@, name@, default),
            forall|i: int|
                0 <= i < self.flags@.len() && #[trigger] self.flags@[i].0@ == name@ ==> b
                    == self.flags@[i].1,
            (forall|i: int| 0 <= i < self.flags@.len() ==> #[trigger] self.flags@[i].0@ != name@)
                ==> b == default,
    {
        proof {
            lemma_flag_value(self.flags@, name@, default);
        }
        let key = to_chars(name);
        let ghost fv = flag_view(self.flags@);
        let mut i: usize = 0;
        assert(fv.skip(0) =~= fv);
        while i < self.flags.len()
            invariant
                i <= self.flags@.len(),
                self.wf(),
                key@ == name@,
                fv == flag_view(self.flags@),
                lookup_flag(fv, name@) == lookup_flag(fv.skip(i as int), name@),
            decreases self.flags@.len() - i,
        {
            let ghost rest = fv.skip(i as int);
            assert(rest[0] == fv[i as int]);
            assert(rest.drop_first() =~= fv.skip(i + 1));
            if same_chars(&to_chars(self.flags[i].0.as_str()), &key) {
                proof {
                    lemma_flag_value(self.flags@, name@, default);
                    assert(self.flags@[i as int].0@ == name@);
                }
                return self.flags[i].1;
            }
            i = i + 1;
        }
        default
    }

    /// Position of the service called `name`, if there is one.
    pub fn service_index(&self, name: &str) -> (r: Option<usize>)
        requires
            self.wf(),
        ensures
            r matches Some(k) ==> k < self.services@.len() && self.services@[k as int].0@ == name@,
            r is None ==> forall|i: int|
                0 <= i < self.services@.len() ==> #[trigger] self.services@[i].0@ != name@,
            r matches Some(k) ==> position_of(service_names(self.services@), name@) == Some(
                k as int,
            ),
            r is None ==> position_of(service_names(self.services@), name@) is None,
    {
        let key = to_chars(name);
        let ghost names = service_names(self.services@);
        let mut i: usize = 0;
        while i < self.services.len()
            invariant
                i <= self.services@.len(),
                key@ == name@,
                names == service_names(self.services@),
                forall|j: int| 0 <= j < i ==> names[j] != name@,
            decreases self.services@.len() - i,
        {
            assert(names[i as int] == self.services@[i as int].0@);
            if same_chars(&to_chars(self.services[i].0.as_str()), &key) {
                proof {
                    lemma_position_of(names, name@);
                }
                return Some(i);
            }
            i = i + 1;
        }
        proof {
            lemma_position_of(names, name@);
            assert forall|j: int| 0 <= j < self.services@.len() implies #[trigger] self.services@[j].0@
                != name@ by {
                assert(names[j] == self.services@[j].0@);
            }
        }
        None
    }
}

/// The ids and names of a list of hierarchy blocks.
pub open spec fn block_view(v: Seq<HierarchyBlock>) -> Seq<(u32, Seq<char>)> {
    v.map_values(|b: HierarchyBlock| (b.id, b.name@))
}

fn block(id: u32, name: &str) -> (b: HierarchyBlock)
    ensures
        b.id == id,
        b.name@ == name@,
{
    HierarchyBlock { id, name: owned(name) }
}

fn service(name: &str, url: &str, post_url: Option<&str>) -> (s: (String, BooruConfig))
    ensures
        s.0@ == name@,
        s.1.url@ == url@,
        opt_view(s.1.post_url) == match post_url {
            Some(p) => Some(p@),
            None => None::<Seq<char>>,
        },
{
    let post_url = match post_url {
        Some(p) => Some(owned(p)),
        None => None,
    };
    (owned(name), BooruConfig { url: owned(url), post_url })
}

impl Default for AppConfig {
    /// The settings of a fresh installation.
    fn default() -> (c: Self)
        ensures
            c.wf(),
            service_names(c.services@) == seq!["Gelbooru"@, "Yande.re"@, "Danbooru"@],
            c.services@[0].1.url@
                == "https://gelbooru.com/index.php?page=dapi&s=post&q=index&id=${ID}&json=1&user_id=${USERNAME}&api_key=${API_KEY}"@,
            opt_view(c.services@[0].1.post_url) == Some(
                "https://gelbooru.com/index.php?page=dapi&s=tag&q=index&names=${TAGS}&json=1&user_id=${USERNAME}&api_key=${API_KEY}"@,
            ),
            c.services@[1].1.url@ == "https://yande.re/post.json?tags=id:${ID}"@,
            c.services@[1].1.post_url is None,
            c.services@[2].1.url@
                == "https://danbooru.donmai.us/posts/${ID}.json?login=${USERNAME}&api_key=${API_KEY}"@,
            c.services@[2].1.post_url is None,
            flag_view(c.flags@) == seq![
                ("applyModsToSaved"@, false),
                ("runOnBoot"@, false),
                ("listDupes"@, true),
                ("allowImageConversion"@, true),
                ("allowShrinking"@, true),
                ("renameFoundImages"@, true),
                ("renameInvalidImages"@, true),
                ("isPermanentScan"@, true),
                ("allowResizing"@, true),
                ("autoUpdateEnabled"@, true),
            ],
            c.output_folder@ == ""@,
            c.original_folder@ == ".original"@,
            c.invalid_folder@ == ".invalid"@,
            c.blacklist@ == ""@,
            c.rename_behavior@ == "site_id"@,
            c.duplicate_behavior@ == "rename_copy"@,
            c.confidence_threshold == 80,
            block_view(c.active_hierarchy@) == seq![(1u32, "Fandom"@), (2u32, "Character"@)],
            block_view(c.available_blocks@) == seq![
                (3u32, "Artist"@),
                (5u32, "Rating (SFW/NSFW)"@),
                (4u32, "Year"@),
            ],
            c.downloads_folder@ == ".downloads"@,
    {
        let mut services: Vec<(String, BooruConfig)> = Vec::new();
        services.push(
            service(
                "Gelbooru",
                "https://gelbooru.com/index.php?page=dapi&s=post&q=index&id=${ID}&json=1&user_id=${USERNAME}&api_key=${API_KEY}",
                Some(
                    "https://gelbooru.com/index.php?page=dapi&s=tag&q=index&names=${TAGS}&json=1&user_id=${USERNAME}&api_key=${API_KEY}",
                ),
            ),
        );
        services.push(service("Yande.re", "https://yande.re/post.json?tags=id:${ID}", None));
        services.push(
            service(
                "Danbooru",
                "https://danbooru.donmai.us/posts/${ID}.json?login=${USERNAME}&api_key=${API_KEY}",
                None,
            ),
        );
        let mut flags: Vec<(String, bool)> = Vec::new();
        flags.push((owned("applyModsToSaved"), false));
        flags.push((owned("runOnBoot"), false));
        flags.push((owned("listDupes"), true));
        flags.push((owned("allowImageConversion"), true));
        flags.push((owned("allowShrinking"), true));
        flags.push((owned("renameFoundImages"), true));
        flags.push((owned("renameInvalidImages"), true));
        flags.push((owned("isPermanentScan"), true));
        flags.push((owned("allowResizing"), true));
        flags.push((owned("autoUpdateEnabled"), true));
        let mut active_hierarchy: Vec<HierarchyBlock> = Vec::new();
        active_hierarchy.push(block(1, "Fandom"));
        active_hierarchy.push(block(2, "Character"));
        let mut available_blocks: Vec<HierarchyBlock> = Vec::new();
        available_blocks.push(block(3, "Artist"));
        available_blocks.push(block(5, "Rating (SFW/NSFW)"));
        available_blocks.push(block(4, "Year"));
        let c = AppConfig {
            services,
            flags,
            output_folder: owned(""),
            original_folder: owned(".original"),
            invalid_folder: owned(".invalid"),
            blacklist: owned(""),
            rename_behavior: owned("site_id"),
            duplicate_behavior: owned("rename_copy"),
            confidence_threshold: 80,
            active_hierarchy,
            available_blocks,
            downloads_folder: owned(".downloads"),
        };
        proof {
            reveal_strlit("Gelbooru");
            reveal_strlit("Yande.re");
            reveal_strlit("Danbooru");
            reveal_strlit("applyModsToSaved");
            reveal_strlit("runOnBoot");
            reveal_strlit("listDupes");
            reveal_strlit("allowImageConversion");
            reveal_strlit("allowShrinking");
            reveal_strlit("renameFoundImages");
            reveal_strlit("renameInvalidImages");
            reveal_strlit("isPermanentScan");
            reveal_strlit("allowResizing");
            reveal_strlit("autoUpdateEnabled");
            assert(service_names(c.services@) =~= seq!["Gelbooru"@, "Yande.re"@, "Danbooru"@]);
            assert(flag_view(c.flags@) =~= seq![
                ("applyModsToSaved"@, false),
                ("runOnBoot"@, false),
                ("listDupes"@, true),
                ("allowImageConversion"@, true),
                ("allowShrinking"@, true),
                ("renameFoundImages"@, true),
                ("renameInvalidImages"@, true),
                ("isPermanentScan"@, true),
                ("allowResizing"@, true),
                ("autoUpdateEnabled"@, true),
            ]);
            let names = flag_view(c.flags@).map_values(|p: (Seq<char>, bool)| p.0);
            assert(names =~= seq![
                "applyModsToSaved"@,
                "runOnBoot"@,
                "listDupes"@,
                "allowImageConversion"@,
                "allowShrinking"@,
                "renameFoundImages"@,
                "renameInvalidImages"@,
                "isPermanentScan"@,
                "allowResizing"@,
                "autoUpdateEnabled"@,
            ]);
            assert forall|i: int, j: int| 0 <= i < j < names.len() implies names[i] != names[j] by {
                assert(names[i].len() != names[j].len() || names[i][0] != names[j][0]
                    || names[i][1] != names[j][1] || names[i][5] != names[j][5]);
            }
            assert forall|i: int, j: int|
                0 <= i < j < service_names(c.services@).len() implies service_names(
                c.services@,
            )[i] != service_names(c.services@)[j] by {
                assert(service_names(c.services@)[i][0] != service_names(c.services@)[j][0]);
            }
            assert(block_view(c.active_hierarchy@) =~= seq![(1u32, "Fandom"@), (2u32, "Character"@)]);
            assert(block_view(c.available_blocks@) =~= seq![
                (3u32, "Artist"@),
                (5u32, "Rating (SFW/NSFW)"@),
                (4u32, "Year"@),
            ]);
        }
        c
    }
}

} // verus!
