//! The project record and the engine that fills it: classification of a
//! directory listing into a project type, tag generation with deduplication
//! and sorting, and the record's small mutators.
//!
//! A directory is always given as the list of its immediate entry names; the
//! surrounding application is responsible for reading the directory and for
//! skipping entries it cannot read.

use vstd::prelude::*;

use crate::text::{
    char_views, chars_eq, chars_of_str, extension_of, extension_of_chars, seq_lower, sort_dedup,
    str_views, strict_sorted, to_char_lists, to_lower, to_strings,
};

pub mod music;
pub mod programming;

verus! {

/// The category a directory falls into.
#[derive(Clone, Copy, Debug, PartialEq, Eq, Structural)]
pub enum ProjectType {
    Programming,
    Music,
    Unknown,
}

/// The lower-case word each project type is written as.
pub open spec fn type_word(t: ProjectType) -> Seq<char> {
    match t {
        ProjectType::Programming => "programming"@,
        ProjectType::Music => "music"@,
        ProjectType::Unknown => "unknown"@,
    }
}

impl ProjectType {
    /// The type's name as a string slice.
    pub fn as_str(&self) -> (s: &'static str)
        ensures
            s@ == type_word(*self),
    {
        match self {
            ProjectType::Programming => "programming",
            ProjectType::Music => "music",
            ProjectType::Unknown => "unknown",
        }
    }
}

/// Well-known package-manifest, build-description and lock-file names whose
/// mere presence marks a programming project.
pub open spec fn is_programming_marker(name: Seq<char>) -> bool {
    ||| name == "Cargo.toml"@
    ||| name == "package.json"@
    ||| name == "setup.py"@
    ||| name == "pom.xml"@
    ||| name == "build.gradle"@
    ||| name == "Makefile"@
    ||| name == "Gemfile"@
    ||| name == "requirements.txt"@
}

/// Well-known DAW project-file names whose presence marks a music-production
/// project.
pub open spec fn is_music_marker(name: Seq<char>) -> bool {
    ||| name == "project.als"@
    ||| name == "project.flp"@
    ||| name == "project.logic"@
    ||| name == "project.rpp"@
    ||| name == "project.studioone"@
}

/// Extensions (ASCII case-insensitive) that signal programming sources.
pub open spec fn is_programming_extension(e: Seq<char>) -> bool {
    let l = seq_lower(e);
    ||| l == "rs"@
    ||| l == "py"@
    ||| l == "js"@
    ||| l == "java"@
    ||| l == "cpp"@
    ||| l == "c"@
    ||| l == "cs"@
    ||| l == "go"@
    ||| l == "rb"@
    ||| l == "swift"@
}

/// Extensions (ASCII case-insensitive) that signal audio material or DAW
/// project files.
pub open spec fn is_audio_extension(e: Seq<char>) -> bool {
    let l = seq_lower(e);
    ||| l == "wav"@
    ||| l == "mp3"@
    ||| l == "flac"@
    ||| l == "ogg"@
    ||| l == "aiff"@
    ||| l == "rpp"@
    ||| l == "flp"@
    ||| l == "logic"@
    ||| l == "studioone"@
}

/// Decides `is_programming_marker`.
pub fn is_programming_marker_name(name: &Vec<char>) -> (b: bool)
    ensures
        b == is_programming_marker(name@),
{
    chars_eq(name, &chars_of_str("Cargo.toml")) || chars_eq(name, &chars_of_str("package.json"))
        || chars_eq(name, &chars_of_str("setup.py")) || chars_eq(name, &chars_of_str("pom.xml"))
        || chars_eq(name, &chars_of_str("build.gradle")) || chars_eq(
        name,
        &chars_of_str("Makefile"),
    ) || chars_eq(name, &chars_of_str("Gemfile")) || chars_eq(
        name,
        &chars_of_str("requirements.txt"),
    )
}

/// Decides `is_music_marker`.
pub fn is_music_marker_name(name: &Vec<char>) -> (b: bool)
    ensures
        b == is_music_marker(name@),
{
    chars_eq(name, &chars_of_str("project.als")) || chars_eq(name, &chars_of_str("project.flp"))
        || chars_eq(name, &chars_of_str("project.logic")) || chars_eq(
        name,
        &chars_of_str("project.rpp"),
    ) || chars_eq(name, &chars_of_str("project.studioone"))
}

/// Decides `is_programming_extension`.
pub fn is_programming_extension_chars(e: &Vec<char>) -> (b: bool)
    ensures
        b == is_programming_extension(e@),
{
    let l = to_lower(e);
    chars_eq(&l, &chars_of_str("rs")) || chars_eq(&l, &chars_of_str("py")) || chars_eq(
        &l,
        &chars_of_str("js"),
    ) || chars_eq(&l, &chars_of_str("java")) || chars_eq(&l, &chars_of_str("cpp")) || chars_eq(
        &l,
        &chars_of_str("c"),
    ) || chars_eq(&l, &chars_of_str("cs")) || chars_eq(&l, &chars_of_str("go")) || chars_eq(
        &l,
        &chars_of_str("rb"),
    ) || chars_eq(&l, &chars_of_str("swift"))
}

/// Decides `is_audio_extension`.
pub fn is_audio_extension_chars(e: &Vec<char>) -> (b: bool)
    ensures
        b == is_audio_extension(e@),
{
    let l = to_lower(e);
    chars_eq(&l, &chars_of_str("wav")) || chars_eq(&l, &chars_of_str("mp3")) || chars_eq(
        &l,
        &chars_of_str("flac"),
    ) || chars_eq(&l, &chars_of_str("ogg")) || chars_eq(&l, &chars_of_str("aiff")) || chars_eq(
        &l,
        &chars_of_str("rpp"),
    ) || chars_eq(&l, &chars_of_str("flp")) || chars_eq(&l, &chars_of_str("logic")) || chars_eq(
        &l,
        &chars_of_str("studioone"),
    )
}

/// One pass over the listing, in entry order, starting from the given flags:
/// a programming or music marker ends the scan at once, extensions accumulate,
/// and the pair of flags at the point the scan stops is the result.
pub open spec fn scan_flags(names: Seq<Seq<char>>, prog: bool, music: bool) -> (bool, bool)
    decreases names.len(),
{
    if names.len() == 0 {
        (prog, music)
    } else {
        let name = names[0];
        if is_programming_marker(name) {
            (true, music)
        } else if is_music_marker(name) {
            (prog, true)
        } else {
            let prog2 = prog || match extension_of(name) {
                Some(e) => is_programming_extension(e),
                None => false,
            };
            let music2 = music || match extension_of(name) {
                Some(e) => is_audio_extension(e),
                None => false,
            };
            scan_flags(names.skip(1), prog2, music2)
        }
    }
}

/// The type a listing is classified as: the scan's programming flag wins,
/// then the music flag, then `Unknown`.
pub open spec fn classify_listing(names: Seq<Seq<char>>) -> ProjectType {
    let flags = scan_flags(names, false, false);
    if flags.0 {
        ProjectType::Programming
    } else if flags.1 {
        ProjectType::Music
    } else {
        ProjectType::Unknown
    }
}

/// Once both flags hold, the rest of the scan cannot change them.
proof fn lemma_scan_flags_saturated(names: Seq<Seq<char>>)
    ensures
        scan_flags(names, true, true) == (true, true),
    decreases names.len(),
{
    if names.len() > 0 {
        lemma_scan_flags_saturated(names.skip(1));
    }
}

/// Tags of a listing that carries no recognized signal at all: the upper-cased
/// extension of every entry that has one.
pub open spec fn unknown_tag_set(names: Seq<Seq<char>>) -> Set<Seq<char>>
    decreases names.len(),
{
    if names.len() == 0 {
        Set::empty()
    } else {
        let rest = unknown_tag_set(names.drop_last());
        match extension_of(names.last()) {
            Some(e) => rest.insert(crate::text::seq_upper(e)),
            None => rest,
        }
    }
}

/// The tag set a listing is given, by project type.
pub open spec fn tag_set_for(names: Seq<Seq<char>>, t: ProjectType) -> Set<Seq<char>> {
    match t {
        ProjectType::Programming => programming::programming_tag_set(names),
        ProjectType::Music => music::music_tag_set(names),
        ProjectType::Unknown => unknown_tag_set(names),
    }
}

/// The ghost value of a project record: every field reduced to its
/// mathematical view.
pub ghost struct RecordView {
    pub name: Seq<char>,
    pub alias: Seq<char>,
    pub project_type: ProjectType,
    pub tags: Seq<Seq<char>>,
    pub date_created: int,
    pub date_modified: int,
    pub notes: Seq<Seq<char>>,
    pub git_url: Option<Seq<char>>,
}

/// A project record: what the inspection of one directory produces.
/// Timestamps are Unix seconds.
pub struct ProjectInfo {
    /// The name of the project.
    pub name: String,
    /// An alias or nickname for the project; empty until one is set.
    pub alias: String,
    /// The category the directory was classified as.
    pub project_type: ProjectType,
    /// Tags derived from the listing: deduplicated, sorted ascending.
    pub tags: Vec<String>,
    /// Creation time of the directory, as Unix seconds.
    pub date_created: i64,
    /// Last modification time of the directory, as Unix seconds.
    pub date_modified: i64,
    /// Free-text notes, in the order they were added.
    pub notes: Vec<String>,
    /// The push URL of the first version-control remote, if one was found.
    pub git_url: Option<String>,
}

impl View for ProjectInfo {
    type V = RecordView;

    open spec fn view(&self) -> RecordView {
        RecordView {
            name: self.name@,
            alias: self.alias@,
            project_type: self.project_type,
            tags: str_views(self.tags@),
            date_created: self.date_created as int,
            date_modified: self.date_modified as int,
            notes: str_views(self.notes@),
            git_url: match self.git_url {
                Some(u) => Some(u@),
                None => None,
            },
        }
    }
}

impl ProjectInfo {
    /// A record is well formed when its name is nonempty and its tags are
    /// strictly sorted, hence free of duplicates.
    pub open spec fn wf(self) -> bool {
        &&& self@.name.len() > 0
        &&& strict_sorted(self@.tags)
    }

    /// Classifies a directory listing, as `classify_listing` describes:
    /// markers are decisive and end the scan, extension signals accumulate,
    /// and programming outranks music in the final decision.
    pub fn generate_project_type(entries: &Vec<String>) -> (t: ProjectType)
        ensures
            t == classify_listing(str_views(entries@)),
    {
        let names = to_char_lists(entries);
        let ghost gn = str_views(entries@);
        let mut prog = false;
        let mut music = false;
        let mut done = false;
        let mut i: usize = 0;
        proof {
            assert(gn.skip(0) =~= gn);
        }
        while i < names.len() && !done
            invariant
                i <= names.len(),
                char_views(names@) == gn,
                names@.len() == gn.len(),
                !done ==> scan_flags(gn, false, false) == scan_flags(
                    gn.skip(i as int),
                    prog,
                    music,
                ),
                done ==> scan_flags(gn, false, false) == (prog, music),
            decreases
                    names.len() - i + (if done {
                        0int
                    } else {
                        1int
                    }),
        {
            let name = &names[i];
            proof {
                assert(gn.skip(i as int)[0] == gn[i as int]);
                assert(gn[i as int] == names@[i as int]@);
            }
            if is_programming_marker_name(name) {
                prog = true;
                done = true;
            } else if is_music_marker_name(name) {
                music = true;
                done = true;
            } else {
                match extension_of_chars(name) {
                    Some(e) => {
                        if is_programming_extension_chars(&e) {
                            prog = true;
                        }
                        if is_audio_extension_chars(&e) {
                            music = true;
                        }
                    },
                    None => {},
                }
                proof {
                    assert(gn.skip(i as int).skip(1) =~= gn.skip(i + 1));
                }
                i += 1;
                if prog && music {
                    proof {
                        lemma_scan_flags_saturated(gn.skip(i as int));
                    }
                    done = true;
                }
            }
        }
        if !done {
            proof {
                assert(gn.skip(i as int) =~= Seq::<Seq<char>>::empty());
            }
        }
        if prog {
            ProjectType::Programming
        } else if music {
            ProjectType::Music
        } else {
            ProjectType::Unknown
        }
    }

    /// Tags for a listing of no recognized type, as `unknown_tag_set`
    /// describes them: the upper-cased extensions, each once, sorted
    /// ascending.
    pub fn generate_unknown_tags(entries: &Vec<String>) -> (tags: Vec<String>)
        ensures
            str_views(tags@).to_set() == unknown_tag_set(str_views(entries@)),
            strict_sorted(str_views(tags@)),
            str_views(tags@).no_duplicates(),
    {
        let names = to_char_lists(entries);
        let ghost gn = str_views(entries@);
        let mut out: Vec<Vec<char>> = Vec::new();
        let mut i: usize = 0;
        while i < names.len()
            invariant
                i <= names.len(),
                char_views(names@) == gn,
                names@.len() == gn.len(),
                char_views(out@).to_set() =~= unknown_tag_set(gn.take(i as int)),
            decreases names.len() - i,
        {
            proof {
                assert(gn[i as int] == names@[i as int]@);
                assert(gn.take(i + 1).drop_last() =~= gn.take(i as int));
                assert(gn.take(i + 1).last() == gn[i as int]);
            }
            match extension_of_chars(&names[i]) {
                Some(e) => {
                    let t = crate::text::to_upper(&e);
                    proof {
                        crate::text::lemma_to_set_push(char_views(out@), t@);
                        assert(char_views(out@.push(t)) =~= char_views(out@).push(t@));
                    }
                    out.push(t);
                },
                None => {},
            }
            i += 1;
        }
        proof {
            assert(gn.take(gn.len() as int) =~= gn);
        }
        let deduped = sort_dedup(out);
        let tags = to_strings(&deduped);
        proof {
            crate::text::lemma_strict_sorted_no_duplicates(str_views(tags@));
        }
        tags
    }

    /// Tags for a classified listing: the type's tag rules applied, then the
    /// combined result deduplicated and sorted ascending.
    pub fn generate_tags(entries: &Vec<String>, project_type: ProjectType) -> (tags: Vec<String>)
        ensures
            strict_sorted(str_views(tags@)),
            str_views(tags@).no_duplicates(),
            str_views(tags@).to_set() == tag_set_for(str_views(entries@), project_type),
    {
        let raw: Vec<String> = match project_type {
            ProjectType::Programming => programming::generate_programming_tags(entries),
            ProjectType::Music => music::generate_music_tags(entries),
            ProjectType::Unknown => Self::generate_unknown_tags(entries),
        };
        let cl = to_char_lists(&raw);
        let sorted = sort_dedup(cl);
        let tags = to_strings(&sorted);
        proof {
            crate::text::lemma_strict_sorted_no_duplicates(str_views(tags@));
        }
        tags
    }

    /// Builds the record for one directory: `name` is the directory's final
    /// path component if it has a nonempty one, the entries are its immediate
    /// listing, the dates are its filesystem timestamps where the filesystem
    /// exposes them with `now` as the fallback, and `git_url` is a push URL
    /// already looked up, if any.
    pub fn generate_project_info(
        name: Option<String>,
        entries: &Vec<String>,
        date_created: Option<i64>,
        date_modified: Option<i64>,
        now: i64,
        git_url: Option<String>,
    ) -> (info: ProjectInfo)
        ensures
            info@.name == (match name {
                Some(n) => if n@.len() > 0 {
                    n@
                } else {
                    "Unnamed Project"@
                },
                None => "Unnamed Project"@,
            }),
            info@.alias == Seq::<char>::empty(),
            info@.project_type == classify_listing(str_views(entries@)),
            info@.tags.to_set() == tag_set_for(str_views(entries@), info@.project_type),
            info@.date_created == (match date_created {
                Some(t) => t as int,
                None => now as int,
            }),
            info@.date_modified == (match date_modified {
                Some(t) => t as int,
                None => now as int,
            }),
            info@.notes == Seq::<Seq<char>>::empty(),
            info@.git_url == (match git_url {
                Some(u) => Some(u@),
                None => None::<Seq<char>>,
            }),
            info.wf(),
    {
        let project_name: String = match name {
            Some(n) => {
                let cs = chars_of_str(n.as_str());
                if cs.len() > 0 {
                    n
                } else {
                    proof {
                        reveal_strlit("Unnamed Project");
                    }
                    "Unnamed Project".to_owned()
                }
            },
            None => {
                proof {
                    reveal_strlit("Unnamed Project");
                }
                "Unnamed Project".to_owned()
            },
        };
        let project_type = Self::generate_project_type(entries);
        let tags = Self::generate_tags(entries, project_type);
        let date_created = Self::get_creation_time(date_created, now);
        let date_modified = Self::get_modification_time(date_modified, now);
        let info = ProjectInfo {
            name: project_name,
            alias: String::new(),
            project_type,
            tags,
            date_created,
            date_modified,
            notes: Vec::new(),
            git_url,
        };
        proof {
            assert(str_views(info.notes@) =~= Seq::<Seq<char>>::empty());
        }
        info
    }

    /// The creation timestamp to record: the filesystem's where it exposes
    /// one, the caller's current time otherwise.
    pub fn get_creation_time(reported: Option<i64>, now: i64) -> (t: i64)
        ensures
            t == (match reported {
                Some(x) => x,
                None => now,
            }),
    {
        match reported {
            Some(x) => x,
            None => now,
        }
    }

    /// The modification timestamp to record: the filesystem's where it
    /// exposes one, the caller's current time otherwise.
    pub fn get_modification_time(reported: Option<i64>, now: i64) -> (t: i64)
        ensures
            t == (match reported {
                Some(x) => x,
                None => now,
            }),
    {
        match reported {
            Some(x) => x,
            None => now,
        }
    }

    /// Sets the alias; every other field keeps its value.
    pub fn set_alias(&mut self, alias: String)
        ensures
            final (self)@ == (RecordView { alias: alias@, ..old(self)@ }),
            old(self).wf() ==> final (self).wf(),
    {
        self.alias = alias;
    }

    /// Appends a note; every other field keeps its value.
    pub fn add_note(&mut self, note: String)
        ensures
            final (self)@ == (RecordView { notes: old(self)@.notes.push(note@), ..old(self)@ }),
            old(self).wf() ==> final (self).wf(),
    {
        self.notes.push(note);
        proof {
            assert(str_views(self.notes@) =~= old(self)@.notes.push(note@));
        }
    }
}

/// A programming marker always classifies the listing as `Programming`,
/// whatever else it holds, provided no music marker is scanned before it.
pub proof fn lemma_programming_marker_classifies(names: Seq<Seq<char>>, i: int)
    requires
        0 <= i < names.len(),
        is_programming_marker(names[i]),
        forall|j: int| 0 <= j < i ==> !is_music_marker(names[j]),
    ensures
        classify_listing(names) == ProjectType::Programming,
{
    lemma_scan_programming(names, false, false, i);
}

proof fn lemma_scan_programming(names: Seq<Seq<char>>, prog: bool, music: bool, i: int)
    requires
        0 <= i < names.len(),
        is_programming_marker(names[i]),
        forall|j: int| 0 <= j < i ==> !is_music_marker(names[j]),
    ensures
        scan_flags(names, prog, music).0,
    decreases names.len(),
{
    if is_programming_marker(names[0]) {
    } else if is_music_marker(names[0]) {
        assert(i != 0);
        assert(!is_music_marker(names[0]));
    } else {
        let rest = names.skip(1);
        assert(rest[i - 1] == names[i]);
        assert(forall|j: int| 0 <= j < i - 1 ==> rest[j] == names[j + 1]);
        let prog2 = prog || match extension_of(names[0]) {
            Some(e) => is_programming_extension(e),
            None => false,
        };
        let music2 = music || match extension_of(names[0]) {
            Some(e) => is_audio_extension(e),
            None => false,
        };
        lemma_scan_programming(rest, prog2, music2, i - 1);
    }
}

/// A music marker classifies the listing as `Music` when no programming
/// marker is present anywhere and no entry scanned before the marker carries
/// a programming extension.
pub proof fn lemma_music_marker_classifies(names: Seq<Seq<char>>, i: int)
    requires
        0 <= i < names.len(),
        is_music_marker(names[i]),
        forall|j: int| 0 <= j < names.len() ==> !is_programming_marker(names[j]),
        forall|j: int|
            0 <= j < i ==> !(match #[trigger] extension_of(names[j]) {
                Some(e) => is_programming_extension(e),
                None => false,
            }),
    ensures
        classify_listing(names) == ProjectType::Music,
{
    lemma_scan_music(names, false, i);
}

proof fn lemma_scan_music(names: Seq<Seq<char>>, music: bool, i: int)
    requires
        0 <= i < names.len(),
        is_music_marker(names[i]),
        forall|j: int| 0 <= j < names.len() ==> !is_programming_marker(names[j]),
        forall|j: int|
            0 <= j < i ==> !(match #[trigger] extension_of(names[j]) {
                Some(e) => is_programming_extension(e),
                None => false,
            }),
    ensures
        !scan_flags(names, false, music).0,
        scan_flags(names, false, music).1,
    decreases names.len(),
{
    assert(!is_programming_marker(names[0]));
    if is_music_marker(names[0]) {
    } else {
        assert(i != 0);
        let rest = names.skip(1);
        assert(rest[i - 1] == names[i]);
        assert(forall|j: int| 0 <= j < i - 1 ==> rest[j] == names[j + 1]);
        assert(forall|j: int| 0 <= j < rest.len() ==> rest[j] == names[j + 1]);
        let music2 = music || match extension_of(names[0]) {
            Some(e) => is_audio_extension(e),
            None => false,
        };
        lemma_scan_music(rest, music2, i - 1);
    }
}

/// A listing with no marker and no recognized extension anywhere is
/// classified as `Unknown`.
pub proof fn lemma_no_signal_classifies_unknown(names: Seq<Seq<char>>)
    requires
        forall|j: int|
            0 <= j < names.len() ==> {
                &&& !is_programming_marker(names[j])
                &&& !is_music_marker(names[j])
                &&& !(match extension_of(names[j]) {
                    Some(e) => is_programming_extension(e) || is_audio_extension(e),
                    None => false,
                })
            },
    ensures
        classify_listing(names) == ProjectType::Unknown,
{
    lemma_scan_inert(names, false, false);
}

proof fn lemma_scan_inert(names: Seq<Seq<char>>, prog: bool, music: bool)
    requires
        forall|j: int|
            0 <= j < names.len() ==> {
                &&& !is_programming_marker(names[j])
                &&& !is_music_marker(names[j])
                &&& !(match extension_of(names[j]) {
                    Some(e) => is_programming_extension(e) || is_audio_extension(e),
                    None => false,
                })
            },
    ensures
        scan_flags(names, prog, music) == (prog, music),
    decreases names.len(),
{
    if names.len() > 0 {
        let rest = names.skip(1);
        assert(forall|j: int| 0 <= j < rest.len() ==> rest[j] == names[j + 1]);
        lemma_scan_inert(rest, prog, music);
    }
}

} // verus!
