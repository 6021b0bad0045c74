//! Settings, where they are looked for, and the rules for file names.
use vstd::prelude::*;

use crate::path::{join_path, path_joined, same_path, same_path_text};
use crate::text::{chars_of, copy_list, copy_opt, lemma_strip_end, lemma_strip_start, opt_text,
    same_list, same_opt, strip, strip_end, strip_start, texts, white_space, Strip};

verus! {

/// The settings of the program.
#[derive(Debug)]
pub struct Config {
    pub server: String,
    pub user: Option<String>,
    pub password: Option<String>,
    pub library: Option<String>,
    pub download_dir: String,
    pub formats: Vec<String>,
    pub limit: usize,
    /// UI language: absent = follow the firmware ("auto"), or "en"/"ru".
    pub language: Option<String>,
}

/// What the settings say.
#[verifier::ext_equal]
pub struct ConfigView {
    pub server: Seq<char>,
    pub user: Option<Seq<char>>,
    pub password: Option<Seq<char>>,
    pub library: Option<Seq<char>>,
    pub download_dir: Seq<char>,
    pub formats: Seq<Seq<char>>,
    pub limit: usize,
    pub language: Option<Seq<char>>,
}

impl View for Config {
    type V = ConfigView;

    open spec fn view(&self) -> ConfigView {
        ConfigView {
            server: self.server@,
            user: opt_text(self.user),
            password: opt_text(self.password),
            library: opt_text(self.library),
            download_dir: self.download_dir@,
            formats: texts(self.formats@),
            limit: self.limit,
            language: opt_text(self.language),
        }
    }
}

/// The settings in use until others are found.
pub open spec fn default_config() -> ConfigView {
    ConfigView {
        server: "http://192.168.1.10:8080"@,
        user: None,
        password: None,
        library: None,
        download_dir: "/mnt/ext1/Books"@,
        formats: seq!["FB2"@, "EPUB"@, "PDF"@, "MOBI"@],
        limit: 200,
        language: None,
    }
}

impl Default for Config {
    fn default() -> (r: Self)
        ensures
            r@ == default_config(),
    {
        let mut formats: Vec<String> = Vec::new();
        formats.push("FB2".to_string());
        formats.push("EPUB".to_string());
        formats.push("PDF".to_string());
        formats.push("MOBI".to_string());
        assert(texts(formats@) =~= seq!["FB2"@, "EPUB"@, "PDF"@, "MOBI"@]);
        Config {
            server: "http://192.168.1.10:8080".to_string(),
            user: None,
            password: None,
            library: None,
            download_dir: "/mnt/ext1/Books".to_string(),
            formats,
            limit: 200,
            language: None,
        }
    }
}

impl Clone for Config {
    fn clone(&self) -> (r: Self)
        ensures
            r@ == self@,
    {
        Config {
            server: self.server.clone(),
            user: copy_opt(&self.user),
            password: copy_opt(&self.password),
            library: copy_opt(&self.library),
            download_dir: self.download_dir.clone(),
            formats: copy_list(&self.formats),
            limit: self.limit,
            language: copy_opt(&self.language),
        }
    }
}

/// Whether two settings are the same; two spellings of one directory are.
pub open spec fn same_settings(a: ConfigView, b: ConfigView) -> bool {
    &&& a.server == b.server
    &&& a.user == b.user
    &&& a.password == b.password
    &&& a.library == b.library
    &&& same_path_text(a.download_dir, b.download_dir)
    &&& a.formats == b.formats
    &&& a.limit == b.limit
    &&& a.language == b.language
}

impl PartialEq for Config {
    fn eq(&self, other: &Self) -> (r: bool) {
        self.server == other.server && same_opt(&self.user, &other.user) && same_opt(
            &self.password,
            &other.password,
        ) && same_opt(&self.library, &other.library) && same_path(
            self.download_dir.as_str(),
            other.download_dir.as_str(),
        ) && same_list(&self.formats, &other.formats) && self.limit == other.limit && same_opt(
            &self.language,
            &other.language,
        )
    }
}

impl vstd::std_specs::cmp::PartialEqSpecImpl for Config {
    open spec fn obeys_eq_spec() -> bool {
        true
    }

    open spec fn eq_spec(&self, other: &Self) -> bool {
        same_settings(self@, other@)
    }
}

/// The header is prepended on every save: the serializer does not keep comments, and the file must
/// stay readable for whoever opens it by hand.
pub const HEADER: &'static str =
    "# pocket_calibre settings. Rewritten by the in-app settings screen.\n# server        — calibre content server address\n# user/password — if the server requires auth (basic only)\n# library       — library id; the server default is used when absent\n# formats       — in order of preference, the first available one is downloaded\n# language      — ui language: omit the key for auto, or set en / ru\n\n";

/// What went wrong (or notably right) while loading the settings. Kept as data rather than a
/// message so that it can be rendered in the current language.
#[derive(Debug)]
pub enum LoadNote {
    ParseError { path: String, error: String },
    Created,
    CreateFailed { path: String, error: String },
}

/// What a note says.
pub enum LoadNoteView {
    ParseError { path: Seq<char>, error: Seq<char> },
    Created,
    CreateFailed { path: Seq<char>, error: Seq<char> },
}

impl View for LoadNote {
    type V = LoadNoteView;

    open spec fn view(&self) -> LoadNoteView {
        match *self {
            LoadNote::ParseError { path, error } => LoadNoteView::ParseError {
                path: path@,
                error: error@,
            },
            LoadNote::Created => LoadNoteView::Created,
            LoadNote::CreateFailed { path, error } => LoadNoteView::CreateFailed {
                path: path@,
                error: error@,
            },
        }
    }
}

/// The settings that loading came to, the file they belong to, and a note for the status line.
pub struct Loaded {
    pub config: Config,
    pub path: String,
    pub note: Option<LoadNote>,
}

/// What loading came to.
#[verifier::ext_equal]
pub struct LoadedView {
    pub config: ConfigView,
    pub path: Seq<char>,
    pub note: Option<LoadNoteView>,
}

impl View for Loaded {
    type V = LoadedView;

    open spec fn view(&self) -> LoadedView {
        LoadedView {
            config: self.config@,
            path: self.path@,
            note: match self.note {
                Some(note) => Some(note@),
                None => None,
            },
        }
    }
}

/// What loading asks for next.
#[derive(Debug)]
pub enum LoadAction {
    /// Read the file, and parse it if it can be read.
    Read(String),
    /// There is no file at any place: write the default settings to this one.
    Create(String),
    /// No file could be read, and there is one: nothing is written.
    GiveUp,
}

/// What loading asks for next.
pub enum LoadActionView {
    Read(Seq<char>),
    Create(Seq<char>),
    GiveUp,
}

impl View for LoadAction {
    type V = LoadActionView;

    open spec fn view(&self) -> LoadActionView {
        match *self {
            LoadAction::Read(path) => LoadActionView::Read(path@),
            LoadAction::Create(path) => LoadActionView::Create(path@),
            LoadAction::GiveUp => LoadActionView::GiveUp,
        }
    }
}

/// The places where the settings file is looked for: beside the program, then in the standard
/// folders of the device.
pub open spec fn candidates(exe_dir: Option<Seq<char>>) -> Seq<Seq<char>> {
    let fixed = seq![
        "/mnt/ext1/applications/pocket_calibre.toml"@,
        "/mnt/ext1/system/config/pocket_calibre.toml"@,
    ];
    match exe_dir {
        Some(dir) => seq![path_joined(dir, "pocket_calibre.toml"@)] + fixed,
        None => fixed,
    }
}

/// The search for the settings file: the places, how many of them have been tried in vain, and the
/// first of these where there is a file all the same, with the reason why it could not be read.
#[derive(Debug)]
pub struct Loading {
    pub paths: Vec<String>,
    pub tried: usize,
    pub broken: Option<(usize, String)>,
}

impl Loading {
    /// There is somewhere to look, no place has been tried beyond the last, and a file that could
    /// not be read is at a place that was tried.
    pub open spec fn wf(self) -> bool {
        &&& self.paths@.len() > 0
        &&& self.tried <= self.paths@.len()
        &&& match self.broken {
            Some((place, _)) => place < self.tried,
            None => true,
        }
    }

    /// Whether there is a place left to try.
    pub open spec fn searching(self) -> bool {
        self.tried < self.paths@.len()
    }

    /// What to do next: read the first place not tried yet; when none is left, create the first,
    /// unless there is a file that could not be read.
    pub fn action(&self) -> (r: LoadAction)
        requires
            self.wf(),
        ensures
            r@ == next_load_action(texts(self.paths@), self.tried as nat, self.broken is Some),
    {
        if self.tried < self.paths.len() {
            LoadAction::Read(self.paths[self.tried].clone())
        } else if self.broken.is_some() {
            LoadAction::GiveUp
        } else {
            LoadAction::Create(self.paths[0].clone())
        }
    }

    /// There is no file at this place: the next one is tried.
    pub fn missing(&mut self)
        requires
            old(self).wf(),
            old(self).searching(),
        ensures
            final(self).wf(),
            final(self).paths == old(self).paths,
            final(self).tried == old(self).tried + 1,
            final(self).broken == old(self).broken,
    {
        assert(self.tried < self.paths.len());
        self.tried = self.tried + 1;
    }

    /// There is a file at this place, and it could not be read: the next one is tried. The first
    /// such file and the reason are kept.
    pub fn unreadable(&mut self, error: String)
        requires
            old(self).wf(),
            old(self).searching(),
        ensures
            final(self).wf(),
            final(self).paths == old(self).paths,
            final(self).tried == old(self).tried + 1,
            final(self).broken == match old(self).broken {
                Some(first) => Some(first),
                None => Some((old(self).tried, error)),
            },
    {
        assert(self.tried < self.paths.len());
        if self.broken.is_none() {
            self.broken = Some((self.tried, error));
        }
        self.tried = self.tried + 1;
    }

    /// The file was read and parsed. A file that does not parse is left alone: whoever edited it
    /// by hand keeps the edits, and the defaults are used meanwhile.
    pub fn parsed(&self, outcome: Result<Config, String>) -> (r: Loaded)
        requires
            self.wf(),
            self.searching(),
        ensures
            r@ == loaded_from(
                self.paths@[self.tried as int]@,
                match outcome {
                    Ok(config) => Ok(config@),
                    Err(e) => Err(e@),
                },
            ),
    {
        let path = self.paths[self.tried].clone();
        match outcome {
            Ok(config) => Loaded { config, path, note: None },
            Err(error) => Loaded {
                config: Config::default(),
                path: path.clone(),
                note: Some(LoadNote::ParseError { path, error }),
            },
        }
    }

    /// There was no file, and writing the defaults to the first place ended as `outcome` says.
    pub fn created(&self, outcome: Result<(), String>) -> (r: Loaded)
        requires
            self.wf(),
            !self.searching(),
            self.broken is None,
        ensures
            r@ == loaded_by_creating(
                self.paths@[0]@,
                match outcome {
                    Ok(_) => Ok(()),
                    Err(e) => Err(e@),
                },
            ),
    {
        let path = self.paths[0].clone();
        let note = match outcome {
            Ok(_) => LoadNote::Created,
            Err(error) => LoadNote::CreateFailed { path: path.clone(), error },
        };
        Loaded { config: Config::default(), path, note: Some(note) }
    }

    /// A file is there and none could be read. The file is left alone, as one that does not parse
    /// is: the defaults are used meanwhile.
    pub fn gave_up(&self) -> (r: Loaded)
        requires
            self.wf(),
            !self.searching(),
            self.broken is Some,
        ensures
            match self.broken {
                Some((place, error)) => r@ == loaded_from(self.paths@[place as int]@, Err(error@)),
                None => true,
            },
    {
        let (place, error) = self.broken.as_ref().unwrap();
        let path = self.paths[*place].clone();
        Loaded {
            config: Config::default(),
            path: path.clone(),
            note: Some(LoadNote::ParseError { path, error: error.clone() }),
        }
    }
}

/// What loading does when `tried` of the places were tried in vain, `broken` telling whether there
/// is a file at one of them.
pub open spec fn next_load_action(
    paths: Seq<Seq<char>>,
    tried: nat,
    broken: bool,
) -> LoadActionView {
    if tried < paths.len() {
        LoadActionView::Read(paths[tried as int])
    } else if broken {
        LoadActionView::GiveUp
    } else {
        LoadActionView::Create(paths[0])
    }
}

/// What a file comes to: its settings, or the defaults and a note.
pub open spec fn loaded_from(path: Seq<char>, outcome: Result<ConfigView, Seq<char>>) -> LoadedView {
    match outcome {
        Ok(config) => LoadedView { config, path, note: None },
        Err(error) => LoadedView {
            config: default_config(),
            path,
            note: Some(LoadNoteView::ParseError { path, error }),
        },
    }
}

/// What it comes to that there is no file: the defaults, and a note on the attempt to write them.
pub open spec fn loaded_by_creating(path: Seq<char>, outcome: Result<(), Seq<char>>) -> LoadedView {
    LoadedView {
        config: default_config(),
        path,
        note: Some(
            match outcome {
                Ok(_) => LoadNoteView::Created,
                Err(error) => LoadNoteView::CreateFailed { path, error },
            },
        ),
    }
}

/// What there is at a place where the settings file is looked for.
pub enum Place {
    Missing,
    Unreadable,
    Readable,
}

/// The actions of the rest of a search, given what there is at each place.
pub open spec fn load_actions(
    paths: Seq<Seq<char>>,
    places: Seq<Place>,
    tried: nat,
    broken: bool,
) -> Seq<LoadActionView>
    decreases paths.len() - tried,
{
    if tried < paths.len() && places[tried as int] !is Readable {
        seq![next_load_action(paths, tried, broken)] + load_actions(
            paths,
            places,
            tried + 1,
            broken || places[tried as int] is Unreadable,
        )
    } else {
        seq![next_load_action(paths, tried, broken)]
    }
}

/// The first place from `tried` on with a file that can be read; as many as there are places where
/// no file can.
pub open spec fn first_readable(places: Seq<Place>, tried: nat) -> nat
    decreases places.len() - tried,
{
    if tried < places.len() && places[tried as int] !is Readable {
        first_readable(places, tried + 1)
    } else {
        tried
    }
}

/// The rest of a search, action by action.
proof fn lemma_load_actions(paths: Seq<Seq<char>>, places: Seq<Place>, tried: nat, broken: bool)
    requires
        places.len() == paths.len(),
        tried <= paths.len(),
    ensures
        ({
            let first = first_readable(places, tried);
            let all = load_actions(paths, places, tried, broken);
            &&& tried <= first <= paths.len()
            &&& first < paths.len() ==> places[first as int] is Readable
            &&& forall|i: int| tried <= i < first ==> #[trigger] places[i] !is Readable
            &&& all.len() == first - tried + 1
            &&& forall|i: int|
                0 <= i < first - tried ==> #[trigger] all[i] == LoadActionView::Read(paths[tried + i])
            &&& all.last() == next_load_action(
                paths,
                first,
                broken || exists|i: int| tried <= i < first && #[trigger] places[i] is Unreadable,
            )
        }),
    decreases paths.len() - tried,
{
    if tried < paths.len() && places[tried as int] !is Readable {
        let more = broken || places[tried as int] is Unreadable;
        lemma_load_actions(paths, places, tried + 1, more);
        let rest = load_actions(paths, places, tried + 1, more);
        let all = load_actions(paths, places, tried, broken);
        assert forall|i: int| 0 <= i < first_readable(places, tried) - tried implies
            #[trigger] all[i] == LoadActionView::Read(paths[tried + i]) by {
            if i > 0 {
                assert(all[i] == rest[i - 1]);
            }
        }
        assert(all.last() == rest.last());
    }
}

/// The search reads the places in order and stops at the first file that can be read, be there
/// files before it that cannot or not.
pub proof fn loading_takes_the_first_readable_file(
    paths: Seq<Seq<char>>,
    places: Seq<Place>,
    first: int,
)
    requires
        places.len() == paths.len(),
        0 <= first < paths.len(),
        places[first] is Readable,
        forall|i: int| 0 <= i < first ==> places[i] !is Readable,
    ensures
        load_actions(paths, places, 0, false) == Seq::new(
            (first + 1) as nat,
            |i: int| LoadActionView::Read(paths[i]),
        ),
{
    lemma_load_actions(paths, places, 0, false);
    let all = load_actions(paths, places, 0, false);
    let found = first_readable(places, 0);
    assert(places[found as int] is Readable || found == paths.len());
    assert(found == first);
    assert(all =~= Seq::new((first + 1) as nat, |i: int| LoadActionView::Read(paths[i])));
}

/// Loading never overwrites a file that is there, be it one that does not parse or one that cannot
/// be read: it writes only as its last action, to the first place, and exactly where there is no
/// file at any place. Where there are files and none can be read, it ends by giving up.
pub proof fn loading_spares_existing_files(paths: Seq<Seq<char>>, places: Seq<Place>)
    requires
        places.len() == paths.len(),
        paths.len() > 0,
    ensures
        ({
            let all = load_actions(paths, places, 0, false);
            let none = forall|i: int| 0 <= i < places.len() ==> #[trigger] places[i] is Missing;
            let unread = forall|i: int| 0 <= i < places.len() ==> #[trigger] places[i] !is Readable;
            &&& all.len() > 0
            &&& forall|i: int| 0 <= i < all.len() - 1 ==> #[trigger] all[i] is Read
            &&& all.last() is Create <==> none
            &&& none ==> all.last() == LoadActionView::Create(paths[0])
            &&& all.last() is GiveUp <==> unread && !none
        }),
{
    lemma_load_actions(paths, places, 0, false);
    let found = first_readable(places, 0);
    if found < paths.len() {
        assert(places[found as int] is Readable);
    } else {
        assert forall|i: int| 0 <= i < places.len() implies #[trigger] places[i] !is Readable by {}
        if !(forall|i: int| 0 <= i < places.len() ==> #[trigger] places[i] is Missing) {
            let i = choose|i: int| 0 <= i < places.len() && !(#[trigger] places[i] is Missing);
            assert(places[i] is Unreadable);
        }
    }
}

impl Config {
    /// Begins the search for the settings file; `exe_dir` is the folder of the program, where it
    /// is known.
    pub fn load(exe_dir: Option<&str>) -> (r: Loading)
        ensures
            r.wf(),
            r.tried == 0,
            r.broken is None,
            texts(r.paths@) == candidates(
                match exe_dir {
                    Some(dir) => Some(dir@),
                    None => None,
                },
            ),
    {
        let paths = Config::candidate_paths(exe_dir);
        assert(texts(paths@).len() == paths@.len());
        Loading { paths, tried: 0, broken: None }
    }

    /// The places where the settings file is looked for.
    pub fn candidate_paths(exe_dir: Option<&str>) -> (r: Vec<String>)
        ensures
            texts(r@) == candidates(
                match exe_dir {
                    Some(dir) => Some(dir@),
                    None => None,
                },
            ),
    {
        let mut paths: Vec<String> = Vec::new();
        if let Some(dir) = exe_dir {
            paths.push(join_path(dir, "pocket_calibre.toml"));
        }
        paths.push("/mnt/ext1/applications/pocket_calibre.toml".to_string());
        paths.push("/mnt/ext1/system/config/pocket_calibre.toml".to_string());
        assert(texts(paths@) =~= candidates(
            match exe_dir {
                Some(dir) => Some(dir@),
                None => None,
            },
        ));
        paths
    }

    /// What is written to disk for settings whose serialized form is `body`.
    pub fn save(body: &str) -> (r: String)
        ensures
            r@ == HEADER@ + body@,
    {
        let mut out: String = HEADER.to_string();
        out.append(body);
        out
    }
}

/// Whether every line of a text is a comment or empty, and the last one is complete.
pub open spec fn only_comments(text: Seq<char>) -> bool {
    &&& text.len() > 0
    &&& text.last() == '\n'
    &&& forall|i: int|
        0 <= i < text.len() && (i == 0 || #[trigger] text[i - 1] == '\n') ==> text[i] == '#' || text[i]
            == '\n'
}

/// The header takes nothing away from the settings and adds none: it is made of whole lines, each of
/// them a comment or empty, so that the serialized settings begin on a line of their own.
pub proof fn the_header_is_comment()
    ensures
        only_comments(HEADER@),
{
    reveal_strlit("# pocket_calibre settings. Rewritten by the in-app settings screen.\n# server        — calibre content server address\n# user/password — if the server requires auth (basic only)\n# library       — library id; the server default is used when absent\n# formats       — in order of preference, the first available one is downloaded\n# language      — ui language: omit the key for auto, or set en / ru\n\n");
    assert(HEADER@ == "# pocket_calibre settings. Rewritten by the in-app settings screen.\n# server        — calibre content server address\n# user/password — if the server requires auth (basic only)\n# library       — library id; the server default is used when absent\n# formats       — in order of preference, the first available one is downloaded\n# language      — ui language: omit the key for auto, or set en / ru\n\n"@);
}

/// Whether the file system of the device may object to `c` in a file name.
pub open spec fn forbidden(c: char) -> bool {
    ||| c == '/'
    ||| c == '\\'
    ||| c == ':'
    ||| c == '*'
    ||| c == '?'
    ||| c == '"'
    ||| c == '<'
    ||| c == '>'
    ||| c == '|'
    ||| c < ' '
}

/// A character of a file name, with `_` for those that are forbidden.
pub open spec fn permitted(c: char) -> char {
    if forbidden(c) {
        '_'
    } else {
        c
    }
}

/// A name without white space in front and without dots or white space at the end.
pub open spec fn edges_cleaned(name: Seq<char>) -> Seq<char> {
    strip_end(strip_start(name, Strip::Space), Strip::DotOrSpace)
}

/// The longest file name, in characters.
pub const NAME_LIMIT: usize = 120;

/// The file name that `sanitize_filename` makes.
pub open spec fn sanitized(name: Seq<char>) -> Seq<char> {
    let cleaned = edges_cleaned(name.map_values(|c: char| permitted(c)));
    let cut = if cleaned.len() > NAME_LIMIT {
        edges_cleaned(cleaned.take(NAME_LIMIT as int))
    } else {
        cleaned
    };
    if cut.len() == 0 {
        "book"@
    } else {
        cut
    }
}

/// Removes from a file name whatever the FAT partition of the device may dislike.
pub fn sanitize_filename(name: &str) -> (r: String)
    ensures
        r@ == sanitized(name@),
{
    let chars = chars_of(name);
    let mut mapped: String = String::new();
    for i in 0..chars.len()
        invariant
            chars@ == name@,
            mapped@ == name@.map_values(|c: char| permitted(c)).take(i as int),
    {
        let c = chars[i];
        let forbidden_here = c == '/' || c == '\\' || c == ':' || c == '*' || c == '?' || c == '"'
            || c == '<' || c == '>' || c == '|' || c < ' ';
        mapped.push(
            if forbidden_here {
                '_'
            } else {
                c
            },
        );
        assert(mapped@ =~= name@.map_values(|c: char| permitted(c)).take(i + 1));
    }
    assert(mapped@ =~= name@.map_values(|c: char| permitted(c)));
    let mut cleaned: String = strip(mapped.as_str(), Some(Strip::Space), Strip::DotOrSpace);
    if cleaned.as_str().unicode_len() > NAME_LIMIT {
        // The cut can leave at the end the very dot or space that was stripped before.
        let head = cleaned.as_str().substring_char(0, NAME_LIMIT).to_string();
        assert(head@ =~= cleaned@.take(NAME_LIMIT as int));
        cleaned = strip(head.as_str(), Some(Strip::Space), Strip::DotOrSpace);
    }
    if cleaned.as_str().is_empty() {
        "book".to_string()
    } else {
        cleaned
    }
}

/// What every file name must be: of 1 to 120 characters, none of them forbidden, without white
/// space in front and without a dot or white space at the end.
pub open spec fn safe_name(name: Seq<char>) -> bool {
    &&& 0 < name.len() <= NAME_LIMIT
    &&& forall|i: int| 0 <= i < name.len() ==> !forbidden(#[trigger] name[i])
    &&& !white_space(name[0])
    &&& name.last() != '.'
    &&& !white_space(name.last())
}

/// Cleaning the edges takes characters away at both ends and nowhere else.
proof fn lemma_edges(name: Seq<char>)
    ensures
        edges_cleaned(name).len() <= name.len(),
        forall|i: int|
            0 <= i < edges_cleaned(name).len() ==> name.contains(#[trigger] edges_cleaned(name)[i]),
        edges_cleaned(name).len() > 0 ==> !white_space(edges_cleaned(name)[0])
            && !white_space(edges_cleaned(name).last()) && edges_cleaned(name).last() != '.',
{
    let a = strip_start(name, Strip::Space);
    let b = edges_cleaned(name);
    lemma_strip_start(name, Strip::Space);
    lemma_strip_end(a, Strip::DotOrSpace);
    assert forall|i: int| 0 <= i < b.len() implies name.contains(#[trigger] b[i]) by {
        assert(b[i] == a[i]);
        assert(a[i] == name[name.len() - a.len() + i]);
    }
    if b.len() > 0 {
        assert(b[0] == a[0]);
    }
}

/// Whatever the name, what `sanitize_filename` makes of it is a safe file name.
pub proof fn sanitized_names_are_safe(name: Seq<char>)
    ensures
        safe_name(sanitized(name)),
{
    let mapped = name.map_values(|c: char| permitted(c));
    let cleaned = edges_cleaned(mapped);
    lemma_edges(mapped);
    lemma_edges(cleaned.take(NAME_LIMIT as int));
    reveal_strlit("book");
    let result = sanitized(name);
    assert forall|i: int| 0 <= i < cleaned.len() implies !forbidden(#[trigger] cleaned[i]) by {
        let j = choose|j: int| 0 <= j < mapped.len() && mapped[j] == cleaned[i];
        assert(mapped[j] == permitted(name[j]));
    }
    assert forall|i: int| 0 <= i < result.len() implies !forbidden(#[trigger] result[i]) by {
        if cleaned.len() > NAME_LIMIT && edges_cleaned(cleaned.take(NAME_LIMIT as int)).len() > 0 {
            let head = cleaned.take(NAME_LIMIT as int);
            assert(head.contains(result[i]));
            let j = choose|j: int| 0 <= j < head.len() && head[j] == result[i];
            assert(head[j] == cleaned[j]);
        }
    }
}

/// A safe file name is left as it is; so sanitizing twice is sanitizing once.
pub proof fn safe_names_stay(name: Seq<char>)
    requires
        safe_name(name),
    ensures
        sanitized(name) == name,
{
    assert(name.map_values(|c: char| permitted(c)) =~= name);
}

/// Sanitizing twice is sanitizing once.
pub proof fn sanitizing_is_idempotent(name: Seq<char>)
    ensures
        sanitized(sanitized(name)) == sanitized(name),
{
    sanitized_names_are_safe(name);
    safe_names_stay(sanitized(name));
}

} // verus!
