//! Resolving bare window classes (e.g. "code", "firefox") to display names and
//! icons from freedesktop.org `.desktop` entries: the entry parser, the lookup
//! table it fills, and where the entries are looked for.
//!
//! Only the keys that matter here are read: `Type`, `Name`, `Name[<locale>]`,
//! `Icon`, `StartupWMClass`, `NoDisplay` and `Hidden`, inside the
//! `[Desktop Entry]` group.
use vstd::prelude::*;
use crate::paths::{join, join_spec};
use crate::text::{
    chars_eq, chars_eq_ignore_ascii_case, chars_of, eq_ignore_ascii_case, find_char,
    first_index_of, last_index_of, lowercase, rfind_char, slice_chars, split_lines,
    split_lines_chars, string_of, to_lowercase, trim, trim_chars, views, lemma_trim_idempotent,
};

verus! {

// ---------------------------------------------------------------------------
// Escapes
// ---------------------------------------------------------------------------

/// What a backslash followed by `c` decodes to.
pub open spec fn escape_pair(c: char) -> Seq<char> {
    if c == 's' {
        seq![' ']
    } else if c == 'n' {
        seq!['\n']
    } else if c == 't' {
        seq!['\t']
    } else if c == 'r' {
        seq!['\r']
    } else if c == '\\' {
        seq!['\\']
    } else {
        seq!['\\', c]
    }
}

/// Freedesktop string-value escapes (`\s`, `\n`, `\t`, `\r`, `\\`) decoded;
/// an unknown escape is kept as written, a trailing lone `\` too.
pub open spec fn unescape_spec(s: Seq<char>) -> Seq<char>
    decreases s.len(),
{
    if s.len() == 0 {
        Seq::empty()
    } else if s[0] == '\\' {
        if s.len() == 1 {
            seq!['\\']
        } else {
            escape_pair(s[1]) + unescape_spec(s.skip(2))
        }
    } else {
        seq![s[0]] + unescape_spec(s.skip(1))
    }
}

fn unescape_chars(s: &Vec<char>) -> (r: Vec<char>)
    ensures
        r@ == unescape_spec(s@),
{
    let mut out: Vec<char> = Vec::new();
    let mut i: usize = 0;
    assert(s@.skip(0) =~= s@);
    assert(out@ + unescape_spec(s@) =~= unescape_spec(s@));
    while i < s.len()
        invariant
            i <= s.len(),
            out@ + unescape_spec(s@.skip(i as int)) == unescape_spec(s@),
        decreases s.len() - i,
    {
        let ghost rest = s@.skip(i as int);
        let c = s[i];
        if c == '\\' {
            if i + 1 < s.len() {
                let d = s[i + 1];
                assert(rest.skip(2) =~= s@.skip(i + 2));
                let ghost before = out@;
                if d == 's' {
                    out.push(' ');
                } else if d == 'n' {
                    out.push('\n');
                } else if d == 't' {
                    out.push('\t');
                } else if d == 'r' {
                    out.push('\r');
                } else if d == '\\' {
                    out.push('\\');
                } else {
                    out.push('\\');
                    out.push(d);
                }
                assert(out@ =~= before + escape_pair(d));
                assert(out@ + unescape_spec(s@.skip(i + 2)) =~= before + (escape_pair(d)
                    + unescape_spec(s@.skip(i + 2))));
                i = i + 2;
            } else {
                assert(rest.len() == 1);
                let ghost before = out@;
                out.push('\\');
                assert(s@.skip(i + 1).len() == 0);
                assert(out@ + unescape_spec(s@.skip(i + 1)) =~= before + seq!['\\']);
                i = i + 1;
            }
        } else {
            assert(rest.skip(1) =~= s@.skip(i + 1));
            let ghost before = out@;
            out.push(c);
            assert(out@ + unescape_spec(s@.skip(i + 1)) =~= before + (seq![c] + unescape_spec(
                s@.skip(i + 1),
            )));
            i = i + 1;
        }
    }
    assert(s@.skip(s@.len() as int) =~= Seq::<char>::empty());
    assert(out@ + Seq::<char>::empty() =~= out@);
    out
}

/// Decodes freedesktop escape sequences in a `.desktop` string value.
pub fn unescape(s: &str) -> (r: String)
    ensures
        r@ == unescape_spec(s@),
{
    string_of(&unescape_chars(&chars_of(s)))
}

// ---------------------------------------------------------------------------
// File names and locale
// ---------------------------------------------------------------------------

/// Position of the dot that starts a file name's extension: the last `.`,
/// unless it is the first character (a hidden file has no extension) or the
/// name is `..`.
pub open spec fn extension_dot(name: Seq<char>) -> Option<int> {
    if name == ".."@ {
        None
    } else if exists|i: int| last_index_of(name, '.', i) && i > 0 {
        Some(choose|i: int| last_index_of(name, '.', i) && i > 0)
    } else {
        None
    }
}

/// `Path::file_stem` of a file name.
pub open spec fn file_stem_spec(name: Seq<char>) -> Seq<char> {
    match extension_dot(name) {
        Some(i) => name.take(i),
        None => name,
    }
}

/// `Path::extension` of a file name.
pub open spec fn extension_spec(name: Seq<char>) -> Option<Seq<char>> {
    match extension_dot(name) {
        Some(i) => Some(name.skip(i + 1)),
        None => None,
    }
}

fn extension_dot_exec(name: &Vec<char>) -> (r: Option<usize>)
    ensures
        match r {
            Some(i) => extension_dot(name@) == Some(i as int) && 0 < i < name@.len(),
            None => extension_dot(name@) is None,
        },
{
    let dots = chars_of("..");
    proof {
        reveal_strlit("..");
    }
    if chars_eq(name, &dots) {
        return None;
    }
    match rfind_char(name, '.') {
        Some(i) => {
            proof {
                if exists|j: int| last_index_of(name@, '.', j) && j > 0 {
                    let j = choose|j: int| last_index_of(name@, '.', j) && j > 0;
                    assert(j == i as int) by {
                        if j < i {
                            assert(name@[i as int] == '.');
                        } else if j > i {
                            assert(name@[j] == '.');
                        }
                    }
                }
            }
            if i > 0 {
                Some(i)
            } else {
                None
            }
        },
        None => None,
    }
}

/// The file name without its extension (`Path::file_stem`).
pub fn file_stem(name: &str) -> (r: String)
    ensures
        r@ == file_stem_spec(name@),
{
    let v = chars_of(name);
    match extension_dot_exec(&v) {
        Some(i) => string_of(&slice_chars(&v, 0, i)),
        None => name.to_owned(),
    }
}

/// Whether the file name's extension is exactly `desktop`.
pub fn is_desktop_file(name: &str) -> (r: bool)
    ensures
        r == (extension_spec(name@) == Some("desktop"@)),
{
    let v = chars_of(name);
    let ext = chars_of("desktop");
    match extension_dot_exec(&v) {
        Some(i) => {
            let e = slice_chars(&v, i + 1, v.len());
            assert(e@ == v@.skip(i + 1));
            chars_eq(&e, &ext)
        },
        None => false,
    }
}

/// Language tag of a locale value: what precedes the first `.` or `@`
/// (`zh_CN` for `zh_CN.UTF-8`).
pub open spec fn locale_tag_spec(lang: Seq<char>) -> Seq<char> {
    if exists|i: int| 0 <= i < lang.len() && (lang[i] == '.' || lang[i] == '@') {
        lang.take(
            choose|i: int|
                0 <= i < lang.len() && (lang[i] == '.' || lang[i] == '@') && forall|k: int|
                    0 <= k < i ==> lang[k] != '.' && lang[k] != '@',
        )
    } else {
        lang
    }
}

pub fn locale_tag(lang: &str) -> (r: String)
    ensures
        r@ == locale_tag_spec(lang@),
{
    let v = chars_of(lang);
    let mut i: usize = 0;
    while i < v.len()
        invariant
            i <= v.len(),
            v@ == lang@,
            forall|k: int| 0 <= k < i ==> v@[k] != '.' && v@[k] != '@',
        decreases v.len() - i,
    {
        if v[i] == '.' || v[i] == '@' {
            proof {
                let j = choose|j: int|
                    0 <= j < lang@.len() && (lang@[j] == '.' || lang@[j] == '@') && forall|k: int|
                        0 <= k < j ==> lang@[k] != '.' && lang@[k] != '@';
                assert(j == i as int) by {
                    if j < i {
                        assert(v@[j] != '.' && v@[j] != '@');
                    } else if j > i {
                        assert(!(lang@[i as int] != '.' && lang@[i as int] != '@'));
                    }
                }
            }
            return string_of(&slice_chars(&v, 0, i));
        }
        i = i + 1;
    }
    lang.to_owned()
}

/// The current locale's language tag, from `$LANG`, else `$LC_MESSAGES`
/// (each given when set), else empty.
pub fn current_locale(lang: &Option<String>, lc_messages: &Option<String>) -> (r: String)
    ensures
        r@ == locale_tag_spec(
            match opt_view(*lang) {
                Some(l) => l,
                None => match opt_view(*lc_messages) {
                    Some(m) => m,
                    None => Seq::<char>::empty(),
                },
            },
        ),
{
    match lang {
        Some(l) => locale_tag(l.as_str()),
        None => match lc_messages {
            Some(m) => locale_tag(m.as_str()),
            None => {
                proof {
                    reveal_strlit("");
                }
                locale_tag("")
            },
        },
    }
}

// ---------------------------------------------------------------------------
// Where entries are looked for
// ---------------------------------------------------------------------------

/// The non-empty `:`-separated pieces of `s`, in order.
pub open spec fn colon_pieces_acc(s: Seq<char>) -> (Seq<Seq<char>>, Seq<char>)
    decreases s.len(),
{
    if s.len() == 0 {
        (Seq::empty(), Seq::empty())
    } else {
        let (done, cur) = colon_pieces_acc(s.drop_last());
        if s.last() == ':' {
            if cur.len() > 0 {
                (done.push(cur), Seq::empty())
            } else {
                (done, cur)
            }
        } else {
            (done, cur.push(s.last()))
        }
    }
}

pub open spec fn colon_pieces(s: Seq<char>) -> Seq<Seq<char>> {
    let (done, cur) = colon_pieces_acc(s);
    if cur.len() > 0 {
        done.push(cur)
    } else {
        done
    }
}

fn colon_pieces_exec(s: &Vec<char>) -> (r: Vec<Vec<char>>)
    ensures
        views(r@) == colon_pieces(s@),
{
    let mut done: Vec<Vec<char>> = Vec::new();
    let mut cur: Vec<char> = Vec::new();
    let mut i: usize = 0;
    while i < s.len()
        invariant
            i <= s.len(),
            (views(done@), cur@) == colon_pieces_acc(s@.take(i as int)),
        decreases s.len() - i,
    {
        proof {
            assert(s@.take(i + 1).drop_last() =~= s@.take(i as int));
        }
        if s[i] == ':' {
            if cur.len() > 0 {
                let piece = cur;
                cur = Vec::new();
                done.push(piece);
                proof {
                    assert(views(done@) =~= views(done@.drop_last()).push(piece@));
                }
            }
        } else {
            cur.push(s[i]);
        }
        i = i + 1;
    }
    proof {
        assert(s@.take(s@.len() as int) =~= s@);
    }
    if cur.len() > 0 {
        let piece = cur;
        done.push(piece);
        proof {
            assert(views(done@) =~= views(done@.drop_last()).push(piece@));
        }
    }
    done
}

pub open spec fn string_views(v: Seq<String>) -> Seq<Seq<char>> {
    v.map_values(|s: String| s@)
}

/// The application directories to scan, in order: `$XDG_DATA_HOME/applications`
/// (else `$HOME/.local/share/applications`), then `applications` under each
/// non-empty entry of `$XDG_DATA_DIRS` (default `/usr/local/share:/usr/share`).
pub open spec fn scan_directories_spec(
    xdg_data_home: Option<Seq<char>>,
    home: Option<Seq<char>>,
    xdg_data_dirs: Option<Seq<char>>,
) -> Seq<Seq<char>> {
    let first: Seq<Seq<char>> = match (xdg_data_home, home) {
        (Some(x), _) => seq![join_spec(x, "applications"@)],
        (None, Some(h)) => seq![join_spec(h, ".local/share/applications"@)],
        (None, None) => Seq::empty(),
    };
    let dirs = match xdg_data_dirs {
        Some(d) => d,
        None => "/usr/local/share:/usr/share"@,
    };
    first + colon_pieces(dirs).map_values(|d: Seq<char>| join_spec(d, "applications"@))
}

pub open spec fn opt_view(o: Option<String>) -> Option<Seq<char>> {
    match o {
        Some(s) => Some(s@),
        None => None,
    }
}

/// Directories to scan for `.desktop` files, from the environment values
/// (each given when set).
pub fn scan_directories(
    xdg_data_home: &Option<String>,
    home: &Option<String>,
    xdg_data_dirs: &Option<String>,
) -> (dirs: Vec<String>)
    ensures
        string_views(dirs@) == scan_directories_spec(
            opt_view(*xdg_data_home),
            opt_view(*home),
            opt_view(*xdg_data_dirs),
        ),
{
    let mut dirs: Vec<String> = Vec::new();
    match xdg_data_home {
        Some(x) => dirs.push(join(x.as_str(), "applications")),
        None => match home {
            Some(h) => dirs.push(join(h.as_str(), ".local/share/applications")),
            None => {},
        },
    }
    let ghost first = string_views(dirs@);
    let data_dirs = match xdg_data_dirs {
        Some(d) => chars_of(d.as_str()),
        None => chars_of("/usr/local/share:/usr/share"),
    };
    let pieces = colon_pieces_exec(&data_dirs);
    let ghost pv = views(pieces@);
    let mut i: usize = 0;
    while i < pieces.len()
        invariant
            i <= pieces@.len(),
            pv == views(pieces@),
            pv.len() == pieces@.len(),
            string_views(dirs@) == first + pv.take(i as int).map_values(
                |d: Seq<char>| join_spec(d, "applications"@),
            ),
        decreases pieces@.len() - i,
    {
        let p = string_of(&pieces[i]);
        assert(pv[i as int] == pieces@[i as int]@);
        let ghost before = string_views(dirs@);
        dirs.push(join(p.as_str(), "applications"));
        proof {
            assert(string_views(dirs@) =~= before.push(join_spec(pv[i as int], "applications"@)));
            assert(pv.take(i + 1) =~= pv.take(i as int).push(pv[i as int]));
            assert(pv.take(i + 1).map_values(|d: Seq<char>| join_spec(d, "applications"@))
                =~= pv.take(i as int).map_values(|d: Seq<char>| join_spec(d, "applications"@)).push(
                join_spec(pv[i as int], "applications"@),
            ));
        }
        i = i + 1;
    }
    proof {
        assert(pv.take(pv.len() as int) =~= pv);
    }
    dirs
}

// ---------------------------------------------------------------------------
// The entry parser
// ---------------------------------------------------------------------------

/// What the parser has gathered so far from the lines of a `.desktop` file.
pub struct ScanState {
    pub in_entry: bool,
    pub name: Option<Seq<char>>,
    pub localized: Option<Seq<char>>,
    pub icon: Option<Seq<char>>,
    pub wm_class: Option<Seq<char>>,
    pub entry_type: Option<Seq<char>>,
    pub no_display: bool,
    pub hidden: bool,
}

pub open spec fn initial_scan() -> ScanState {
    ScanState {
        in_entry: false,
        name: None,
        localized: None,
        icon: None,
        wm_class: None,
        entry_type: None,
        no_display: false,
        hidden: false,
    }
}

/// `str::split_once('=')`.
pub open spec fn split_once_eq(t: Seq<char>) -> Option<(Seq<char>, Seq<char>)> {
    if exists|i: int| first_index_of(t, '=', i) {
        let i = choose|i: int| first_index_of(t, '=', i);
        Some((t.take(i), t.skip(i + 1)))
    } else {
        None
    }
}

/// A `Name[<lang>]` key.
pub open spec fn is_localized_name_key(key: Seq<char>) -> bool {
    key.len() >= 6 && key.take(5) == "Name["@ && key.last() == ']'
}

/// Effect of one `key=value` pair inside `[Desktop Entry]`. The first `Type`,
/// `Name`, `Icon` and `StartupWMClass` win; a `Name[<lang>]` whose language
/// matches the locale (ignoring ASCII case) sets the localized name wherever
/// it stands relative to `Name`, the last such line winning; `NoDisplay` / `Hidden` set to
/// `true` (any ASCII case) mark the entry.
pub open spec fn key_step(st: ScanState, key: Seq<char>, value: Seq<char>, locale: Seq<char>) -> ScanState {
    if key == "Type"@ {
        if st.entry_type is None {
            ScanState { entry_type: Some(value), ..st }
        } else {
            st
        }
    } else if key == "Name"@ {
        if st.name is None {
            ScanState { name: Some(unescape_spec(value)), ..st }
        } else {
            st
        }
    } else if is_localized_name_key(key) {
        if eq_ignore_ascii_case(key.subrange(5, key.len() - 1), locale) {
            ScanState { localized: Some(unescape_spec(value)), ..st }
        } else {
            st
        }
    } else if key == "Icon"@ {
        if st.icon is None {
            ScanState { icon: Some(unescape_spec(value)), ..st }
        } else {
            st
        }
    } else if key == "StartupWMClass"@ {
        if st.wm_class is None {
            ScanState { wm_class: Some(unescape_spec(value)), ..st }
        } else {
            st
        }
    } else if key == "NoDisplay"@ {
        if eq_ignore_ascii_case(value, "true"@) {
            ScanState { no_display: true, ..st }
        } else {
            st
        }
    } else if key == "Hidden"@ {
        if eq_ignore_ascii_case(value, "true"@) {
            ScanState { hidden: true, ..st }
        } else {
            st
        }
    } else {
        st
    }
}

/// Effect of one line: blank lines and `#` / `;` comments are skipped, a
/// `[Group]` header switches groups, and only lines of `[Desktop Entry]`
/// that contain `=` are read (key and value trimmed).
pub open spec fn line_step(st: ScanState, line: Seq<char>, locale: Seq<char>) -> ScanState {
    let t = trim(line);
    if t.len() == 0 || t[0] == '#' || t[0] == ';' {
        st
    } else if t[0] == '[' && t.last() == ']' {
        ScanState { in_entry: t.subrange(1, t.len() - 1) == "Desktop Entry"@, ..st }
    } else if !st.in_entry {
        st
    } else {
        match split_once_eq(t) {
            Some((k, v)) => key_step(st, trim(k), trim(v), locale),
            None => st,
        }
    }
}

pub open spec fn scan_lines(lines: Seq<Seq<char>>, locale: Seq<char>) -> ScanState
    decreases lines.len(),
{
    if lines.len() == 0 {
        initial_scan()
    } else {
        line_step(scan_lines(lines.drop_last(), locale), lines.last(), locale)
    }
}

/// A `[Group]` header line.
pub open spec fn is_group_header(line: Seq<char>) -> bool {
    let t = trim(line);
    t.len() > 0 && t[0] == '[' && t.last() == ']'
}

/// The name of the group a header line opens.
pub open spec fn group_name(line: Seq<char>) -> Seq<char> {
    let t = trim(line);
    t.subrange(1, t.len() - 1)
}

/// What the scanned lines say of the entry, whatever group is open.
pub open spec fn same_entry(a: ScanState, b: ScanState) -> bool {
    &&& a.name == b.name
    &&& a.localized == b.localized
    &&& a.icon == b.icon
    &&& a.wm_class == b.wm_class
    &&& a.entry_type == b.entry_type
    &&& a.no_display == b.no_display
    &&& a.hidden == b.hidden
}

/// Only `[Desktop Entry]` is read: appending to a file a group of any other
/// name, with whatever key lines, changes nothing of the entry, even when a
/// `[Desktop Entry]` group came before it.
pub proof fn law_other_groups_are_ignored(lines: Seq<Seq<char>>, header: Seq<char>, more: Seq<Seq<char>>, locale: Seq<char>)
    requires
        is_group_header(header),
        group_name(header) != "Desktop Entry"@,
        forall|i: int| 0 <= i < more.len() ==> !is_group_header(#[trigger] more[i]),
    ensures
        same_entry(scan_lines(lines + seq![header] + more, locale), scan_lines(lines, locale)),
        !scan_lines(lines + seq![header] + more, locale).in_entry,
        accepted(scan_lines(lines + seq![header] + more, locale)) == accepted(scan_lines(lines, locale)),
    decreases more.len(),
{
    if more.len() == 0 {
        let all = lines + seq![header] + more;
        assert(all.drop_last() =~= lines);
        assert(all.last() == header);
    } else {
        let all = lines + seq![header] + more;
        let m = more.drop_last();
        assert forall|i: int| 0 <= i < m.len() implies !is_group_header(#[trigger] m[i]) by {
            assert(m[i] == more[i]);
        }
        law_other_groups_are_ignored(lines, header, m, locale);
        assert(all.drop_last() =~= lines + seq![header] + m);
        assert(all.last() == more[more.len() - 1]);
        assert(!is_group_header(more[more.len() - 1]));
    }
}

/// Whether the scanned file is a visible application entry with a `Name`.
pub open spec fn accepted(st: ScanState) -> bool {
    &&& !st.no_display
    &&& !st.hidden
    &&& (st.entry_type matches Some(t) ==> eq_ignore_ascii_case(t, "Application"@))
    &&& st.name is Some
}

/// Metadata resolved for one application: its desktop id (the `.desktop`
/// file name), display name and icon name.
#[derive(Debug, PartialEq, Eq)]
pub struct AppMetadata {
    pub desktop_id: String,
    pub display_name: String,
    pub icon: String,
}

impl Clone for AppMetadata {
    fn clone(&self) -> (r: Self)
        ensures
            r == *self,
    {
        AppMetadata {
            desktop_id: self.desktop_id.clone(),
            display_name: self.display_name.clone(),
            icon: self.icon.clone(),
        }
    }
}

/// (desktop id, display name, icon).
pub type MetadataView = (Seq<char>, Seq<char>, Seq<char>);

impl AppMetadata {
    pub open spec fn view(&self) -> MetadataView {
        (self.desktop_id@, self.display_name@, self.icon@)
    }
}

/// One parsed `.desktop` file, with the keys it can be looked up by.
#[derive(Debug, Clone)]
pub struct DesktopEntry {
    pub metadata: AppMetadata,
    pub startup_wm_class: Option<String>,
    pub stem: String,
    pub name: String,
}

/// The entry a file yields: display name is the localized name when one
/// matched, else the plain name; a missing icon is empty.
pub struct EntryView {
    pub metadata: MetadataView,
    pub startup_wm_class: Option<Seq<char>>,
    pub stem: Seq<char>,
    pub name: Seq<char>,
}

impl DesktopEntry {
    pub open spec fn view(&self) -> EntryView {
        EntryView {
            metadata: self.metadata.view(),
            startup_wm_class: opt_view(self.startup_wm_class),
            stem: self.stem@,
            name: self.name@,
        }
    }
}

/// The entry parsed from a file's text, its file name and the locale.
pub open spec fn parse_spec(content: Seq<char>, file_name: Seq<char>, locale: Seq<char>) -> Option<EntryView> {
    let st = scan_lines(split_lines(content), locale);
    if accepted(st) {
        let name = st.name->0;
        Some(
            EntryView {
                metadata: (
                    file_name,
                    match st.localized {
                        Some(l) => l,
                        None => name,
                    },
                    match st.icon {
                        Some(i) => i,
                        None => Seq::<char>::empty(),
                    },
                ),
                startup_wm_class: st.wm_class,
                stem: file_stem_spec(file_name),
                name,
            },
        )
    } else {
        None
    }
}

/// Executable form of `ScanState`.
struct Scanner {
    in_entry: bool,
    name: Option<Vec<char>>,
    localized: Option<Vec<char>>,
    icon: Option<Vec<char>>,
    wm_class: Option<Vec<char>>,
    entry_type: Option<Vec<char>>,
    no_display: bool,
    hidden: bool,
}

pub open spec fn chars_opt_view(o: Option<Vec<char>>) -> Option<Seq<char>> {
    match o {
        Some(v) => Some(v@),
        None => None,
    }
}

impl Scanner {
    spec fn view(&self) -> ScanState {
        ScanState {
            in_entry: self.in_entry,
            name: chars_opt_view(self.name),
            localized: chars_opt_view(self.localized),
            icon: chars_opt_view(self.icon),
            wm_class: chars_opt_view(self.wm_class),
            entry_type: chars_opt_view(self.entry_type),
            no_display: self.no_display,
            hidden: self.hidden,
        }
    }
}

/// Literal texts the parser compares keys against.
struct Keys {
    type_: Vec<char>,
    name: Vec<char>,
    name_open: Vec<char>,
    icon: Vec<char>,
    wm_class: Vec<char>,
    no_display: Vec<char>,
    hidden: Vec<char>,
    true_: Vec<char>,
    desktop_entry: Vec<char>,
}

impl Keys {
    spec fn wf(&self) -> bool {
        &&& self.type_@ == "Type"@
        &&& self.name@ == "Name"@
        &&& self.name_open@ == "Name["@
        &&& self.name_open@.len() == 5
        &&& self.icon@ == "Icon"@
        &&& self.wm_class@ == "StartupWMClass"@
        &&& self.no_display@ == "NoDisplay"@
        &&& self.hidden@ == "Hidden"@
        &&& self.true_@ == "true"@
        &&& self.desktop_entry@ == "Desktop Entry"@
    }

    fn new() -> (k: Self)
        ensures
            k.wf(),
    {
        proof {
            reveal_strlit("Name[");
        }
        Keys {
            type_: chars_of("Type"),
            name: chars_of("Name"),
            name_open: chars_of("Name["),
            icon: chars_of("Icon"),
            wm_class: chars_of("StartupWMClass"),
            no_display: chars_of("NoDisplay"),
            hidden: chars_of("Hidden"),
            true_: chars_of("true"),
            desktop_entry: chars_of("Desktop Entry"),
        }
    }
}

fn scan_key(st: &mut Scanner, key: &Vec<char>, value: &Vec<char>, locale: &Vec<char>, keys: &Keys)
    requires
        keys.wf(),
    ensures
        final(st).view() == key_step(old(st).view(), key@, value@, locale@),
{
    if chars_eq(key, &keys.type_) {
        if st.entry_type.is_none() {
            st.entry_type = Some(slice_chars(value, 0, value.len()));
            assert(value@.subrange(0, value@.len() as int) =~= value@);
        }
    } else if chars_eq(key, &keys.name) {
        if st.name.is_none() {
            st.name = Some(unescape_chars(value));
        }
    } else if key.len() >= 6 && crate::text::starts_with_chars(key, &keys.name_open) && key[key.len()
        - 1] == ']' {
        let lang = slice_chars(key, 5, key.len() - 1);
        if chars_eq_ignore_ascii_case(&lang, locale) {
            st.localized = Some(unescape_chars(value));
        }
    } else if chars_eq(key, &keys.icon) {
        if st.icon.is_none() {
            st.icon = Some(unescape_chars(value));
        }
    } else if chars_eq(key, &keys.wm_class) {
        if st.wm_class.is_none() {
            st.wm_class = Some(unescape_chars(value));
        }
    } else if chars_eq(key, &keys.no_display) {
        if chars_eq_ignore_ascii_case(value, &keys.true_) {
            st.no_display = true;
        }
    } else if chars_eq(key, &keys.hidden) {
        if chars_eq_ignore_ascii_case(value, &keys.true_) {
            st.hidden = true;
        }
    }
}

fn scan_line(st: &mut Scanner, line: &Vec<char>, locale: &Vec<char>, keys: &Keys)
    requires
        keys.wf(),
    ensures
        final(st).view() == line_step(old(st).view(), line@, locale@),
{
    let t = trim_chars(line);
    if t.len() == 0 || t[0] == '#' || t[0] == ';' {
        return;
    }
    if t[0] == '[' && t[t.len() - 1] == ']' {
        let group = slice_chars(&t, 1, t.len() - 1);
        st.in_entry = chars_eq(&group, &keys.desktop_entry);
        return;
    }
    if !st.in_entry {
        return;
    }
    match find_char(&t, '=') {
        Some(i) => {
            proof {
                let j = choose|j: int| first_index_of(t@, '=', j);
                assert(j == i as int) by {
                    if j < i {
                        assert(t@[j] == '=');
                    } else if j > i {
                        assert(t@[i as int] == '=');
                    }
                }
            }
            let k0 = slice_chars(&t, 0, i);
            let v0 = slice_chars(&t, i + 1, t.len());
            assert(k0@ == t@.take(i as int));
            assert(v0@ == t@.skip(i + 1));
            let k = trim_chars(&k0);
            let v = trim_chars(&v0);
            scan_key(st, &k, &v, locale, keys);
        },
        None => {},
    }
}

fn to_string_opt(o: &Option<Vec<char>>) -> (r: Option<String>)
    ensures
        opt_view(r) == chars_opt_view(*o),
{
    match o {
        Some(v) => Some(string_of(v)),
        None => None,
    }
}

/// Parses one `.desktop` file from its text and file name. `None` when it
/// is not a `Type=Application` entry, has no plain `Name`, or is marked
/// `NoDisplay=true` / `Hidden=true`.
pub fn parse_desktop_file_with_locale(content: &str, file_name: &str, locale: &str) -> (r: Option<
    DesktopEntry,
>)
    ensures
        match r {
            Some(e) => parse_spec(content@, file_name@, locale@) == Some(e.view()),
            None => parse_spec(content@, file_name@, locale@) is None,
        },
{
    let text = chars_of(content);
    let loc = chars_of(locale);
    let keys = Keys::new();
    let lines = split_lines_chars(&text);
    let ghost lv = views(lines@);
    let mut st = Scanner {
        in_entry: false,
        name: None,
        localized: None,
        icon: None,
        wm_class: None,
        entry_type: None,
        no_display: false,
        hidden: false,
    };
    let mut i: usize = 0;
    while i < lines.len()
        invariant
            i <= lines@.len(),
            keys.wf(),
            lv == views(lines@),
            lv.len() == lines@.len(),
            loc@ == locale@,
            st.view() == scan_lines(lv.take(i as int), locale@),
        decreases lines@.len() - i,
    {
        proof {
            assert(lv.take(i + 1).drop_last() =~= lv.take(i as int));
            assert(lv[i as int] == lines@[i as int]@);
        }
        scan_line(&mut st, &lines[i], &loc, &keys);
        i = i + 1;
    }
    proof {
        assert(lv.take(lv.len() as int) =~= lv);
    }
    if st.no_display || st.hidden {
        return None;
    }
    let application = chars_of("Application");
    match &st.entry_type {
        Some(t) => {
            if !chars_eq_ignore_ascii_case(t, &application) {
                return None;
            }
        },
        None => {},
    }
    let name = match &st.name {
        Some(n) => string_of(n),
        None => {
            return None;
        },
    };
    let display_name = match &st.localized {
        Some(l) => string_of(l),
        None => name.clone(),
    };
    let icon = match &st.icon {
        Some(ic) => string_of(ic),
        None => String::new(),
    };
    let wm = to_string_opt(&st.wm_class);
    Some(
        DesktopEntry {
            metadata: AppMetadata {
                desktop_id: file_name.to_owned(),
                display_name,
                icon,
            },
            startup_wm_class: wm,
            stem: file_stem(file_name),
            name,
        },
    )
}

/// Parses one `.desktop` file for the current locale (given by `$LANG`,
/// else `$LC_MESSAGES`, each when set).
pub fn parse_desktop_file(content: &str, file_name: &str, lang: &Option<String>, lc_messages: &Option<String>) -> (r: Option<DesktopEntry>)
    ensures
        ({
            let locale = locale_tag_spec(
                match opt_view(*lang) {
                    Some(l) => l,
                    None => match opt_view(*lc_messages) {
                        Some(m) => m,
                        None => Seq::<char>::empty(),
                    },
                },
            );
            match r {
                Some(e) => parse_spec(content@, file_name@, locale) == Some(e.view()),
                None => parse_spec(content@, file_name@, locale) is None,
            }
        }),
{
    let locale = current_locale(lang, lc_messages);
    parse_desktop_file_with_locale(content, file_name, locale.as_str())
}

// ---------------------------------------------------------------------------
// The lookup table
// ---------------------------------------------------------------------------

/// The lookup keys of an entry, most specific first, each marked with
/// whether it comes from `StartupWMClass`: its `StartupWMClass`, its file
/// stem (when not empty) and its `Name`, each lowercased and then trimmed.
pub open spec fn entry_keys(e: EntryView) -> Seq<(Seq<char>, bool)> {
    let wm: Seq<(Seq<char>, bool)> = match e.startup_wm_class {
        Some(w) => seq![(lowercase(w), true)],
        None => Seq::empty(),
    };
    let stem: Seq<(Seq<char>, bool)> = if lowercase(e.stem).len() > 0 {
        seq![(lowercase(e.stem), false)]
    } else {
        Seq::empty()
    };
    (wm + stem + seq![(lowercase(e.name), false)]).map_values(
        |k: (Seq<char>, bool)| (trim(k.0), k.1),
    )
}

/// What the table holds under a key: the metadata and whether the key was
/// claimed through a `StartupWMClass`.
pub type Claim = (MetadataView, bool);

/// Effect of one key: an empty key is skipped; a key not present yet is
/// claimed; a `StartupWMClass` key takes over a key that a stem or name
/// claimed; any other key already present keeps its entry.
pub open spec fn claim_key(m: Map<Seq<char>, Claim>, key: (Seq<char>, bool), meta: MetadataView) -> Map<Seq<char>, Claim> {
    let (k, wm) = key;
    if k.len() == 0 {
        m
    } else if !m.contains_key(k) || (wm && !m[k].1) {
        m.insert(k, (meta, wm))
    } else {
        m
    }
}

/// Claims each of `keys` for `meta`, in order.
pub open spec fn insert_keys(m: Map<Seq<char>, Claim>, keys: Seq<(Seq<char>, bool)>, meta: MetadataView) -> Map<Seq<char>, Claim>
    decreases keys.len(),
{
    if keys.len() == 0 {
        m
    } else {
        claim_key(insert_keys(m, keys.drop_last(), meta), keys.last(), meta)
    }
}

/// The table after registering `e`.
pub open spec fn insert_entry_spec(m: Map<Seq<char>, Claim>, e: EntryView) -> Map<Seq<char>, Claim> {
    insert_keys(m, entry_keys(e), e.metadata)
}

/// The key a window class is looked up by: trimmed, then lowercased.
pub open spec fn lookup_key(class: Seq<char>) -> Seq<char> {
    lowercase(trim(class))
}

/// Surrounding whitespace of a window class does not matter: a class and
/// its trimmed form are looked up by the same key, so `lookup` gives the
/// same answer for both.
pub proof fn law_lookup_ignores_surrounding_space(class: Seq<char>)
    ensures
        lookup_key(trim(class)) == lookup_key(class),
{
    lemma_trim_idempotent(class);
}

/// Lowercased lookup keys mapped to the metadata of the entry that claimed
/// them, and whether that claim came from a `StartupWMClass`.
#[derive(Debug)]
pub struct AppMetadataResolver {
    entries: Vec<(String, AppMetadata, bool)>,
}

pub open spec fn table_of(s: Seq<(String, AppMetadata, bool)>) -> Map<Seq<char>, Claim>
    decreases s.len(),
{
    if s.len() == 0 {
        Map::empty()
    } else {
        table_of(s.drop_last()).insert(s.last().0@, (s.last().1.view(), s.last().2))
    }
}

pub open spec fn table_keys(s: Seq<(String, AppMetadata, bool)>) -> Seq<Seq<char>> {
    s.map_values(|e: (String, AppMetadata, bool)| e.0@)
}

proof fn lemma_table_of(s: Seq<(String, AppMetadata, bool)>)
    requires
        table_keys(s).no_duplicates(),
    ensures
        forall|k: Seq<char>| #[trigger] table_of(s).contains_key(k) <==> table_keys(s).contains(k),
        forall|i: int| 0 <= i < s.len() ==> #[trigger] table_of(s)[s[i].0@] == (s[i].1.view(), s[i].2),
    decreases s.len(),
{
    if s.len() > 0 {
        let p = s.drop_last();
        let lk = s.last().0@;
        assert(table_keys(s) =~= table_keys(p).push(lk));
        assert(table_keys(p).no_duplicates()) by {
            assert forall|i: int, j: int|
                0 <= i < table_keys(p).len() && 0 <= j < table_keys(p).len() && i != j implies table_keys(p)[i]
                != table_keys(p)[j] by {
                assert(table_keys(p)[i] == table_keys(s)[i]);
                assert(table_keys(p)[j] == table_keys(s)[j]);
            }
        }
        lemma_table_of(p);
        assert(table_of(s) == table_of(p).insert(lk, (s.last().1.view(), s.last().2)));
        assert forall|k: Seq<char>| #[trigger] table_of(s).contains_key(k) <==> table_keys(s).contains(k) by {
            assert(table_of(s).contains_key(k) <==> (table_of(p).contains_key(k) || k == lk));
            assert(table_of(p).contains_key(k) <==> table_keys(p).contains(k));
            if table_keys(s).contains(k) {
                let j = choose|j: int| 0 <= j < table_keys(s).len() && table_keys(s)[j] == k;
                if j < s.len() - 1 {
                    assert(table_keys(p)[j] == k);
                    assert(table_keys(p).contains(k));
                }
            }
            if table_keys(p).contains(k) {
                let j = choose|j: int| 0 <= j < table_keys(p).len() && table_keys(p)[j] == k;
                assert(table_keys(s)[j] == k);
            }
            assert(table_keys(s)[s.len() - 1] == lk);
        }
        assert forall|i: int| 0 <= i < s.len() implies #[trigger] table_of(s)[s[i].0@] == (s[i].1.view(), s[i].2) by {
            if i < s.len() - 1 {
                assert(table_keys(s)[i] == s[i].0@);
                assert(table_keys(s)[s.len() - 1] == lk);
                assert(s[i].0@ != lk);
                assert(p[i] == s[i]);
                assert(table_of(p)[p[i].0@] == (p[i].1.view(), p[i].2));
            }
        }
    }
}

/// Replacing the claim stored at one position changes the table at that
/// position's key only.
proof fn lemma_table_update(s: Seq<(String, AppMetadata, bool)>, i: int, x: (String, AppMetadata, bool))
    requires
        table_keys(s).no_duplicates(),
        0 <= i < s.len(),
        x.0@ == s[i].0@,
    ensures
        table_keys(s.update(i, x)).no_duplicates(),
        table_of(s.update(i, x)) == table_of(s).insert(x.0@, (x.1.view(), x.2)),
{
    let t = s.update(i, x);
    assert(table_keys(t) =~= table_keys(s)) by {
        assert forall|j: int| 0 <= j < s.len() implies table_keys(t)[j] == table_keys(s)[j] by {
            if j != i {
                assert(t[j] == s[j]);
            }
        }
    }
    lemma_table_of(s);
    lemma_table_of(t);
    let goal = table_of(s).insert(x.0@, (x.1.view(), x.2));
    assert forall|k: Seq<char>| #[trigger] table_of(t).contains_key(k) <==> goal.contains_key(k) by {
        assert(table_keys(s)[i] == x.0@);
    }
    assert forall|k: Seq<char>| table_of(t).contains_key(k) implies #[trigger] table_of(t)[k] == goal[k] by {
        let j = choose|j: int| 0 <= j < table_keys(t).len() && table_keys(t)[j] == k;
        assert(table_of(t)[t[j].0@] == (t[j].1.view(), t[j].2));
        if j != i {
            assert(t[j] == s[j]);
            assert(table_of(s)[s[j].0@] == (s[j].1.view(), s[j].2));
            assert(table_keys(s)[j] != table_keys(s)[i]);
        }
    }
    assert(table_of(t) =~= goal);
}

impl AppMetadataResolver {
    /// No lookup key is stored twice.
    pub closed spec fn wf(&self) -> bool {
        table_keys(self.entries@).no_duplicates()
    }

    pub closed spec fn view(&self) -> Map<Seq<char>, Claim> {
        table_of(self.entries@)
    }

    /// An empty table.
    pub fn new() -> (r: Self)
        ensures
            r.wf(),
            r.view() == Map::<Seq<char>, Claim>::empty(),
    {
        AppMetadataResolver { entries: Vec::new() }
    }

    fn position(&self, key: &Vec<char>) -> (r: Option<usize>)
        requires
            self.wf(),
        ensures
            match r {
                Some(i) => i < self.entries@.len() && self.entries@[i as int].0@ == key@
                    && self.view().contains_key(key@)
                    && self.view()[key@] == (self.entries@[i as int].1.view(), self.entries@[i as int].2),
                None => !self.view().contains_key(key@),
            },
    {
        proof {
            lemma_table_of(self.entries@);
        }
        let mut i: usize = 0;
        while i < self.entries.len()
            invariant
                i <= self.entries@.len(),
                self.wf(),
                forall|j: int| 0 <= j < i ==> self.entries@[j].0@ != key@,
            decreases self.entries@.len() - i,
        {
            let k = chars_of(self.entries[i].0.as_str());
            if chars_eq(&k, key) {
                proof {
                    lemma_table_of(self.entries@);
                    assert(table_keys(self.entries@)[i as int] == key@);
                    assert(table_of(self.entries@)[self.entries@[i as int].0@] == (
                        self.entries@[i as int].1.view(),
                        self.entries@[i as int].2,
                    ));
                }
                return Some(i);
            }
            i = i + 1;
        }
        proof {
            if table_keys(self.entries@).contains(key@) {
                let j = choose|j: int|
                    0 <= j < table_keys(self.entries@).len() && table_keys(self.entries@)[j] == key@;
                assert(self.entries@[j].0@ != key@);
            }
        }
        None
    }

    /// Claims `key` for `meta` (see `claim_key`).
    fn insert_key(&mut self, key: &Vec<char>, wm: bool, meta: &AppMetadata)
        requires
            old(self).wf(),
        ensures
            final(self).wf(),
            final(self).view() == claim_key(old(self).view(), (key@, wm), meta.view()),
    {
        if key.len() == 0 {
            return;
        }
        match self.position(key) {
            Some(i) => {
                if wm && !self.entries[i].2 {
                    let ghost old_entries = self.entries@;
                    let x = (string_of(key), meta.clone(), true);
                    proof {
                        lemma_table_update(old_entries, i as int, x);
                    }
                    self.entries.set(i, x);
                }
            },
            None => {
                let ghost old_entries = self.entries@;
                proof {
                    lemma_table_of(old_entries);
                }
                self.entries.push((string_of(key), meta.clone(), wm));
                proof {
                    assert(table_keys(self.entries@) =~= table_keys(old_entries).push(key@));
                    assert(self.entries@.drop_last() =~= old_entries);
                }
            },
        }
    }

    /// Registers an entry under all of its lookup keys, most specific
    /// first. A key already present keeps its entry, except that a
    /// `StartupWMClass` key takes over a key that a stem or name claimed:
    /// a `StartupWMClass` match always wins over a stem or name match, and
    /// otherwise earlier entries win over later ones.
    pub fn insert(&mut self, entry: &DesktopEntry)
        requires
            old(self).wf(),
        ensures
            final(self).wf(),
            final(self).view() == insert_entry_spec(old(self).view(), entry.view()),
    {
        let mut keys: Vec<(Vec<char>, bool)> = Vec::new();
        match &entry.startup_wm_class {
            Some(w) => {
                let lw = to_lowercase(w.as_str());
                keys.push((chars_of(lw.as_str()), true));
            },
            None => {},
        }
        let stem = to_lowercase(entry.stem.as_str());
        if stem.as_str().unicode_len() > 0 {
            keys.push((chars_of(stem.as_str()), false));
        }
        let ln = to_lowercase(entry.name.as_str());
        keys.push((chars_of(ln.as_str()), false));
        let ghost raw = keys@.map_values(|k: (Vec<char>, bool)| (k.0@, k.1));
        let ghost e = entry.view();
        assert(raw =~= (match e.startup_wm_class {
            Some(w) => seq![(lowercase(w), true)],
            None => Seq::<(Seq<char>, bool)>::empty(),
        }) + (if lowercase(e.stem).len() > 0 {
            seq![(lowercase(e.stem), false)]
        } else {
            Seq::<(Seq<char>, bool)>::empty()
        }) + seq![(lowercase(e.name), false)]);
        let ghost ks = entry_keys(e);
        let ghost start = self.view();
        let mut i: usize = 0;
        while i < keys.len()
            invariant
                i <= keys@.len(),
                raw == keys@.map_values(|k: (Vec<char>, bool)| (k.0@, k.1)),
                ks.len() == keys@.len(),
                ks == raw.map_values(|k: (Seq<char>, bool)| (trim(k.0), k.1)),
                self.wf(),
                self.view() == insert_keys(start, ks.take(i as int), entry.metadata.view()),
                e == entry.view(),
            decreases keys@.len() - i,
        {
            let k = trim_chars(&keys[i].0);
            let wm = keys[i].1;
            proof {
                assert(ks.take(i + 1).drop_last() =~= ks.take(i as int));
                assert(raw[i as int] == (keys@[i as int].0@, keys@[i as int].1));
                assert(ks[i as int] == (trim(keys@[i as int].0@), wm));
            }
            self.insert_key(&k, wm, &entry.metadata);
            i = i + 1;
        }
        assert(ks.take(ks.len() as int) =~= ks);
    }

    /// The claim registered under `key`, if any.
    fn get(&self, key: &Vec<char>) -> (r: Option<AppMetadata>)
        requires
            self.wf(),
        ensures
            match r {
                Some(m) => self.view().contains_key(key@) && self.view()[key@].0 == m.view(),
                None => !self.view().contains_key(key@),
            },
    {
        match self.position(key) {
            Some(i) => Some(self.entries[i].1.clone()),
            None => None,
        }
    }

    /// Looks up a window class, trimmed and lowercased. An empty class
    /// matches nothing.
    pub fn lookup(&self, class: &str) -> (r: Option<AppMetadata>)
        requires
            self.wf(),
        ensures
            trim(class@).len() == 0 ==> r is None,
            match r {
                Some(m) => lookup_key(class@).len() > 0 && self.view().contains_key(lookup_key(class@))
                    && self.view()[lookup_key(class@)].0 == m.view(),
                None => lookup_key(class@).len() == 0 || !self.view().contains_key(
                    lookup_key(class@),
                ),
            },
    {
        let t = trim_chars(&chars_of(class));
        let ts = string_of(&t);
        let key = to_lowercase(ts.as_str());
        let kv = chars_of(key.as_str());
        if kv.len() == 0 {
            return None;
        }
        self.get(&kv)
    }
}

/// The table built from `files` (file name, text) in order: files whose
/// extension is `desktop` and that parse to an entry are registered.
pub open spec fn scan_spec(files: Seq<(Seq<char>, Seq<char>)>, locale: Seq<char>) -> Map<Seq<char>, Claim>
    decreases files.len(),
{
    if files.len() == 0 {
        Map::empty()
    } else {
        let m = scan_spec(files.drop_last(), locale);
        let (name, content) = files.last();
        if extension_spec(name) == Some("desktop"@) {
            match parse_spec(content, name, locale) {
                Some(e) => insert_entry_spec(m, e),
                None => m,
            }
        } else {
            m
        }
    }
}

pub open spec fn file_views(files: Seq<(String, String)>) -> Seq<(Seq<char>, Seq<char>)> {
    files.map_values(|f: (String, String)| (f.0@, f.1@))
}

impl AppMetadataResolver {
    /// Builds the table from the files found in the application
    /// directories, in directory order (file name and text of each).
    pub fn scan(files: &Vec<(String, String)>, locale: &str) -> (r: Self)
        ensures
            r.wf(),
            r.view() == scan_spec(file_views(files@), locale@),
    {
        let mut r = AppMetadataResolver::new();
        let ghost fv = file_views(files@);
        let mut i: usize = 0;
        while i < files.len()
            invariant
                i <= files@.len(),
                fv == file_views(files@),
                fv.len() == files@.len(),
                r.wf(),
                r.view() == scan_spec(fv.take(i as int), locale@),
            decreases files@.len() - i,
        {
            let f = &files[i];
            proof {
                assert(fv.take(i + 1).drop_last() =~= fv.take(i as int));
                assert(fv[i as int] == (f.0@, f.1@));
            }
            if is_desktop_file(f.0.as_str()) {
                match parse_desktop_file_with_locale(f.1.as_str(), f.0.as_str(), locale) {
                    Some(e) => r.insert(&e),
                    None => {},
                }
            }
            i = i + 1;
        }
        assert(fv.take(fv.len() as int) =~= fv);
        r
    }
}

proof fn lemma_insert_keys_keeps(m: Map<Seq<char>, Claim>, keys: Seq<(Seq<char>, bool)>, meta: MetadataView, k: Seq<char>)
    requires
        m.contains_key(k),
        m[k].1,
    ensures
        insert_keys(m, keys, meta).contains_key(k),
        insert_keys(m, keys, meta)[k] == m[k],
    decreases keys.len(),
{
    if keys.len() > 0 {
        lemma_insert_keys_keeps(m, keys.drop_last(), meta, k);
    }
}

proof fn lemma_first_key_claims(m: Map<Seq<char>, Claim>, keys: Seq<(Seq<char>, bool)>, meta: MetadataView)
    requires
        keys.len() > 0,
        keys[0].1,
        keys[0].0.len() > 0,
        !(m.contains_key(keys[0].0) && m[keys[0].0].1),
    ensures
        insert_keys(m, keys, meta).contains_key(keys[0].0),
        insert_keys(m, keys, meta)[keys[0].0] == (meta, true),
    decreases keys.len(),
{
    if keys.len() > 1 {
        assert(keys.drop_last()[0] == keys[0]);
        lemma_first_key_claims(m, keys.drop_last(), meta);
        let m2 = insert_keys(m, keys.drop_last(), meta);
        assert(m2[keys[0].0].1);
        assert(insert_keys(m, keys, meta) == claim_key(m2, keys.last(), meta));
    } else {
        assert(keys.drop_last().len() == 0);
        assert(insert_keys(m, keys.drop_last(), meta) == m);
        assert(keys.last() == keys[0]);
    }
}

/// A key claimed through a `StartupWMClass` keeps its entry: registering
/// another entry never changes what such a key resolves to. A key claimed
/// through a stem or a name keeps its entry too unless the new entry's
/// `StartupWMClass` is that key.
pub proof fn law_first_claim_wins(m: Map<Seq<char>, Claim>, e: EntryView, k: Seq<char>)
    requires
        m.contains_key(k),
        m[k].1 || (match e.startup_wm_class {
            Some(w) => trim(lowercase(w)) != k,
            None => true,
        }),
    ensures
        insert_entry_spec(m, e).contains_key(k),
        insert_entry_spec(m, e)[k] == m[k],
{
    let ks = entry_keys(e);
    if m[k].1 {
        lemma_insert_keys_keeps(m, ks, e.metadata, k);
    } else {
        assert forall|j: int| 0 <= j < ks.len() && ks[j].1 implies ks[j].0 != k by {
            assert(j == 0);
        }
        lemma_non_wm_keys_keep(m, ks, e.metadata, k);
    }
}

proof fn lemma_non_wm_keys_keep(m: Map<Seq<char>, Claim>, keys: Seq<(Seq<char>, bool)>, meta: MetadataView, k: Seq<char>)
    requires
        m.contains_key(k),
        forall|j: int| 0 <= j < keys.len() && keys[j].1 ==> keys[j].0 != k,
    ensures
        insert_keys(m, keys, meta).contains_key(k),
        insert_keys(m, keys, meta)[k] == m[k],
    decreases keys.len(),
{
    if keys.len() > 0 {
        assert forall|j: int| 0 <= j < keys.drop_last().len() && keys.drop_last()[j].1 implies keys.drop_last()[j].0 != k by {
            assert(keys.drop_last()[j] == keys[j]);
        }
        lemma_non_wm_keys_keep(m, keys.drop_last(), meta, k);
        assert(keys.last() == keys[keys.len() - 1]);
    }
}

/// An entry with a `StartupWMClass` claims that class as a key, whatever a
/// stem or a name claimed before; only an earlier `StartupWMClass` claim of
/// the same key keeps it.
pub proof fn law_wm_class_claim_wins(m: Map<Seq<char>, Claim>, e: EntryView)
    requires
        e.startup_wm_class is Some,
        trim(lowercase(e.startup_wm_class->0)).len() > 0,
        !(m.contains_key(trim(lowercase(e.startup_wm_class->0)))
            && m[trim(lowercase(e.startup_wm_class->0))].1),
    ensures
        insert_entry_spec(m, e).contains_key(trim(lowercase(e.startup_wm_class->0))),
        insert_entry_spec(m, e)[trim(lowercase(e.startup_wm_class->0))] == (e.metadata, true),
{
    let ks = entry_keys(e);
    assert(ks[0] == (trim(lowercase(e.startup_wm_class->0)), true));
    lemma_first_key_claims(m, ks, e.metadata);
}

} // verus!
