//! The entry parser: reads the text of one desktop metadata file — a
//! key/section structured format — and extracts a normalized application
//! record, or rejects the file. Parsing itself is done by the `ini` crate
//! behind trusted declarations; every decision made on the parsed values is
//! verified.

use vstd::prelude::*;
use crate::icons::{resolved_icon_shape, resolve_icon};
use crate::sanitize::{sanitize_command, sanitize_spec};
use crate::strutil::{last_index_of, lemma_last_index_of, rfind_char, str_eq};

verus! {

/// The file name marks a desktop metadata file: it carries a `.` after its
/// first character, with exactly `desktop` beyond the last one.
pub open spec fn is_desktop_file_name(name: Seq<char>) -> bool {
    let dot = last_index_of(name, '.');
    dot > 0 && name.skip(dot + 1) == "desktop"@
}

/// Tests whether a file name carries the `.desktop` extension, as
/// [`is_desktop_file_name`] says.
pub fn has_desktop_extension(name: &str) -> (r: bool)
    ensures
        r == is_desktop_file_name(name@),
{
    let slen = name.unicode_len();
    let dot = rfind_char(name, '.');
    proof {
        lemma_last_index_of(name@, '.');
    }
    if dot == slen || dot == 0 {
        return false;
    }
    let ext = name.substring_char(dot + 1, slen);
    proof {
        assert(ext@ =~= name@.skip(dot + 1));
    }
    str_eq(ext, "desktop")
}

#[verifier::external_type_specification]
#[verifier::external_body]
pub struct ExIni(ini::Ini);

#[verifier::external_type_specification]
#[verifier::external_body]
pub struct ExProperties(ini::Properties);

/// What `ini` parsing makes of a document: section names mapped to their
/// key/value pairs, or nothing when the text is malformed. Where a section
/// name or a key is bound more than once, the map holds the first binding,
/// the one the crate's accessors answer with.
pub uninterp spec fn ini_doc(s: Seq<char>) -> Option<Map<Seq<char>, Map<Seq<char>, Seq<char>>>>;

/// The sections a parsed `ini::Ini` holds, under the same first-binding
/// reading as [`ini_doc`].
pub uninterp spec fn ini_sections(conf: ini::Ini) -> Map<Seq<char>, Map<Seq<char>, Seq<char>>>;

/// The key/value pairs an `ini::Properties` section holds; for a key bound
/// more than once, the first value.
pub uninterp spec fn props_map(p: ini::Properties) -> Map<Seq<char>, Seq<char>>;

/// Relies on ini::Ini::load_from_str: parses key/section structured text;
/// success and content are a function of the text alone.
#[verifier::external_body]
fn parse_ini_text(content: &str) -> (r: Option<ini::Ini>)
    ensures
        r is Some <==> ini_doc(content@) is Some,
        r matches Some(conf) ==> ini_doc(content@) == Some(ini_sections(conf)),
{
    ini::Ini::load_from_str(content).ok()
}

/// Relies on ini::Ini::section: hands back the first section bound to the
/// name, when one exists.
#[verifier::external_body]
fn ini_section<'a>(conf: &'a ini::Ini, name: &str) -> (r: Option<&'a ini::Properties>)
    ensures
        r is Some <==> ini_sections(*conf).contains_key(name@),
        r matches Some(p) ==> props_map(*p) == ini_sections(*conf)[name@],
{
    conf.section(Some(name))
}

/// Relies on ini::Properties::get: hands back the first value bound to the
/// key, when one exists.
#[verifier::external_body]
fn props_get(p: &ini::Properties, key: &str) -> (r: Option<String>)
    ensures
        r is Some <==> props_map(*p).contains_key(key@),
        r matches Some(v) ==> v@ == props_map(*p)[key@],
{
    p.get(key).map(|s| s.to_string())
}

/// One discovered application: a non-empty display name, a resolved icon
/// path (possibly empty), a sanitized launch command, and whether it runs
/// in a terminal.
pub struct App {
    pub name: String,
    pub icon: String,
    pub command: String,
    pub terminal: bool,
}

/// The mathematical shape of an [`App`].
pub struct AppView {
    pub name: Seq<char>,
    pub icon: Seq<char>,
    pub command: Seq<char>,
    pub terminal: bool,
}

impl View for App {
    type V = AppView;

    open spec fn view(&self) -> AppView {
        AppView { name: self.name@, icon: self.icon@, command: self.command@, terminal: self.terminal }
    }
}

impl DeepView for App {
    type V = AppView;

    open spec fn deep_view(&self) -> AppView {
        self.view()
    }
}

impl Clone for App {
    fn clone(&self) -> (r: Self)
        ensures
            r == *self,
    {
        App {
            name: self.name.clone(),
            icon: self.icon.clone(),
            command: self.command.clone(),
            terminal: self.terminal,
        }
    }
}

/// The key/value pairs of the canonical "Desktop Entry" section of a
/// metadata document, when the document parses and has one.
pub open spec fn entry_section_of(s: Seq<char>) -> Option<Map<Seq<char>, Seq<char>>> {
    match ini_doc(s) {
        Some(m) => if m.contains_key("Desktop Entry"@) {
            Some(m["Desktop Entry"@])
        } else {
            None
        },
        None => None,
    }
}

/// The value of one key of the "Desktop Entry" section, when present.
pub open spec fn entry_value(s: Seq<char>, key: Seq<char>) -> Option<Seq<char>> {
    match entry_section_of(s) {
        Some(sec) => if sec.contains_key(key) {
            Some(sec[key])
        } else {
            None
        },
        None => None,
    }
}

/// A metadata document yields a record exactly when it parses, has a
/// "Desktop Entry" section not hidden by `NoDisplay=true`, a non-empty
/// `Name`, and an `Exec` that still holds a command once sanitized.
pub open spec fn entry_accepted(s: Seq<char>) -> bool {
    &&& entry_section_of(s) is Some
    &&& entry_value(s, "NoDisplay"@) != Some("true"@)
    &&& entry_value(s, "Name"@) matches Some(n) && n.len() > 0
    &&& entry_value(s, "Exec"@) matches Some(e) && sanitize_spec(e).len() > 0
}

/// Parses the text of one desktop metadata file into an application record,
/// or nothing when the file must be skipped — a soft failure, never an
/// error. `home` is the home directory the icon resolver substitutes into
/// its user-path templates.
pub fn parse_desktop_entry(content: &str, home: &str) -> (r: Option<App>)
    ensures
        r is Some <==> entry_accepted(content@),
        entry_value(content@, "NoDisplay"@) == Some("true"@) ==> r is None,
        r matches Some(a) ==> {
            &&& Some(a.name@) == entry_value(content@, "Name"@)
            &&& a.name@.len() > 0
            &&& a.command@ == sanitize_spec(entry_value(content@, "Exec"@).unwrap())
            &&& a.command@.len() > 0
            &&& a.terminal == (entry_value(content@, "Terminal"@) == Some("true"@))
        },
        r matches Some(a) ==> resolved_icon_shape(
            match entry_value(content@, "Icon"@) {
                Some(ic) => ic,
                None => Seq::empty(),
            },
            home@,
            a.icon@,
        ),
{
    let conf = match parse_ini_text(content) {
        Some(c) => c,
        None => {
            return None;
        },
    };
    let section = match ini_section(&conf, "Desktop Entry") {
        Some(p) => p,
        None => {
            return None;
        },
    };
    match props_get(section, "NoDisplay") {
        Some(v) => {
            if str_eq(v.as_str(), "true") {
                return None;
            }
        },
        None => {},
    }
    let name = match props_get(section, "Name") {
        Some(n) => n,
        None => {
            return None;
        },
    };
    if name.as_str().is_empty() {
        return None;
    }
    let raw_icon = match props_get(section, "Icon") {
        Some(ic) => ic,
        None => String::new(),
    };
    let icon = resolve_icon(raw_icon.as_str(), home);
    let raw_exec = match props_get(section, "Exec") {
        Some(e) => e,
        None => {
            return None;
        },
    };
    let exec = sanitize_command(raw_exec.as_str());
    if exec.as_str().is_empty() {
        return None;
    }
    let terminal = match props_get(section, "Terminal") {
        Some(t) => str_eq(t.as_str(), "true"),
        None => false,
    };
    Some(App { name, icon, command: exec, terminal })
}

} // verus!
