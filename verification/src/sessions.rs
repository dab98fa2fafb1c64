//! Desktop sessions: what their entries say, and which of them are offered.

use vstd::prelude::*;

use crate::paths::{extension, join, path_of, stem};
use crate::text::{
    comes_before, equal_letters, holds, joined, same, split_on, split_once, starts_with, trim,
};

verus! {

/// A session that can be started.
#[derive(Clone, Debug, PartialEq, Eq)]
pub struct Session {
    pub name: String,
    pub command: Vec<String>,
    pub session_id: String,
    pub desktop_names: Vec<String>,
}

/// What a session says.
#[verifier::ext_equal]
pub struct SessionModel {
    pub name: Seq<char>,
    pub command: Seq<Seq<char>>,
    pub session_id: Seq<char>,
    pub desktop_names: Seq<Seq<char>>,
}

impl View for Session {
    type V = SessionModel;

    open spec fn view(&self) -> SessionModel {
        SessionModel {
            name: self.name@,
            command: crate::text::said(self.command@),
            session_id: self.session_id@,
            desktop_names: crate::text::said(self.desktop_names@),
        }
    }
}

/// Names one after the other, with colons between them.
pub open spec fn listed(names: Seq<Seq<char>>) -> Seq<char>
    decreases names.len(),
{
    if names.len() == 0 {
        Seq::empty()
    } else if names.len() == 1 {
        names[0]
    } else {
        listed(names.drop_last()) + seq![':'] + names.last()
    }
}

fn list_names(names: &Vec<String>) -> (text: String)
    ensures
        text@ == listed(crate::text::said(names@)),
{
    let mut text = String::new();
    let mut index: usize = 0;
    assert(text@ =~= listed(crate::text::said(names@).take(0)));
    while index < names.len()
        invariant
            index <= names@.len(),
            text@ == listed(crate::text::said(names@).take(index as int)),
        decreases names@.len() - index,
    {
        let ghost all = crate::text::said(names@);
        let ghost longer = all.take(index + 1);
        let ghost before = text@;
        assert(longer.drop_last() =~= all.take(index as int));
        if index > 0 {
            text.push(':');
        }
        text.append(names[index].as_str());
        assert(index > 0 ==> text@ =~= before + seq![':'] + longer.last());
        assert(index == 0 ==> text@ =~= longer[0]);
        index += 1;
    }
    assert(crate::text::said(names@).take(names@.len() as int) =~= crate::text::said(names@));
    text
}

/// The variables a session is started with.
pub open spec fn variables(session: SessionModel) -> Seq<Seq<char>> {
    let always = seq![
        "XDG_SESSION_TYPE=wayland"@,
        "XDG_SESSION_DESKTOP="@ + session.session_id,
    ];
    if session.desktop_names.len() > 0 {
        always.push("XDG_CURRENT_DESKTOP="@ + listed(session.desktop_names))
    } else {
        always
    }
}

impl Session {
    /// The Sway session with a given command.
    pub fn sway(command: Vec<String>) -> (session: Self)
        ensures
            session@ == (SessionModel {
                name: "Sway"@,
                command: crate::text::said(command@),
                session_id: "sway"@,
                desktop_names: seq!["sway"@],
            }),
            session.command == command,
    {
        let mut desktop_names: Vec<String> = Vec::new();
        desktop_names.push("sway".to_owned());
        assert(crate::text::said(desktop_names@) =~= seq!["sway"@]);
        Session {
            name: "Sway".to_owned(),
            command,
            session_id: "sway".to_owned(),
            desktop_names,
        }
    }

    /// The variables the session is started with.
    pub fn environment(&self) -> (environment: Vec<String>)
        ensures
            crate::text::said(environment@) == variables(self@),
    {
        let mut environment: Vec<String> = Vec::new();
        environment.push("XDG_SESSION_TYPE=wayland".to_owned());
        environment.push(joined("XDG_SESSION_DESKTOP=", self.session_id.as_str()));
        if self.desktop_names.len() > 0 {
            environment.push(
                joined("XDG_CURRENT_DESKTOP=", list_names(&self.desktop_names).as_str()),
            );
        }
        assert(crate::text::said(environment@) =~= variables(self@));
        environment
    }
}

// ---------------------------------------------------------------------------
// Entries
// ---------------------------------------------------------------------------

/// The words of a command line, as a shell splits it, where its quotes match.
pub uninterp spec fn shell_words_of(line: Seq<char>) -> Option<Seq<Seq<char>>>;

/// The words of a command line, from `shell_words::split`. The result depends on
/// the line alone, and there is none where a quote is not closed.
#[verifier::external_body]
fn split_command(line: &str) -> (words: Option<Vec<String>>)
    ensures
        (match words {
            Some(words) => Some(crate::text::said(words@)),
            None => None,
        }) == shell_words_of(line@),
{
    shell_words::split(line).ok()
}

/// Whether a percent sign and this character stand for something that a launcher
/// fills in: files, addresses, an icon, a name, or what no launcher gives any more.
pub open spec fn field_code(character: char) -> bool {
    "fFuUickdDnNvm"@.contains(character)
}

fn is_field_code(character: char) -> (answer: bool)
    ensures
        answer == field_code(character),
{
    holds("fFuUickdDnNvm", character)
}

/// A word with each doubled percent sign as one, and without what a launcher fills
/// in. A session is started with nothing to fill in. `code` says that the word goes
/// on after a percent sign.
pub open spec fn plain(word: Seq<char>, code: bool) -> Seq<char>
    decreases word.len(),
{
    if word.len() == 0 {
        Seq::empty()
    } else if code {
        if word[0] == '%' {
            seq!['%'] + plain(word.skip(1), false)
        } else {
            plain(word.skip(1), false)
        }
    } else if word[0] == '%' {
        plain(word.skip(1), true)
    } else {
        seq![word[0]] + plain(word.skip(1), false)
    }
}

/// Whether every percent sign of a word is doubled or starts a field code.
pub open spec fn coded(word: Seq<char>, code: bool) -> bool
    decreases word.len(),
{
    if word.len() == 0 {
        !code
    } else if code {
        (word[0] == '%' || field_code(word[0])) && coded(word.skip(1), false)
    } else {
        coded(word.skip(1), word[0] == '%')
    }
}

/// Reads the field codes of a word: what is left, and whether they are all known.
fn read_codes(word: &str) -> (read: (String, bool))
    ensures
        read.0@ == plain(word@, false),
        read.1 == coded(word@, false),
{
    let mut left = String::new();
    let mut code = false;
    let mut known = true;
    assert(word@.skip(0) =~= word@);
    for character in iter: word.chars()
        invariant
            iter.seq() == word@,
            left@ + plain(word@.skip(iter.index() as int), code) == plain(word@, false),
            (known && coded(word@.skip(iter.index() as int), code)) == coded(word@, false),
    {
        let ghost rest = word@.skip(iter.index() as int);
        let ghost before = left@;
        let ghost after_sign = code;
        assert(rest.skip(1) =~= word@.skip(iter.index() + 1));
        assert(rest[0] == character);
        if code {
            if character == '%' {
                left.push('%');
            } else if !is_field_code(character) {
                known = false;
            }
            code = false;
        } else if character == '%' {
            code = true;
        } else {
            left.push(character);
        }
        assert(left@ + plain(rest.skip(1), code) =~= before + plain(rest, after_sign));
    }
    assert(word@.skip(word@.len() as int) =~= Seq::<char>::empty());
    (left, known && !code)
}

/// Whether nothing but field codes stands in a word.
pub open spec fn codes_only(word: Seq<char>) -> bool {
    word.len() > 0 && plain(word, false).len() == 0
}

/// The first `count` words with their field codes applied. A word of nothing but
/// field codes is no word of the command.
pub open spec fn without_codes(words: Seq<Seq<char>>, count: int) -> Seq<Seq<char>>
    decreases count,
{
    if count <= 0 {
        Seq::empty()
    } else if codes_only(words[count - 1]) {
        without_codes(words, count - 1)
    } else {
        without_codes(words, count - 1).push(plain(words[count - 1], false))
    }
}

/// The words of a command with their field codes applied.
pub fn remove_field_codes(command: Vec<String>) -> (kept: Vec<String>)
    ensures
        crate::text::said(kept@) == without_codes(
            crate::text::said(command@),
            command@.len() as int,
        ),
{
    let mut kept: Vec<String> = Vec::new();
    let mut index: usize = 0;
    assert(crate::text::said(kept@) =~= without_codes(crate::text::said(command@), 0));
    while index < command.len()
        invariant
            index <= command@.len(),
            crate::text::said(kept@) == without_codes(crate::text::said(command@), index as int),
        decreases command@.len() - index,
    {
        assert(crate::text::said(command@)[index as int] == command@[index as int]@);
        let word = command[index].as_str();
        let (left, _) = read_codes(word);
        if word.is_empty() || !left.as_str().is_empty() {
            let ghost before = kept@;
            kept.push(left);
            assert(crate::text::said(kept@) =~= crate::text::said(before).push(left@));
        }
        index += 1;
    }
    kept
}

/// Whether the field codes of all words are known.
pub open spec fn codes_known(words: Seq<Seq<char>>) -> bool {
    forall|index: int| 0 <= index < words.len() ==> coded(#[trigger] words[index], false)
}

fn knows_codes(words: &Vec<String>) -> (known: bool)
    ensures
        known == codes_known(crate::text::said(words@)),
{
    let mut index: usize = 0;
    assert(crate::text::said(words@).len() == words@.len());
    while index < words.len()
        invariant
            index <= words@.len(),
            crate::text::said(words@).len() == words@.len(),
            forall|seen: int|
                0 <= seen < index ==> coded(#[trigger] crate::text::said(words@)[seen], false),
        decreases words@.len() - index,
    {
        assert(crate::text::said(words@)[index as int] == words@[index as int]@);
        if !read_codes(words[index].as_str()).1 {
            return false;
        }
        index += 1;
    }
    true
}

/// What a split command line comes to. A command with an unknown field code is none.
pub open spec fn command_from(words: Option<Seq<Seq<char>>>) -> Option<Seq<Seq<char>>> {
    match words {
        Some(words) => if codes_known(words) {
            Some(without_codes(words, words.len() as int))
        } else {
            None
        },
        None => None,
    }
}

/// What a split command line comes to.
pub fn command_of(words: Option<Vec<String>>) -> (command: Option<Vec<String>>)
    ensures
        (match command {
            Some(command) => Some(crate::text::said(command@)),
            None => None,
        }) == command_from(
            match words {
                Some(words) => Some(crate::text::said(words@)),
                None => None,
            },
        ),
{
    match words {
        Some(words) => if knows_codes(&words) {
            Some(remove_field_codes(words))
        } else {
            None
        },
        None => None,
    }
}

/// What a desktop entry says.
#[derive(Debug)]
pub struct DesktopEntry {
    pub name: Option<String>,
    pub command: Option<Vec<String>>,
    pub desktop_names: Vec<String>,
    /// The entry counts as deleted.
    pub hidden: bool,
    /// The entry is not to be shown.
    pub no_display: bool,
    /// The entry is an application, or does not say what it is.
    pub application: bool,
    /// A program without which the session is not offered.
    pub try_exec: Option<String>,
}

/// What a desktop entry says.
#[verifier::ext_equal]
pub struct EntryModel {
    pub name: Option<Seq<char>>,
    pub command: Option<Seq<Seq<char>>>,
    pub desktop_names: Seq<Seq<char>>,
    pub hidden: bool,
    pub no_display: bool,
    pub application: bool,
    pub try_exec: Option<Seq<char>>,
}

impl View for DesktopEntry {
    type V = EntryModel;

    open spec fn view(&self) -> EntryModel {
        EntryModel {
            name: match self.name {
                Some(name) => Some(name@),
                None => None,
            },
            command: match self.command {
                Some(command) => Some(crate::text::said(command@)),
                None => None,
            },
            desktop_names: crate::text::said(self.desktop_names@),
            hidden: self.hidden,
            no_display: self.no_display,
            application: self.application,
            try_exec: match self.try_exec {
                Some(program) => Some(program@),
                None => None,
            },
        }
    }
}

/// An entry that says nothing.
pub open spec fn blank() -> EntryModel {
    EntryModel {
        name: None,
        command: None,
        desktop_names: Seq::empty(),
        hidden: false,
        no_display: false,
        application: true,
        try_exec: None,
    }
}

/// The first `count` parts without the empty ones.
pub open spec fn filled(texts: Seq<Seq<char>>, count: int) -> Seq<Seq<char>>
    decreases count,
{
    if count <= 0 {
        Seq::empty()
    } else if texts[count - 1].len() == 0 {
        filled(texts, count - 1)
    } else {
        filled(texts, count - 1).push(texts[count - 1])
    }
}

/// The names in a list that is separated by semicolons.
pub open spec fn names_in(value: Seq<char>) -> Seq<Seq<char>> {
    let texts = crate::text::parts(value, ';');
    filled(texts, texts.len() as int)
}

fn read_names(value: &str) -> (names: Vec<String>)
    ensures
        crate::text::said(names@) == names_in(value@),
{
    let texts = split_on(value, ';');
    let mut names: Vec<String> = Vec::new();
    let mut index: usize = 0;
    assert(crate::text::said(names@) =~= filled(crate::text::said(texts@), 0));
    while index < texts.len()
        invariant
            index <= texts@.len(),
            crate::text::said(names@) == filled(crate::text::said(texts@), index as int),
        decreases texts@.len() - index,
    {
        assert(crate::text::said(texts@)[index as int] == texts@[index as int]@);
        if texts[index].as_str().unicode_len() > 0 {
            let ghost before = names@;
            names.push(texts[index].as_str().to_owned());
            assert(crate::text::said(names@) =~= crate::text::said(before).push(
                texts@[index as int]@,
            ));
        }
        index += 1;
    }
    assert(crate::text::said(texts@).len() == texts@.len());
    names
}

/// What an entry says after one more key and its value. A later value replaces an
/// earlier one.
pub open spec fn noted(entry: EntryModel, key: Seq<char>, value: Seq<char>) -> EntryModel {
    if key == "Name"@ {
        EntryModel { name: Some(value), ..entry }
    } else if key == "Exec"@ {
        EntryModel { command: command_from(shell_words_of(value)), ..entry }
    } else if key == "DesktopNames"@ {
        EntryModel { desktop_names: names_in(value), ..entry }
    } else if key == "Hidden"@ {
        EntryModel { hidden: crate::text::same_letters(value, "true"@), ..entry }
    } else if key == "NoDisplay"@ {
        EntryModel { no_display: crate::text::same_letters(value, "true"@), ..entry }
    } else if key == "Type"@ {
        EntryModel { application: value == "Application"@, ..entry }
    } else if key == "TryExec"@ {
        EntryModel { try_exec: Some(value), ..entry }
    } else {
        entry
    }
}

/// Whether the group of desktop entries is being read, and what the entry says,
/// after one more line.
pub open spec fn line_read(inside: bool, entry: EntryModel, line: Seq<char>) -> (bool, EntryModel) {
    let line = crate::text::trimmed(line);
    if crate::text::starts(line, '[') {
        (line == "[Desktop Entry]"@, entry)
    } else if !inside || crate::text::starts(line, '#') {
        (inside, entry)
    } else {
        match crate::text::cut(line, '=') {
            Some((key, value)) => (inside, noted(entry, key, value)),
            None => (inside, entry),
        }
    }
}

/// What the first `count` lines say.
pub open spec fn lines_read(lines: Seq<Seq<char>>, count: int) -> (bool, EntryModel)
    decreases count,
{
    if count <= 0 {
        (false, blank())
    } else {
        let (inside, entry) = lines_read(lines, count - 1);
        line_read(inside, entry, lines[count - 1])
    }
}

/// What a file says.
pub open spec fn entry_in(contents: Seq<char>) -> EntryModel {
    let lines = crate::text::parts(contents, '\n');
    lines_read(lines, lines.len() as int).1
}

impl DesktopEntry {
    fn note(&mut self, key: &str, value: &str)
        ensures
            final(self)@ == noted(old(self)@, key@, value@),
    {
        if same(key, "Name") {
            self.name = Some(value.to_owned());
        } else if same(key, "Exec") {
            self.command = command_of(split_command(value));
        } else if same(key, "DesktopNames") {
            self.desktop_names = read_names(value);
        } else if same(key, "Hidden") {
            self.hidden = equal_letters(value, "true");
        } else if same(key, "NoDisplay") {
            self.no_display = equal_letters(value, "true");
        } else if same(key, "Type") {
            self.application = same(value, "Application");
        } else if same(key, "TryExec") {
            self.try_exec = Some(value.to_owned());
        }
    }

    /// Reads a desktop entry.
    pub fn read(contents: &str) -> (entry: Self)
        ensures
            entry@ == entry_in(contents@),
    {
        let mut entry = DesktopEntry {
            name: None,
            command: None,
            desktop_names: Vec::new(),
            hidden: false,
            no_display: false,
            application: true,
            try_exec: None,
        };
        let mut inside = false;
        let lines = split_on(contents, '\n');
        let mut index: usize = 0;
        assert(entry@ =~= blank());
        while index < lines.len()
            invariant
                index <= lines@.len(),
                lines_read(crate::text::said(lines@), index as int) == (inside, entry@),
            decreases lines@.len() - index,
        {
            assert(crate::text::said(lines@)[index as int] == lines@[index as int]@);
            let line = trim(lines[index].as_str());
            if starts_with(line.as_str(), '[') {
                inside = same(line.as_str(), "[Desktop Entry]");
            } else if inside && !starts_with(line.as_str(), '#') {
                if let Some((key, value)) = split_once(line.as_str(), '=') {
                    entry.note(key.as_str(), value.as_str());
                }
            }
            index += 1;
        }
        assert(crate::text::said(lines@).len() == lines@.len());
        entry
    }
}

/// Whether a program can be started without knowing the working directory.
pub open spec fn launchable(program: Seq<char>) -> bool {
    program.contains('/') ==> crate::text::starts(program, '/')
}

/// The session of an entry, where it is one that may be shown.
pub open spec fn session_of(entry: EntryModel, id: Option<Seq<char>>) -> Option<SessionModel> {
    if entry.hidden || entry.no_display || !entry.application {
        None
    } else if entry.name is None || entry.command is None || id is None {
        None
    } else if entry.command->Some_0.len() == 0 || !launchable(entry.command->Some_0[0]) {
        None
    } else {
        Some(
            SessionModel {
                name: entry.name->Some_0,
                command: entry.command->Some_0,
                session_id: id->Some_0,
                desktop_names: entry.desktop_names,
            },
        )
    }
}

/// What a session says, where there is one.
pub open spec fn model_of(session: Option<Session>) -> Option<SessionModel> {
    match session {
        Some(session) => Some(session@),
        None => None,
    }
}

/// The session of an entry, where it is one that may be shown. `id` is the name of
/// the entry's file.
pub fn accept_entry(entry: DesktopEntry, id: Option<&str>) -> (session: Option<Session>)
    ensures
        model_of(session) == session_of(
            entry@,
            match id {
                Some(id) => Some(id@),
                None => None,
            },
        ),
{
    if entry.hidden || entry.no_display || !entry.application {
        return None;
    }
    let name = match entry.name {
        Some(name) => name,
        None => return None,
    };
    let command = match entry.command {
        Some(command) => command,
        None => return None,
    };
    let session_id = match id {
        Some(id) => id.to_owned(),
        None => return None,
    };
    if command.len() == 0 {
        return None;
    }
    assert(crate::text::said(command@)[0] == command@[0]@);
    if holds(command[0].as_str(), '/') && !starts_with(command[0].as_str(), '/') {
        return None;
    }
    Some(Session { name, command, session_id, desktop_names: entry.desktop_names })
}

/// The name by which an entry's file is known, where it is text.
pub fn entry_id(path: &std::path::PathBuf) -> (id: Option<String>)
    ensures
        (match id {
            Some(id) => Some(id@),
            None => None,
        }) == crate::paths::path_stem(*path),
{
    match stem(path) {
        Some(id) => Some(id.to_owned()),
        None => None,
    }
}

/// The session in a desktop entry's file.
pub fn parse_desktop_entry(path: &std::path::PathBuf, contents: &str) -> (session: Option<Session>)
    ensures
        model_of(session) == session_of(entry_in(contents@), crate::paths::path_stem(*path)),
{
    accept_entry(DesktopEntry::read(contents), stem(path))
}

/// Whether an extension is that of a desktop entry.
pub fn is_desktop_extension(extension: Option<&str>) -> (answer: bool)
    ensures
        answer == (extension matches Some(extension) && extension@ == "desktop"@),
{
    match extension {
        Some(extension) => same(extension, "desktop"),
        None => false,
    }
}

/// Whether a file is a desktop entry by its extension.
pub fn is_desktop_entry(path: &std::path::PathBuf) -> (answer: bool)
    ensures
        answer == (crate::paths::path_extension(*path) == Some("desktop"@)),
{
    is_desktop_extension(extension(path))
}

/// Where entries are looked for below a data directory.
pub const SESSION_DIRECTORY: &'static str = "wayland-sessions";

/// The directories that entries are looked for in, first those that take
/// precedence: one below each data directory, and no other.
pub fn session_directories(data_directories: &Vec<std::path::PathBuf>) -> (directories: Vec<
    std::path::PathBuf,
>)
    ensures
        directories@ == data_directories@.map_values(
            |directory: std::path::PathBuf| crate::paths::path_join(directory, SESSION_DIRECTORY@),
        ),
{
    let mut directories: Vec<std::path::PathBuf> = Vec::new();
    let mut index: usize = 0;
    while index < data_directories.len()
        invariant
            index <= data_directories@.len(),
            directories@ =~= data_directories@.take(index as int).map_values(
                |directory: std::path::PathBuf|
                    crate::paths::path_join(directory, SESSION_DIRECTORY@),
            ),
        decreases data_directories@.len() - index,
    {
        directories.push(join(&data_directories[index], SESSION_DIRECTORY));
        index += 1;
    }
    assert(data_directories@.take(index as int) =~= data_directories@);
    directories
}

// ---------------------------------------------------------------------------
// Programs
// ---------------------------------------------------------------------------

/// Where a program may lie: at its path, where it is written as one that does not
/// depend on the working directory, and otherwise in each directory of the search.
pub open spec fn places_of(program: Seq<char>, search: Seq<std::path::PathBuf>) -> Seq<
    std::path::PathBuf,
> {
    if !program.contains('/') {
        search.map_values(
            |directory: std::path::PathBuf| crate::paths::path_join(directory, program),
        )
    } else if crate::text::starts(program, '/') {
        seq![crate::paths::path_from(program)]
    } else {
        Seq::empty()
    }
}

/// The places to look for a program at, in the order of the search. It can be run
/// where one of them is a file that may be executed.
pub fn program_places(program: &str, search: &Vec<std::path::PathBuf>) -> (places: Vec<
    std::path::PathBuf,
>)
    ensures
        places@ == places_of(program@, search@),
{
    let mut places: Vec<std::path::PathBuf> = Vec::new();
    if holds(program, '/') {
        if starts_with(program, '/') {
            places.push(path_of(program));
        }
        return places;
    }
    let mut index: usize = 0;
    while index < search.len()
        invariant
            index <= search@.len(),
            places@ =~= search@.take(index as int).map_values(
                |directory: std::path::PathBuf| crate::paths::path_join(directory, program@),
            ),
        decreases search@.len() - index,
    {
        places.push(join(&search[index], program));
        index += 1;
    }
    assert(search@.take(index as int) =~= search@);
    places
}

/// An entry's file as far as it was read, and where the programs that it needs may
/// lie.
#[derive(Debug)]
pub struct Offer {
    pub id: String,
    pub session: Option<Session>,
    /// The places of the program without which the session is not offered, where
    /// the entry names one.
    pub tried: Option<Vec<std::path::PathBuf>>,
    /// The places of the program that the session starts.
    pub places: Vec<std::path::PathBuf>,
}

/// What an entry's file offers before its programs were looked for.
#[verifier::ext_equal]
pub struct OfferModel {
    pub id: Seq<char>,
    pub session: Option<SessionModel>,
    pub tried: Option<Seq<std::path::PathBuf>>,
    pub places: Seq<std::path::PathBuf>,
}

impl View for Offer {
    type V = OfferModel;

    open spec fn view(&self) -> OfferModel {
        OfferModel {
            id: self.id@,
            session: model_of(self.session),
            tried: match self.tried {
                Some(places) => Some(places@),
                None => None,
            },
            places: self.places@,
        }
    }
}

/// What the file known as `id` offers, given what it holds where it can be read.
pub open spec fn offer_in(
    id: Seq<char>,
    contents: Option<Seq<char>>,
    search: Seq<std::path::PathBuf>,
) -> OfferModel {
    match contents {
        None => OfferModel { id, session: None, tried: None, places: Seq::empty() },
        Some(contents) => {
            let entry = entry_in(contents);
            let session = session_of(entry, Some(id));
            OfferModel {
                id,
                session,
                tried: match entry.try_exec {
                    Some(program) => Some(places_of(program, search)),
                    None => None,
                },
                places: match session {
                    Some(session) => places_of(session.command[0], search),
                    None => Seq::empty(),
                },
            }
        },
    }
}

impl Offer {
    /// Reads an entry's file. `search` are the directories of programs.
    pub fn read(
        id: String,
        contents: Option<&str>,
        search: &Vec<std::path::PathBuf>,
    ) -> (offer: Self)
        ensures
            offer@ == offer_in(
                id@,
                match contents {
                    Some(contents) => Some(contents@),
                    None => None,
                },
                search@,
            ),
    {
        let contents = match contents {
            Some(contents) => contents,
            None => return Offer { id, session: None, tried: None, places: Vec::new() },
        };
        let entry = DesktopEntry::read(contents);
        let tried = match &entry.try_exec {
            Some(program) => Some(program_places(program.as_str(), search)),
            None => None,
        };
        let session = accept_entry(entry, Some(id.as_str()));
        let places = match &session {
            Some(session) => {
                assert(session.command@.len() == session@.command.len());
                assert(session@.command[0] == session.command@[0]@);
                program_places(session.command[0].as_str(), search)
            },
            None => Vec::new(),
        };
        Offer { id, session, tried, places }
    }

    /// The file as it is offered. `tried` and `found` say whether a file that may be
    /// executed is at one of the places in `tried` and in `places`.
    pub fn settle(self, tried: bool, found: bool) -> (candidate: Candidate)
        ensures
            candidate@ == (CandidateModel {
                id: self@.id,
                session: self@.session,
                available: (self@.tried is Some ==> tried) && self@.session is Some && found,
            }),
    {
        let available = (tried || self.tried.is_none()) && found && self.session.is_some();
        Candidate { id: self.id, session: self.session, available }
    }
}

// ---------------------------------------------------------------------------
// Offers
// ---------------------------------------------------------------------------

/// An entry's file, in the order of the directories.
#[derive(Debug)]
pub struct Candidate {
    pub id: String,
    pub session: Option<Session>,
    /// Whether the programs it needs are there.
    pub available: bool,
}

/// What a file offers.
#[verifier::ext_equal]
pub struct CandidateModel {
    pub id: Seq<char>,
    pub session: Option<SessionModel>,
    pub available: bool,
}

impl View for Candidate {
    type V = CandidateModel;

    open spec fn view(&self) -> CandidateModel {
        CandidateModel {
            id: self.id@,
            session: model_of(self.session),
            available: self.available,
        }
    }
}

/// What files offer.
pub open spec fn candidates_of(candidates: Seq<Candidate>) -> Seq<CandidateModel> {
    candidates.map_values(|candidate: Candidate| candidate@)
}

/// What sessions say.
pub open spec fn sessions_of(sessions: Seq<Session>) -> Seq<SessionModel> {
    sessions.map_values(|session: Session| session@)
}

/// Whether a command is among those of some sessions.
pub open spec fn runs(sessions: Seq<SessionModel>, command: Seq<Seq<char>>) -> bool {
    exists|index: int|
        0 <= index < sessions.len() && (#[trigger] sessions[index]).command == command
}

/// Whether an entry of an earlier directory goes by the same name.
pub open spec fn masked(candidates: Seq<CandidateModel>, position: int) -> bool {
    exists|index: int|
        0 <= index < position && (#[trigger] candidates[index]).id == candidates[position].id
}

/// The sessions of the first `count` files: of one name the first counts, hidden or
/// not, and of one command the first too.
pub open spec fn kept(candidates: Seq<CandidateModel>, count: int) -> Seq<SessionModel>
    decreases count,
{
    if count <= 0 {
        Seq::empty()
    } else {
        let before = kept(candidates, count - 1);
        let candidate = candidates[count - 1];
        match candidate.session {
            Some(session) => if masked(candidates, count - 1) || !candidate.available || runs(
                before,
                session.command,
            ) {
                before
            } else {
                before.push(session)
            },
            None => before,
        }
    }
}

/// A session put in its place among others, before those of the same name.
pub open spec fn placed(session: SessionModel, others: Seq<SessionModel>) -> Seq<SessionModel>
    decreases others.len(),
{
    if others.len() > 0 && crate::text::precedes(others[0].name, session.name) {
        seq![others[0]] + placed(session, others.skip(1))
    } else {
        seq![session] + others
    }
}

/// Sessions by their names, those of one name in the order they came.
pub open spec fn arranged(sessions: Seq<SessionModel>) -> Seq<SessionModel>
    decreases sessions.len(),
{
    if sessions.len() == 0 {
        Seq::empty()
    } else {
        placed(sessions[0], arranged(sessions.skip(1)))
    }
}

/// The sessions that are offered.
pub open spec fn offered(candidates: Seq<CandidateModel>) -> Seq<SessionModel> {
    arranged(kept(candidates, candidates.len() as int))
}

fn same_command(left: &Vec<String>, right: &Vec<String>) -> (answer: bool)
    ensures
        answer == (crate::text::said(left@) == crate::text::said(right@)),
{
    assert(crate::text::said(left@).len() == left@.len());
    assert(crate::text::said(right@).len() == right@.len());
    if left.len() != right.len() {
        return false;
    }
    let mut index: usize = 0;
    while index < left.len()
        invariant
            left@.len() == right@.len(),
            index <= left@.len(),
            forall|seen: int|
                0 <= seen < index ==> crate::text::said(left@)[seen] == crate::text::said(
                    right@,
                )[seen],
        decreases left@.len() - index,
    {
        assert(crate::text::said(left@)[index as int] == left@[index as int]@);
        assert(crate::text::said(right@)[index as int] == right@[index as int]@);
        if !same(left[index].as_str(), right[index].as_str()) {
            return false;
        }
        index += 1;
    }
    assert(crate::text::said(left@) =~= crate::text::said(right@));
    true
}

fn some_runs(sessions: &Vec<Session>, command: &Vec<String>) -> (answer: bool)
    ensures
        answer == runs(sessions_of(sessions@), crate::text::said(command@)),
{
    let mut index: usize = 0;
    while index < sessions.len()
        invariant
            index <= sessions@.len(),
            forall|seen: int|
                0 <= seen < index ==> (#[trigger] sessions_of(sessions@)[seen]).command
                    != crate::text::said(command@),
        decreases sessions@.len() - index,
    {
        assert(sessions_of(sessions@)[index as int] == sessions@[index as int]@);
        if same_command(&sessions[index].command, command) {
            return true;
        }
        index += 1;
    }
    assert(sessions_of(sessions@).len() == sessions@.len());
    false
}

fn is_masked(ids: &Vec<String>, id: &str) -> (answer: bool)
    ensures
        answer == crate::text::said(ids@).contains(id@),
{
    let mut index: usize = 0;
    while index < ids.len()
        invariant
            index <= ids@.len(),
            forall|seen: int|
                0 <= seen < index ==> #[trigger] crate::text::said(ids@)[seen] != id@,
        decreases ids@.len() - index,
    {
        assert(crate::text::said(ids@)[index as int] == ids@[index as int]@);
        if same(ids[index].as_str(), id) {
            return true;
        }
        index += 1;
    }
    assert(crate::text::said(ids@).len() == ids@.len());
    false
}

fn keep(candidates: Vec<Candidate>) -> (sessions: Vec<Session>)
    ensures
        sessions_of(sessions@) == kept(candidates_of(candidates@), candidates@.len() as int),
{
    let ghost all = candidates_of(candidates@);
    let ghost mut count: int = 0;
    let mut rest = candidates;
    let mut ids: Vec<String> = Vec::new();
    let mut sessions: Vec<Session> = Vec::new();
    assert(sessions_of(sessions@) =~= kept(all, 0));
    assert(candidates_of(rest@) =~= all.skip(0));
    while rest.len() > 0
        invariant
            0 <= count <= all.len(),
            candidates_of(rest@) == all.skip(count),
            rest@.len() == all.len() - count,
            ids@.len() == count,
            forall|index: int|
                0 <= index < count ==> #[trigger] crate::text::said(ids@)[index]
                    == all[index].id,
            sessions_of(sessions@) == kept(all, count),
        decreases rest@.len(),
    {
        let ghost before = rest@;
        assert(candidates_of(before)[0] == before[0]@);
        assert(all.skip(count)[0] == all[count]);
        let candidate = rest.remove(0);
        assert(candidates_of(rest@) =~= all.skip(count + 1)) by {
            assert forall|index: int| 0 <= index < rest@.len() implies candidates_of(rest@)[index]
                == all.skip(count + 1)[index] by {
                assert(candidates_of(before)[index + 1] == before[index + 1]@);
                assert(all.skip(count)[index + 1] == all[count + 1 + index]);
            }
        }
        let hidden = is_masked(&ids, candidate.id.as_str());
        assert(hidden == masked(all, count)) by {
            if hidden {
                let index = choose|index: int|
                    0 <= index < crate::text::said(ids@).len() && crate::text::said(ids@)[index]
                        == candidate.id@;
                assert(all[index].id == all[count].id);
            }
            if masked(all, count) {
                let index = choose|index: int|
                    0 <= index < count && (#[trigger] all[index]).id == all[count].id;
                assert(crate::text::said(ids@)[index] == candidate.id@);
            }
        }
        if let Some(session) = candidate.session {
            if !hidden && candidate.available && !some_runs(&sessions, &session.command) {
                let ghost earlier = sessions@;
                sessions.push(session);
                assert(sessions_of(sessions@) =~= sessions_of(earlier).push(session@));
            }
        }
        let ghost known = ids@;
        ids.push(candidate.id);
        proof {
            assert forall|index: int| 0 <= index < count + 1 implies #[trigger] crate::text::said(
                ids@,
            )[index] == all[index].id by {
                if index < count {
                    assert(crate::text::said(known)[index] == known[index]@);
                }
            }
            count = count + 1;
        }
    }
    sessions
}

proof fn lemma_place(session: SessionModel, others: Seq<SessionModel>, position: int)
    requires
        0 <= position <= others.len(),
        forall|index: int|
            0 <= index < position ==> crate::text::precedes(
                (#[trigger] others[index]).name,
                session.name,
            ),
        position < others.len() ==> !crate::text::precedes(others[position].name, session.name),
    ensures
        placed(session, others) == others.insert(position, session),
    decreases others.len(),
{
    if position == 0 {
        assert(seq![session] + others =~= others.insert(0, session));
    } else {
        let rest = others.skip(1);
        assert forall|index: int| 0 <= index < position - 1 implies crate::text::precedes(
            (#[trigger] rest[index]).name,
            session.name,
        ) by {
            assert(rest[index] == others[index + 1]);
        }
        lemma_place(session, rest, position - 1);
        assert(crate::text::precedes(others[0].name, session.name));
        assert(seq![others[0]] + rest.insert(position - 1, session) =~= others.insert(
            position,
            session,
        ));
    }
}

fn arrange(sessions: Vec<Session>) -> (result: Vec<Session>)
    ensures
        sessions_of(result@) == arranged(sessions_of(sessions@)),
{
    let ghost all = sessions_of(sessions@);
    let mut rest = sessions;
    let mut result: Vec<Session> = Vec::new();
    assert(all.skip(all.len() as int) =~= Seq::<SessionModel>::empty());
    assert(sessions_of(result@) =~= arranged(all.skip(all.len() as int)));
    while rest.len() > 0
        invariant
            rest@.len() <= all.len(),
            sessions_of(rest@) == all.take(rest@.len() as int),
            sessions_of(result@) == arranged(all.skip(rest@.len() as int)),
        decreases rest@.len(),
    {
        let ghost earlier = rest@;
        let last: usize = rest.len() - 1;
        let session = rest.remove(last);
        let ghost size = last as int;
        assert(all[size] == session@) by {
            assert(sessions_of(earlier)[size] == session@);
            assert(all.take(size + 1)[size] == all[size]);
        }
        assert(sessions_of(rest@) =~= all.take(size)) by {
            assert forall|index: int| 0 <= index < size implies sessions_of(rest@)[index]
                == all.take(size)[index] by {
                assert(sessions_of(earlier)[index] == rest@[index]@);
                assert(all.take(size + 1)[index] == all[index]);
            }
        }
        let ghost others = sessions_of(result@);
        let mut position: usize = 0;
        while position < result.len() && comes_before(
            result[position].name.as_str(),
            session.name.as_str(),
        )
            invariant
                position <= result@.len(),
                others == sessions_of(result@),
                forall|index: int|
                    0 <= index < position ==> crate::text::precedes(
                        (#[trigger] others[index]).name,
                        session.name@,
                    ),
            decreases result@.len() - position,
        {
            assert(others[position as int] == result@[position as int]@);
            position += 1;
        }
        proof {
            assert(others.len() == result@.len());
            if position < result@.len() {
                assert(others[position as int] == result@[position as int]@);
            }
            lemma_place(session@, others, position as int);
            assert(all.skip(size)[0] == session@);
            assert(all.skip(size).skip(1) =~= all.skip(size + 1));
        }
        result.insert(position, session);
        assert(sessions_of(result@) =~= others.insert(position as int, session@));
    }
    assert(all.skip(0) =~= all);
    result
}

/// The sessions that are offered, of the files in the order of their directories.
/// There is none but those.
pub fn discover(candidates: Vec<Candidate>) -> (sessions: Vec<Session>)
    ensures
        sessions_of(sessions@) == offered(candidates_of(candidates@)),
{
    assert(candidates_of(candidates@).len() == candidates@.len());
    arrange(keep(candidates))
}

/// Whether sessions are in the order of their names.
pub open spec fn in_order(sessions: Seq<SessionModel>) -> bool {
    forall|early: int, late: int|
        0 <= early < late < sessions.len() ==> !crate::text::precedes(
            (#[trigger] sessions[late]).name,
            (#[trigger] sessions[early]).name,
        )
}

proof fn lemma_placing_keeps_order(session: SessionModel, others: Seq<SessionModel>)
    requires
        in_order(others),
    ensures
        in_order(placed(session, others)),
        placed(session, others).to_multiset() == others.to_multiset().insert(session),
        forall|index: int|
            0 <= index < placed(session, others).len() ==> (#[trigger] placed(
                session,
                others,
            )[index]) == session || others.contains(placed(session, others)[index]),
    decreases others.len(),
{
    broadcast use vstd::seq_lib::group_to_multiset_ensures;

    let result = placed(session, others);
    if others.len() > 0 && crate::text::precedes(others[0].name, session.name) {
        let rest = others.skip(1);
        assert forall|early: int, late: int| 0 <= early < late < rest.len() implies
            !crate::text::precedes((#[trigger] rest[late]).name, (#[trigger] rest[early]).name) by {
            assert(rest[late] == others[late + 1]);
            assert(rest[early] == others[early + 1]);
        }
        lemma_placing_keeps_order(session, rest);
        let tail = placed(session, rest);
        assert(result == seq![others[0]] + tail);
        assert forall|early: int, late: int| 0 <= early < late < result.len() implies
            !crate::text::precedes((#[trigger] result[late]).name, (#[trigger] result[early]).name) by {
            assert(result[late] == tail[late - 1]);
            if early > 0 {
                assert(result[early] == tail[early - 1]);
            } else {
                crate::text::lemma_order_of_texts(others[0].name, session.name, session.name);
                if tail[late - 1] != session {
                    let index = choose|index: int| 0 <= index < rest.len() && rest[index]
                        == tail[late - 1];
                    assert(rest[index] == others[index + 1]);
                }
            }
        }
        assert forall|index: int| 0 <= index < result.len() implies (#[trigger] result[index])
            == session || others.contains(result[index]) by {
            if index > 0 {
                assert(result[index] == tail[index - 1]);
                if tail[index - 1] != session {
                    let found = choose|found: int| 0 <= found < rest.len() && rest[found]
                        == tail[index - 1];
                    assert(others[found + 1] == result[index]);
                }
            } else {
                assert(others[0] == result[0]);
            }
        }
        vstd::seq_lib::lemma_multiset_commutative(seq![others[0]], tail);
        vstd::seq_lib::lemma_multiset_commutative(seq![others[0]], rest);
        assert(others =~= seq![others[0]] + rest);
        assert(result.to_multiset() =~= others.to_multiset().insert(session));
    } else {
        assert(result == seq![session] + others);
        assert forall|early: int, late: int| 0 <= early < late < result.len() implies
            !crate::text::precedes((#[trigger] result[late]).name, (#[trigger] result[early]).name) by {
            assert(result[late] == others[late - 1]);
            if early > 0 {
                assert(result[early] == others[early - 1]);
            } else if late > 1 {
                assert(!crate::text::precedes(others[late - 1].name, others[0].name));
                crate::text::lemma_order_of_texts(
                    session.name,
                    others[0].name,
                    others[late - 1].name,
                );
            }
        }
        assert forall|index: int| 0 <= index < result.len() implies (#[trigger] result[index])
            == session || others.contains(result[index]) by {
            if index > 0 {
                assert(result[index] == others[index - 1]);
            }
        }
        vstd::seq_lib::lemma_multiset_commutative(seq![session], others);
        assert(result.to_multiset() =~= others.to_multiset().insert(session));
    }
}

/// The offered sessions are listed by name, and none is lost or made up.
pub proof fn law_sessions_are_listed_by_name(sessions: Seq<SessionModel>)
    ensures
        in_order(arranged(sessions)),
        arranged(sessions).to_multiset() == sessions.to_multiset(),
    decreases sessions.len(),
{
    broadcast use vstd::seq_lib::group_to_multiset_ensures;

    if sessions.len() > 0 {
        let rest = sessions.skip(1);
        law_sessions_are_listed_by_name(rest);
        lemma_placing_keeps_order(sessions[0], arranged(rest));
        vstd::seq_lib::lemma_multiset_commutative(seq![sessions[0]], rest);
        assert(sessions =~= seq![sessions[0]] + rest);
        assert(arranged(sessions).to_multiset() =~= sessions.to_multiset());
    } else {
        assert(sessions =~= Seq::<SessionModel>::empty());
    }
}

/// An entry hides the entries of later directories that go by its name, whatever it
/// says itself.
pub proof fn law_earlier_entries_mask_later_ones(
    candidates: Seq<CandidateModel>,
    early: int,
    late: int,
)
    requires
        0 <= early < late < candidates.len(),
        candidates[early].id == candidates[late].id,
    ensures
        kept(candidates, late + 1) == kept(candidates, late),
{
    assert(masked(candidates, late));
}

/// No command is offered twice.
pub proof fn law_commands_are_offered_once(candidates: Seq<CandidateModel>, count: int)
    requires
        0 <= count <= candidates.len(),
    ensures
        ({
            let sessions = kept(candidates, count);
            forall|early: int, late: int|
                0 <= early < late < sessions.len() ==> (#[trigger] sessions[early]).command != (
                #[trigger] sessions[late]).command
        }),
    decreases count,
{
    if count > 0 {
        law_commands_are_offered_once(candidates, count - 1);
        let before = kept(candidates, count - 1);
        let sessions = kept(candidates, count);
        assert forall|early: int, late: int| 0 <= early < late < sessions.len() implies (
        #[trigger] sessions[early]).command != (#[trigger] sessions[late]).command by {
            assert(sessions[early] == before[early]);
            if late < before.len() {
                assert(sessions[late] == before[late]);
            }
        }
    }
}

/// Every session that is offered is that of an entry which is available and not
/// masked. Where there is no such entry, no session is offered.
pub proof fn law_sessions_come_from_entries_alone(
    candidates: Seq<CandidateModel>,
    session: SessionModel,
)
    requires
        offered(candidates).contains(session),
    ensures
        exists|position: int|
            0 <= position < candidates.len() && (#[trigger] candidates[position]).session == Some(
                session,
            ) && candidates[position].available && !masked(candidates, position),
{
    broadcast use vstd::seq_lib::group_to_multiset_ensures;

    let found = kept(candidates, candidates.len() as int);
    law_sessions_are_listed_by_name(found);
    assert(offered(candidates).to_multiset().count(session) > 0);
    assert(found.contains(session));
    lemma_kept_from_entries(candidates, candidates.len() as int, session);
}

proof fn lemma_kept_from_entries(
    candidates: Seq<CandidateModel>,
    count: int,
    session: SessionModel,
)
    requires
        0 <= count <= candidates.len(),
        kept(candidates, count).contains(session),
    ensures
        exists|position: int|
            0 <= position < count && (#[trigger] candidates[position]).session == Some(session)
                && candidates[position].available && !masked(candidates, position),
    decreases count,
{
    if count > 0 {
        let before = kept(candidates, count - 1);
        if before.contains(session) {
            lemma_kept_from_entries(candidates, count - 1, session);
        } else {
            let index = choose|index: int|
                0 <= index < kept(candidates, count).len() && kept(candidates, count)[index]
                    == session;
            if index < before.len() {
                assert(before[index] == session);
            }
            assert(candidates[count - 1].session == Some(session));
        }
    }
}

/// Whether the entry at a position is one that can be started: it is available, shows a
/// session, and no entry of an earlier directory goes by its name.
pub open spec fn eligible(candidates: Seq<CandidateModel>, position: int) -> bool {
    &&& 0 <= position < candidates.len()
    &&& candidates[position].available
    &&& candidates[position].session is Some
    &&& forall|earlier: int|
        0 <= earlier < position ==> (#[trigger] candidates[earlier]).id != candidates[position].id
}

/// Every entry that can be started is on offer: its whole command is that of an offered
/// session, and its own session is offered where no entry before it shows a session with
/// the same words.
pub proof fn law_every_entry_that_can_be_started_is_offered(
    candidates: Seq<CandidateModel>,
    position: int,
)
    requires
        eligible(candidates, position),
    ensures
        exists|index: int|
            0 <= index < offered(candidates).len() && (#[trigger] offered(candidates)[index]).command
                == candidates[position].session->Some_0.command,
        (forall|earlier: int|
            0 <= earlier < position ==> ((#[trigger] candidates[earlier]).session matches Some(other)
                ==> other.command != candidates[position].session->Some_0.command)) ==> offered(
            candidates,
        ).contains(candidates[position].session->Some_0),
{
    broadcast use vstd::seq_lib::group_to_multiset_ensures;

    let session = candidates[position].session->Some_0;
    let count = candidates.len() as int;
    let found = kept(candidates, count);
    law_sessions_are_listed_by_name(found);
    assert(!masked(candidates, position));
    lemma_kept_grows(candidates, position + 1, count);
    let before = kept(candidates, position);
    let own = kept(candidates, position + 1);
    if runs(before, session.command) {
        let index = choose|index: int|
            0 <= index < before.len() && (#[trigger] before[index]).command == session.command;
        assert(own[index] == before[index]);
        assert(found[index] == before[index]);
        assert(found.contains(before[index]));
        assert(offered(candidates).to_multiset().count(before[index]) > 0);
        assert(offered(candidates).contains(before[index]));
        lemma_kept_from_entries_before(candidates, position, before[index]);
    } else {
        assert(own.last() == session);
        assert(found[own.len() - 1] == session);
        assert(found.contains(session));
        assert(offered(candidates).to_multiset().count(session) > 0);
        assert(offered(candidates).contains(session));
    }
}

proof fn lemma_kept_grows(candidates: Seq<CandidateModel>, less: int, more: int)
    requires
        0 <= less <= more <= candidates.len(),
    ensures
        kept(candidates, less).is_prefix_of(kept(candidates, more)),
    decreases more - less,
{
    if less < more {
        lemma_kept_grows(candidates, less, more - 1);
        let few = kept(candidates, less);
        let some = kept(candidates, more - 1);
        let many = kept(candidates, more);
        assert(few =~= many.subrange(0, few.len() as int)) by {
            assert(few =~= some.subrange(0, few.len() as int));
        }
    } else {
        assert(kept(candidates, less) =~= kept(candidates, more).subrange(
            0,
            kept(candidates, less).len() as int,
        ));
    }
}

proof fn lemma_kept_from_entries_before(
    candidates: Seq<CandidateModel>,
    count: int,
    session: SessionModel,
)
    requires
        0 <= count <= candidates.len(),
        kept(candidates, count).contains(session),
    ensures
        exists|earlier: int|
            0 <= earlier < count && (#[trigger] candidates[earlier]).session == Some(session),
{
    lemma_kept_from_entries(candidates, count, session);
}

/// What is offered are sessions of entries that can be started, and of those with the
/// same words the one of the first entry; no two offers have the same words.
pub proof fn law_the_first_of_equal_commands_is_offered(
    candidates: Seq<CandidateModel>,
    position: int,
    earlier: int,
)
    requires
        0 <= earlier < position,
        eligible(candidates, position),
        eligible(candidates, earlier),
        candidates[earlier].session->Some_0.command == candidates[position].session->Some_0.command,
    ensures
        offered(candidates).contains(candidates[position].session->Some_0) ==> exists|other: int|
            0 <= other < position && (#[trigger] candidates[other]).session
                == candidates[position].session,
{
    broadcast use vstd::seq_lib::group_to_multiset_ensures;

    let session = candidates[position].session->Some_0;
    let count = candidates.len() as int;
    let found = kept(candidates, count);
    law_sessions_are_listed_by_name(found);
    if offered(candidates).contains(session) {
        assert(offered(candidates).to_multiset().count(session) > 0);
        assert(found.contains(session));
        let at = choose|at: int| 0 <= at < found.len() && found[at] == session;
        lemma_kept_grows(candidates, earlier + 1, position);
        lemma_kept_grows(candidates, position, count);
        let before = kept(candidates, position);
        assert(!masked(candidates, earlier));
        let ours = candidates[earlier].session->Some_0;
        let own = kept(candidates, earlier + 1);
        let there = if runs(kept(candidates, earlier), ours.command) {
            let index = choose|index: int|
                0 <= index < kept(candidates, earlier).len() && (#[trigger] kept(
                    candidates,
                    earlier,
                )[index]).command == ours.command;
            assert(own[index] == kept(candidates, earlier)[index]);
            index
        } else {
            assert(own.last() == ours);
            own.len() - 1
        };
        assert(before[there] == own[there]);
        assert(found[there] == before[there]);
        law_commands_are_offered_once(candidates, count);
        assert(found[there].command == found[at].command);
        assert(there == at);
        assert(before.contains(session));
        lemma_kept_from_entries_before(candidates, position, session);
    }
}

/// Sessions of one name are listed in the order they came.
pub proof fn law_sessions_of_one_name_keep_their_order(
    sessions: Seq<SessionModel>,
    name: Seq<char>,
)
    ensures
        arranged(sessions).filter(|session: SessionModel| session.name == name) == sessions.filter(
            |session: SessionModel| session.name == name,
        ),
    decreases sessions.len(),
{
    let same = |session: SessionModel| session.name == name;
    if sessions.len() > 0 {
        let rest = sessions.skip(1);
        law_sessions_of_one_name_keep_their_order(rest, name);
        law_sessions_are_listed_by_name(rest);
        lemma_placed_filter(sessions[0], arranged(rest), name);
        assert(sessions =~= seq![sessions[0]] + rest);
        Seq::filter_distributes_over_add(seq![sessions[0]], rest, same);
    } else {
        assert(arranged(sessions) =~= sessions);
    }
}

proof fn lemma_placed_filter(session: SessionModel, others: Seq<SessionModel>, name: Seq<char>)
    requires
        in_order(others),
    ensures
        ({
            let same = |session: SessionModel| session.name == name;
            placed(session, others).filter(same) == seq![session].filter(same) + others.filter(same)
        }),
    decreases others.len(),
{
    let same = |session: SessionModel| session.name == name;
    if others.len() > 0 && crate::text::precedes(others[0].name, session.name) {
        let rest = others.skip(1);
        assert forall|early: int, late: int| 0 <= early < late < rest.len() implies
            !crate::text::precedes((#[trigger] rest[late]).name, (#[trigger] rest[early]).name) by {
            assert(rest[late] == others[late + 1]);
            assert(rest[early] == others[early + 1]);
        }
        lemma_placed_filter(session, rest, name);
        let first = seq![others[0]];
        assert(others =~= first + rest);
        Seq::filter_distributes_over_add(first, rest, same);
        Seq::filter_distributes_over_add(first, placed(session, rest), same);
        reveal_with_fuel(Seq::filter, 2);
        assert(first.drop_last() =~= Seq::<SessionModel>::empty());
        assert(seq![session].drop_last() =~= Seq::<SessionModel>::empty());
        crate::text::lemma_order_of_texts(others[0].name, session.name, session.name);
        assert(others[0].name != session.name);
        assert(placed(session, others).filter(same) =~= seq![session].filter(same) + others.filter(
            same,
        ));
    } else {
        Seq::filter_distributes_over_add(seq![session], others, same);
    }
}

/// What is left of a command line's words after the field codes: a percent sign is
/// written twice, every other character as it is, and what a launcher would fill in
/// leaves nothing behind.
pub proof fn law_field_codes_leave_nothing_behind(
    first: Seq<char>,
    character: char,
    second: Seq<char>,
)
    requires
        coded(first, false),
    ensures
        plain(Seq::empty(), false) == Seq::<char>::empty(),
        plain(first + second, false) == plain(first, false) + plain(second, false),
        coded(first + second, false) == coded(second, false),
        character != '%' ==> plain(seq![character], false) == seq![character],
        character != '%' ==> coded(seq![character], false),
        plain(seq!['%', character], false) == if character == '%' {
            seq!['%']
        } else {
            Seq::empty()
        },
        !coded(seq!['%'], false),
        coded(seq!['%', character], false) <==> character == '%' || character == 'f' || character
            == 'F' || character == 'u' || character == 'U' || character == 'i' || character == 'c'
            || character == 'k' || character == 'd' || character == 'D' || character == 'n'
            || character == 'N' || character == 'v' || character == 'm',
{
    lemma_plain_together(first, second, false);
    reveal_with_fuel(plain, 3);
    reveal_with_fuel(coded, 3);
    let single = seq![character];
    let double = seq!['%', character];
    let lone = seq!['%'];
    assert(single.skip(1) =~= Seq::<char>::empty());
    assert(lone.skip(1) =~= Seq::<char>::empty());
    assert(double.skip(1) =~= single);
    assert(plain(double, false) =~= if character == '%' {
        seq!['%']
    } else {
        Seq::empty()
    });
    if character != '%' {
        assert(plain(single, false) =~= single);
    }
    reveal_strlit("fFuUickdDnNvm");
    let codes = "fFuUickdDnNvm"@;
    assert(codes =~= seq![
        'f',
        'F',
        'u',
        'U',
        'i',
        'c',
        'k',
        'd',
        'D',
        'n',
        'N',
        'v',
        'm',
    ]);
    assert(codes[0] == 'f' && codes[1] == 'F' && codes[2] == 'u' && codes[3] == 'U' && codes[4]
        == 'i' && codes[5] == 'c' && codes[6] == 'k' && codes[7] == 'd' && codes[8] == 'D'
        && codes[9] == 'n' && codes[10] == 'N' && codes[11] == 'v' && codes[12] == 'm');
}

proof fn lemma_plain_together(first: Seq<char>, second: Seq<char>, code: bool)
    requires
        coded(first, code),
    ensures
        plain(first + second, code) == plain(first, code) + plain(second, false),
        coded(first + second, code) == coded(second, false),
    decreases first.len(),
{
    if first.len() == 0 {
        assert(first + second =~= second);
        assert(plain(first, code) + plain(second, false) =~= plain(second, false));
    } else {
        let rest = first.skip(1);
        assert((first + second).skip(1) =~= rest + second);
        assert((first + second)[0] == first[0]);
        if code {
            lemma_plain_together(rest, second, false);
        } else {
            lemma_plain_together(rest, second, first[0] == '%');
        }
        assert(plain(first + second, code) =~= plain(first, code) + plain(second, false));
    }
}

/// Words are read one by one: an empty word stays, a word of nothing but field codes is
/// left out, and every other one keeps what its codes leave. A line is a command where
/// each of its words is.
pub proof fn law_words_are_read_one_by_one(words: Seq<Seq<char>>, word: Seq<char>)
    ensures
        command_from(Some(Seq::empty())) == Some(Seq::<Seq<char>>::empty()),
        command_from(None) is None,
        command_from(Some(words)) is Some ==> command_from(Some(words.push(word))) == if !coded(
            word,
            false,
        ) {
            None
        } else if word.len() > 0 && plain(word, false).len() == 0 {
            command_from(Some(words))
        } else {
            Some(command_from(Some(words))->Some_0.push(plain(word, false)))
        },
        command_from(Some(words)) is None ==> command_from(Some(words.push(word))) is None,
{
    let longer = words.push(word);
    lemma_without_codes_prefix(words, word, words.len() as int);
    assert(longer.last() == word);
    assert(command_from(Some(Seq::empty()))->Some_0 =~= Seq::<Seq<char>>::empty());
    if codes_known(words) {
        if coded(word, false) {
            assert forall|index: int| 0 <= index < longer.len() implies coded(
                #[trigger] longer[index],
                false,
            ) by {
                if index < words.len() {
                    assert(longer[index] == words[index]);
                }
            }
        } else {
            assert(!coded(longer[words.len() as int], false));
        }
    } else {
        let index = choose|index: int|
            0 <= index < words.len() && !coded(#[trigger] words[index], false);
        assert(longer[index] == words[index]);
    }
}

proof fn lemma_without_codes_prefix(words: Seq<Seq<char>>, word: Seq<char>, count: int)
    requires
        0 <= count <= words.len(),
    ensures
        without_codes(words.push(word), count) == without_codes(words, count),
    decreases count,
{
    if count > 0 {
        lemma_without_codes_prefix(words, word, count - 1);
        assert(words.push(word)[count - 1] == words[count - 1]);
    }
}

/// The value of the last of some fields that has a key.
pub open spec fn last_value(fields: Seq<(Seq<char>, Seq<char>)>, key: Seq<char>) -> Option<
    Seq<char>,
>
    decreases fields.len(),
{
    if fields.len() == 0 {
        None
    } else if fields.last().0 == key {
        Some(fields.last().1)
    } else {
        last_value(fields.drop_last(), key)
    }
}

/// Whether a value says yes, in letters of either case.
pub open spec fn affirmed(value: Option<Seq<char>>) -> bool {
    value matches Some(value) && crate::text::same_letters(value, "true"@)
}

/// Whether a line writes a field, with white space around it or not.
pub open spec fn writes(line: Seq<char>, field: (Seq<char>, Seq<char>)) -> bool {
    &&& crate::text::trimmed(line) == field.0.push('=') + field.1
    &&& !field.0.contains('=')
    &&& !crate::text::starts(field.0, '[')
    &&& !crate::text::starts(field.0, '#')
}

/// An entry says what the fields of its group say, of one key the last: a group that is
/// opened and then lists fields, one to a line.
#[verifier::rlimit(30)]
pub proof fn law_an_entry_says_what_its_fields_say(
    lines: Seq<Seq<char>>,
    fields: Seq<(Seq<char>, Seq<char>)>,
)
    requires
        lines.len() == fields.len() + 1,
        crate::text::trimmed(lines[0]) == "[Desktop Entry]"@,
        forall|index: int|
            0 <= index < fields.len() ==> writes(#[trigger] lines[index + 1], fields[index]),
    ensures
        ({
            let (inside, entry) = lines_read(lines, lines.len() as int);
            &&& inside
            &&& entry.name == last_value(fields, "Name"@)
            &&& entry.try_exec == last_value(fields, "TryExec"@)
            &&& entry.command == match last_value(fields, "Exec"@) {
                Some(line) => command_from(shell_words_of(line)),
                None => None,
            }
            &&& entry.desktop_names == match last_value(fields, "DesktopNames"@) {
                Some(list) => names_in(list),
                None => Seq::empty(),
            }
            &&& entry.hidden == affirmed(last_value(fields, "Hidden"@))
            &&& entry.no_display == affirmed(last_value(fields, "NoDisplay"@))
            &&& entry.application == (last_value(fields, "Type"@) matches Some(kind) ==> kind
                == "Application"@)
        }),
    decreases fields.len(),
{
    reveal_strlit("[Desktop Entry]");
    reveal_strlit("Name");
    reveal_strlit("TryExec");
    reveal_strlit("Exec");
    reveal_strlit("DesktopNames");
    reveal_strlit("Hidden");
    reveal_strlit("NoDisplay");
    reveal_strlit("Type");
    assert("NoDisplay"@[0] != "DesktopNames"@[0] && "NoDisplay"@.len() != "Name"@.len());
    assert("Name"@[0] != "Type"@[0] && "Name"@[0] != "Exec"@[0] && "Type"@[0] != "Exec"@[0]);
    assert("TryExec"@.len() == 7 && "Hidden"@.len() == 6 && "DesktopNames"@.len() == 12);
    if fields.len() == 0 {
        reveal_with_fuel(lines_read, 2);
        assert(crate::text::starts("[Desktop Entry]"@, '['));
        assert(lines_read(lines, 1) == line_read(false, blank(), lines[0]));
    } else {
        let shorter = lines.drop_last();
        let fewer = fields.drop_last();
        assert forall|index: int| 0 <= index < fewer.len() implies writes(
            #[trigger] shorter[index + 1],
            fewer[index],
        ) by {
            assert(shorter[index + 1] == lines[index + 1]);
            assert(fewer[index] == fields[index]);
        }
        law_an_entry_says_what_its_fields_say(shorter, fewer);
        lemma_lines_prefix(lines, lines.len() - 1);
        let field = fields.last();
        let line = lines[fields.len() - 1 + 1];
        assert(writes(line, field));
        let text = field.0.push('=') + field.1;
        crate::text::law_texts_are_cut_at_the_first_place(text, '=');
        assert(text[field.0.len() as int] == '=');
        assert(text.contains('='));
        let (head, tail) = crate::text::cut(text, '=')->Some_0;
        lemma_one_cut(field.0, field.1, head, tail, '=');
        assert(!crate::text::starts(text, '[') && !crate::text::starts(text, '#')) by {
            if field.0.len() > 0 {
                assert(text[0] == field.0[0]);
            } else {
                assert(text[0] == '=');
            }
        }
        let (inside, entry) = lines_read(lines, lines.len() - 1);
        assert(lines_read(lines, lines.len() as int) == (true, noted(entry, field.0, field.1)));
    }
}

proof fn lemma_lines_prefix(lines: Seq<Seq<char>>, count: int)
    requires
        0 <= count <= lines.len() - 1,
    ensures
        lines_read(lines.drop_last(), count) == lines_read(lines, count),
    decreases count,
{
    if count > 0 {
        lemma_lines_prefix(lines, count - 1);
    }
}

proof fn lemma_one_cut(
    head: Seq<char>,
    tail: Seq<char>,
    other_head: Seq<char>,
    other_tail: Seq<char>,
    separator: char,
)
    requires
        head.push(separator) + tail == other_head.push(separator) + other_tail,
        !head.contains(separator),
        !other_head.contains(separator),
    ensures
        head == other_head,
        tail == other_tail,
{
    let text = head.push(separator) + tail;
    assert(text[head.len() as int] == separator);
    assert(text[other_head.len() as int] == separator);
    if head.len() < other_head.len() {
        assert(other_head[head.len() as int] == text[head.len() as int]);
    } else if other_head.len() < head.len() {
        assert(head[other_head.len() as int] == text[other_head.len() as int]);
    }
    assert(head =~= text.subrange(0, head.len() as int));
    assert(other_head =~= text.subrange(0, head.len() as int));
    assert(tail =~= text.skip(head.len() as int + 1));
    assert(other_tail =~= text.skip(head.len() as int + 1));
}

/// What stands outside the group, in a comment, or without an equals sign says nothing;
/// the line of another group ends the group.
pub proof fn law_other_lines_say_nothing(inside: bool, entry: EntryModel, line: Seq<char>)
    ensures
        ({
            let text = crate::text::trimmed(line);
            let after = line_read(inside, entry, line);
            &&& !inside || crate::text::starts(text, '#') || crate::text::starts(text, '[')
                || !text.contains('=') ==> after.1 == entry
            &&& text == "[Desktop Entry]"@ ==> after.0
            &&& crate::text::starts(text, '[') && text != "[Desktop Entry]"@ ==> !after.0
            &&& !crate::text::starts(text, '[') ==> after.0 == inside
        }),
{
    reveal_strlit("[Desktop Entry]");
    crate::text::law_texts_are_cut_at_the_first_place(crate::text::trimmed(line), '=');
}

/// The names of a list are its parts that are not empty, in their order.
pub proof fn law_empty_names_are_left_out(names: Seq<Seq<char>>, count: int)
    requires
        0 <= count <= names.len(),
    ensures
        filled(names, count) == names.take(count).filter(|name: Seq<char>| name.len() > 0),
    decreases count,
{
    let present = |name: Seq<char>| name.len() > 0;
    reveal(Seq::filter);
    if count > 0 {
        law_empty_names_are_left_out(names, count - 1);
        assert(names.take(count).drop_last() =~= names.take(count - 1));
        assert(names.take(count).last() == names[count - 1]);
    } else {
        assert(names.take(0).filter(present) =~= Seq::empty());
    }
}

/// A session is shown where its entry is an application that is neither deleted nor to
/// be left out, and has a name, a file name, and a program that can be found whatever the
/// working directory is. It says what the entry says.
pub proof fn law_visible_and_complete_entries_are_shown(entry: EntryModel, id: Option<Seq<char>>)
    ensures
        session_of(entry, id) is Some <==> !entry.hidden && !entry.no_display && entry.application
            && entry.name is Some && id is Some && (entry.command matches Some(command)
            && command.len() > 0 && (command[0].contains('/') ==> command[0].len() > 0
            && command[0][0] == '/')),
        session_of(entry, id) matches Some(session) ==> entry.name == Some(session.name) && id
            == Some(session.session_id) && entry.command == Some(session.command)
            && session.desktop_names == entry.desktop_names,
{
}

/// A program without a slash is looked for in every directory of the search, one with a
/// slash only where its path does not depend on the working directory.
pub proof fn law_programs_are_looked_for_where_they_can_lie(
    program: Seq<char>,
    search: Seq<std::path::PathBuf>,
    index: int,
)
    ensures
        !program.contains('/') ==> places_of(program, search).len() == search.len(),
        !program.contains('/') && 0 <= index < search.len() ==> places_of(program, search)[index]
            == crate::paths::path_join(search[index], program),
        program.contains('/') && program[0] == '/' ==> places_of(program, search).len() == 1
            && places_of(program, search)[0] == crate::paths::path_from(program),
        program.contains('/') && program[0] != '/' ==> places_of(program, search).len() == 0,
{
}

/// A file that cannot be read, or shows no session, needs no program; every other one
/// needs the first word of its command, and the one it names to be tried.
pub proof fn law_offers_need_their_programs(
    id: Seq<char>,
    contents: Seq<char>,
    search: Seq<std::path::PathBuf>,
)
    ensures
        offer_in(id, None, search).session is None,
        offer_in(id, None, search).id == id,
        offer_in(id, Some(contents), search).id == id,
        offer_in(id, Some(contents), search).session == session_of(entry_in(contents), Some(id)),
        offer_in(id, Some(contents), search).tried is Some <==> entry_in(contents).try_exec is Some,
        entry_in(contents).try_exec matches Some(program) ==> offer_in(
            id,
            Some(contents),
            search,
        ).tried == Some(places_of(program, search)),
        offer_in(id, Some(contents), search).session matches Some(session) ==> offer_in(
            id,
            Some(contents),
            search,
        ).places == places_of(session.command[0], search),
{
}

/// The environment says that the session is one of Wayland and which it is, and names
/// its desktops, with colons between them, where it has any.
pub proof fn law_the_environment_names_the_session(session: SessionModel)
    ensures
        variables(session).contains("XDG_SESSION_TYPE=wayland"@),
        variables(session).contains("XDG_SESSION_DESKTOP="@ + session.session_id),
        session.desktop_names.len() > 0 ==> variables(session).len() == 3 && variables(
            session,
        ).contains("XDG_CURRENT_DESKTOP="@ + crate::text::strung(session.desktop_names, ':')),
        session.desktop_names.len() == 0 ==> variables(session).len() == 2,
{
    lemma_listed(session.desktop_names);
    assert(variables(session)[0] == "XDG_SESSION_TYPE=wayland"@);
    assert(variables(session)[1] == "XDG_SESSION_DESKTOP="@ + session.session_id);
    if session.desktop_names.len() > 0 {
        assert(variables(session)[2] == "XDG_CURRENT_DESKTOP="@ + listed(session.desktop_names));
    }
}

proof fn lemma_listed(names: Seq<Seq<char>>)
    ensures
        listed(names) == crate::text::strung(names, ':'),
    decreases names.len(),
{
    if names.len() > 1 {
        lemma_listed(names.drop_last());
        assert(listed(names) =~= crate::text::strung(names, ':'));
    }
}

} // verus!
