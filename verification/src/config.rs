//! The tool's settings and how an INI file sets them.
//!
//! Settings live in the section `[TOGGLE PLAYERS]` under the keys `hotkey`
//! (hexadecimal, with optional `0x` prefixes), `lower_players` and
//! `upper_players` (decimal). Sections are read in file order and entries in
//! section order, so the last value given for a key wins; other sections and
//! keys are ignored.
use crate::text::{hotkey_value, parse_hotkey, parse_player_count, player_count_value};
use crate::ini_text::{
    lemma_empty_text, lemma_encode_push, lemma_trailing_line_feed, parse_ini, parse_ini_text,
};
use crate::utils::decode_text;
use vstd::prelude::*;
use vstd::slice::slice_subrange;
use vstd::utf8::*;

verus! {

/// The hotkey and the two player counts it switches between.
#[derive(Clone, Copy, Debug, PartialEq, Eq, Structural)]
pub struct Config {
    pub hotkey: u32,
    pub lower_players: u8,
    pub upper_players: u8,
}

/// Why a configuration file cannot be read.
#[derive(Clone, Copy, Debug, PartialEq, Eq, Structural)]
pub enum ConfigError {
    /// The file, after an optional byte order mark, is not UTF-8.
    NotUtf8,
    /// The INI parser rejected the text.
    Syntax,
    /// The file has entries before its first section header.
    UnnamedSection,
    /// A `hotkey` value in the settings section is not a hexadecimal `u32`.
    BadHotkey,
    /// A player count in the settings section is not a decimal `u8`.
    BadPlayerCount,
}

/// One section of a parsed INI document: its name (`None` for entries that
/// come before any header) and its entries in file order.
pub struct IniSection {
    pub name: Option<String>,
    pub entries: Vec<(String, String)>,
}

/// A section as plain values: name, then (key, value) pairs.
pub type SectionModel = (Option<Seq<char>>, Seq<(Seq<char>, Seq<char>)>);

pub open spec fn entries_model(e: Seq<(String, String)>) -> Seq<(Seq<char>, Seq<char>)> {
    e.map_values(|p: (String, String)| (p.0@, p.1@))
}

pub open spec fn section_model(s: IniSection) -> SectionModel {
    (
        match s.name {
            Some(n) => Some(n@),
            None => None,
        },
        entries_model(s.entries@),
    )
}

pub open spec fn sections_model(v: Seq<IniSection>) -> Seq<SectionModel> {
    v.map_values(|s: IniSection| section_model(s))
}

/// The sections that the INI reader gets from a text, or `None` where it
/// rejects the text.
pub open spec fn ini_sections(text: Seq<char>) -> Option<
    Seq<(Option<Seq<char>>, Seq<(Seq<char>, Seq<char>)>)>,
> {
    parse_ini_text(text)
}

/// Reads the sections of an INI text.
fn load_ini(text: &str) -> (res: Option<Vec<IniSection>>)
    ensures
        ini_sections(text@) == (match res {
            Some(v) => Some(sections_model(v@)),
            None => None,
        }),
{
    parse_ini(text)
}

/// Name of the section that holds the settings.
pub open spec fn settings_section() -> Seq<char> {
    "TOGGLE PLAYERS"@
}

/// What is wrong with one entry of the settings section, if anything.
pub open spec fn entry_fault(key: Seq<char>, value: Seq<char>) -> Option<ConfigError> {
    if key == "hotkey"@ {
        if hotkey_value(value) is None {
            Some(ConfigError::BadHotkey)
        } else {
            None
        }
    } else if key == "lower_players"@ || key == "upper_players"@ {
        if player_count_value(value) is None {
            Some(ConfigError::BadPlayerCount)
        } else {
            None
        }
    } else {
        None
    }
}

/// `c` after one entry of the settings section.
pub open spec fn apply_entry(c: Config, key: Seq<char>, value: Seq<char>) -> Config {
    if key == "hotkey"@ {
        match hotkey_value(value) {
            Some(v) => Config { hotkey: v as u32, lower_players: c.lower_players, upper_players: c.upper_players },
            None => c,
        }
    } else if key == "lower_players"@ {
        match player_count_value(value) {
            Some(v) => Config { hotkey: c.hotkey, lower_players: v as u8, upper_players: c.upper_players },
            None => c,
        }
    } else if key == "upper_players"@ {
        match player_count_value(value) {
            Some(v) => Config { hotkey: c.hotkey, lower_players: c.lower_players, upper_players: v as u8 },
            None => c,
        }
    } else {
        c
    }
}

/// The first faulty entry, in order.
pub open spec fn entries_fault(e: Seq<(Seq<char>, Seq<char>)>) -> Option<ConfigError>
    decreases e.len(),
{
    if e.len() == 0 {
        None
    } else {
        match entries_fault(e.drop_last()) {
            Some(f) => Some(f),
            None => entry_fault(e.last().0, e.last().1),
        }
    }
}

/// `c` after the entries, in order.
pub open spec fn apply_entries(c: Config, e: Seq<(Seq<char>, Seq<char>)>) -> Config
    decreases e.len(),
{
    if e.len() == 0 {
        c
    } else {
        apply_entry(apply_entries(c, e.drop_last()), e.last().0, e.last().1)
    }
}

/// What is wrong with a section, if anything: an unnamed one always is, and
/// a named one only when it is the settings section with a faulty entry.
pub open spec fn section_fault(s: SectionModel) -> Option<ConfigError> {
    match s.0 {
        None => Some(ConfigError::UnnamedSection),
        Some(n) => if n == settings_section() {
            entries_fault(s.1)
        } else {
            None
        },
    }
}

/// `c` after one section: only the settings section changes anything.
pub open spec fn apply_section(c: Config, s: SectionModel) -> Config {
    match s.0 {
        Some(n) => if n == settings_section() {
            apply_entries(c, s.1)
        } else {
            c
        },
        None => c,
    }
}

/// The first fault of a document, in section order.
pub open spec fn document_fault(d: Seq<SectionModel>) -> Option<ConfigError>
    decreases d.len(),
{
    if d.len() == 0 {
        None
    } else {
        match document_fault(d.drop_last()) {
            Some(f) => Some(f),
            None => section_fault(d.last()),
        }
    }
}

/// `c` after every section of a document, in order.
pub open spec fn apply_document(c: Config, d: Seq<SectionModel>) -> Config
    decreases d.len(),
{
    if d.len() == 0 {
        c
    } else {
        apply_section(apply_document(c, d.drop_last()), d.last())
    }
}

/// Whether the file starts with the UTF-8 byte order mark.
pub open spec fn has_bom(bytes: Seq<u8>) -> bool {
    bytes.len() >= 3 && bytes[0] == 0xEF && bytes[1] == 0xBB && bytes[2] == 0xBF
}

/// The file's bytes without a leading byte order mark.
pub open spec fn without_bom(bytes: Seq<u8>) -> Seq<u8> {
    if has_bom(bytes) {
        bytes.skip(3)
    } else {
        bytes
    }
}

/// The text of a configuration file.
pub open spec fn file_text(bytes: Seq<u8>) -> Seq<char> {
    decode_utf8(without_bom(bytes))
}

/// Why a configuration file cannot be read, if it cannot.
pub open spec fn file_fault(bytes: Seq<u8>) -> Option<ConfigError> {
    if !valid_utf8(without_bom(bytes)) {
        Some(ConfigError::NotUtf8)
    } else {
        match ini_sections(file_text(bytes)) {
            None => Some(ConfigError::Syntax),
            Some(d) => document_fault(d),
        }
    }
}

/// `c` after reading a configuration file that has no fault.
pub open spec fn reloaded(c: Config, bytes: Seq<u8>) -> Config {
    apply_document(c, ini_sections(file_text(bytes)).unwrap())
}

fn entry_check(key: &String, value: &String) -> (r: Option<ConfigError>)
    ensures
        r == entry_fault(key@, value@),
{
    let hotkey_key = String::from_str("hotkey");
    let lower_key = String::from_str("lower_players");
    let upper_key = String::from_str("upper_players");
    if *key == hotkey_key {
        match parse_hotkey(value.as_str()) {
            Some(_) => None,
            None => Some(ConfigError::BadHotkey),
        }
    } else if *key == lower_key || *key == upper_key {
        match parse_player_count(value.as_str()) {
            Some(_) => None,
            None => Some(ConfigError::BadPlayerCount),
        }
    } else {
        None
    }
}

fn is_settings_section(name: &String) -> (r: bool)
    ensures
        r == (name@ == settings_section()),
{
    let settings = String::from_str("TOGGLE PLAYERS");
    *name == settings
}

/// The first fault of a parsed document, in file order.
pub fn first_fault(sections: &Vec<IniSection>) -> (r: Option<ConfigError>)
    ensures
        r == document_fault(sections_model(sections@)),
{
    let ghost d = sections_model(sections@);
    let mut i: usize = 0;
    while i < sections.len()
        invariant
            i <= sections@.len(),
            d == sections_model(sections@),
            document_fault(d.take(i as int)) is None,
        decreases sections@.len() - i,
    {
        let ghost before = d.take(i as int);
        assert(d.take(i + 1).drop_last() =~= before);
        assert(d.take(i + 1).last() == section_model(sections@[i as int]));
        let section = &sections[i];
        match &section.name {
            None => {
                assert(document_fault(d) == document_fault(d.take(i + 1))) by {
                    lemma_document_fault_sticks(d, (i + 1) as nat);
                }
                return Some(ConfigError::UnnamedSection);
            },
            Some(name) => {
                if is_settings_section(name) {
                    let fault = entries_first_fault(&section.entries);
                    if fault.is_some() {
                        assert(document_fault(d) == document_fault(d.take(i + 1))) by {
                            lemma_document_fault_sticks(d, (i + 1) as nat);
                        }
                        return fault;
                    }
                }
            },
        }
        i = i + 1;
    }
    assert(d.take(i as int) =~= d);
    None
}

proof fn lemma_document_fault_sticks(d: Seq<SectionModel>, k: nat)
    requires
        k <= d.len(),
        document_fault(d.take(k as int)) is Some,
    ensures
        document_fault(d) == document_fault(d.take(k as int)),
    decreases d.len() - k,
{
    if k < d.len() {
        assert(d.take((k + 1) as int).drop_last() =~= d.take(k as int));
        lemma_document_fault_sticks(d, k + 1);
    } else {
        assert(d.take(k as int) =~= d);
    }
}

proof fn lemma_entries_fault_sticks(e: Seq<(Seq<char>, Seq<char>)>, k: nat)
    requires
        k <= e.len(),
        entries_fault(e.take(k as int)) is Some,
    ensures
        entries_fault(e) == entries_fault(e.take(k as int)),
    decreases e.len() - k,
{
    if k < e.len() {
        assert(e.take((k + 1) as int).drop_last() =~= e.take(k as int));
        lemma_entries_fault_sticks(e, k + 1);
    } else {
        assert(e.take(k as int) =~= e);
    }
}

fn entries_first_fault(entries: &Vec<(String, String)>) -> (r: Option<ConfigError>)
    ensures
        r == entries_fault(entries_model(entries@)),
{
    let ghost e = entries_model(entries@);
    let mut j: usize = 0;
    while j < entries.len()
        invariant
            j <= entries@.len(),
            e == entries_model(entries@),
            entries_fault(e.take(j as int)) is None,
        decreases entries@.len() - j,
    {
        assert(e.take(j + 1).drop_last() =~= e.take(j as int));
        let entry = &entries[j];
        let fault = entry_check(&entry.0, &entry.1);
        if fault.is_some() {
            proof {
                lemma_entries_fault_sticks(e, (j + 1) as nat);
            }
            return fault;
        }
        j = j + 1;
    }
    assert(e.take(j as int) =~= e);
    None
}

impl Config {
    /// The built-in settings: hotkey `0xC0`, one player on the first weapon
    /// set, eight on the second.
    pub fn new() -> (c: Config)
        ensures
            c.hotkey == 192,
            c.lower_players == 1,
            c.upper_players == 8,
    {
        Config { hotkey: 192, lower_players: 1, upper_players: 8 }
    }

    fn apply_entry(&mut self, key: &String, value: &String)
        requires
            entry_fault(key@, value@) is None,
        ensures
            *final(self) == apply_entry(*old(self), key@, value@),
    {
        let hotkey_key = String::from_str("hotkey");
        let lower_key = String::from_str("lower_players");
        let upper_key = String::from_str("upper_players");
        if *key == hotkey_key {
            if let Some(v) = parse_hotkey(value.as_str()) {
                self.hotkey = v;
            }
        } else if *key == lower_key {
            if let Some(v) = parse_player_count(value.as_str()) {
                self.lower_players = v;
            }
        } else if *key == upper_key {
            if let Some(v) = parse_player_count(value.as_str()) {
                self.upper_players = v;
            }
        }
    }

    fn apply_entries(&mut self, entries: &Vec<(String, String)>)
        requires
            entries_fault(entries_model(entries@)) is None,
        ensures
            *final(self) == apply_entries(*old(self), entries_model(entries@)),
    {
        let ghost e = entries_model(entries@);
        let ghost start = *self;
        let mut j: usize = 0;
        while j < entries.len()
            invariant
                j <= entries@.len(),
                e == entries_model(entries@),
                entries_fault(e) is None,
                *self == apply_entries(start, e.take(j as int)),
            decreases entries@.len() - j,
        {
            assert(e.take(j + 1).drop_last() =~= e.take(j as int));
            proof {
                if entries_fault(e.take(j + 1)) is Some {
                    lemma_entries_fault_sticks(e, (j + 1) as nat);
                }
            }
            let entry = &entries[j];
            self.apply_entry(&entry.0, &entry.1);
            j = j + 1;
        }
        assert(e.take(j as int) =~= e);
    }

    /// Applies a parsed INI document: each entry of each `[TOGGLE PLAYERS]`
    /// section, in order.
    pub fn apply_sections(&mut self, sections: &Vec<IniSection>)
        requires
            document_fault(sections_model(sections@)) is None,
        ensures
            *final(self) == apply_document(*old(self), sections_model(sections@)),
    {
        let ghost d = sections_model(sections@);
        let ghost start = *self;
        let mut i: usize = 0;
        while i < sections.len()
            invariant
                i <= sections@.len(),
                d == sections_model(sections@),
                document_fault(d) is None,
                *self == apply_document(start, d.take(i as int)),
            decreases sections@.len() - i,
        {
            assert(d.take(i + 1).drop_last() =~= d.take(i as int));
            assert(d.take(i + 1).last() == section_model(sections@[i as int]));
            proof {
                if document_fault(d.take(i + 1)) is Some {
                    lemma_document_fault_sticks(d, (i + 1) as nat);
                }
            }
            let section = &sections[i];
            if let Some(name) = &section.name {
                if is_settings_section(name) {
                    self.apply_entries(&section.entries);
                }
            }
            i = i + 1;
        }
        assert(d.take(i as int) =~= d);
    }

    /// Reads the settings from the bytes of a configuration file that can be
    /// read: an optional byte order mark, then UTF-8 INI text.
    pub fn reload(&mut self, contents: &[u8])
        requires
            file_fault(contents@) is None,
        ensures
            *final(self) == reloaded(*old(self), contents@),
    {
        let text = match decode_text(file_body(contents)) {
            Some(t) => t,
            None => {
                return ;
            },
        };
        if let Some(sections) = load_ini(text.as_str()) {
            self.apply_sections(&sections);
        }
    }

    /// Reads the settings from the bytes of a configuration file, or says
    /// why the file cannot be read and leaves the settings as they were.
    pub fn try_reload(&mut self, contents: &[u8]) -> (r: Result<(), ConfigError>)
        ensures
            match file_fault(contents@) {
                Some(f) => r == Err::<(), ConfigError>(f) && *final(self) == *old(self),
                None => r is Ok && *final(self) == reloaded(*old(self), contents@),
            },
    {
        let text = match decode_text(file_body(contents)) {
            Some(t) => t,
            None => {
                return Err(ConfigError::NotUtf8);
            },
        };
        match load_ini(text.as_str()) {
            None => Err(ConfigError::Syntax),
            Some(sections) => {
                match first_fault(&sections) {
                    Some(f) => Err(f),
                    None => {
                        self.reload(contents);
                        Ok(())
                    },
                }
            },
        }
    }
}

/// The value given last for `key` among entries, if any.
pub open spec fn entries_last(e: Seq<(Seq<char>, Seq<char>)>, key: Seq<char>) -> Option<Seq<char>>
    decreases e.len(),
{
    if e.len() == 0 {
        None
    } else if e.last().0 == key {
        Some(e.last().1)
    } else {
        entries_last(e.drop_last(), key)
    }
}

/// The value given last for `key` in the settings sections of a document,
/// if any.
pub open spec fn document_last(d: Seq<SectionModel>, key: Seq<char>) -> Option<Seq<char>>
    decreases d.len(),
{
    if d.len() == 0 {
        None
    } else if d.last().0 == Some(settings_section()) && entries_last(d.last().1, key) is Some {
        entries_last(d.last().1, key)
    } else {
        document_last(d.drop_last(), key)
    }
}

/// The settings that a fault-free document gives, starting from `c`: each
/// takes the value given last for its key, or keeps its value from `c`.
pub open spec fn settings_from(c: Config, d: Seq<SectionModel>) -> Config {
    Config {
        hotkey: match document_last(d, "hotkey"@) {
            Some(v) => hotkey_value(v).unwrap() as u32,
            None => c.hotkey,
        },
        lower_players: match document_last(d, "lower_players"@) {
            Some(v) => player_count_value(v).unwrap() as u8,
            None => c.lower_players,
        },
        upper_players: match document_last(d, "upper_players"@) {
            Some(v) => player_count_value(v).unwrap() as u8,
            None => c.upper_players,
        },
    }
}

/// The settings entries as `settings_from` reads them, for a list of entries.
pub open spec fn settings_from_entries(c: Config, e: Seq<(Seq<char>, Seq<char>)>) -> Config {
    Config {
        hotkey: match entries_last(e, "hotkey"@) {
            Some(v) => hotkey_value(v).unwrap() as u32,
            None => c.hotkey,
        },
        lower_players: match entries_last(e, "lower_players"@) {
            Some(v) => player_count_value(v).unwrap() as u8,
            None => c.lower_players,
        },
        upper_players: match entries_last(e, "upper_players"@) {
            Some(v) => player_count_value(v).unwrap() as u8,
            None => c.upper_players,
        },
    }
}

proof fn lemma_entries_last_value(c: Config, e: Seq<(Seq<char>, Seq<char>)>)
    requires
        entries_fault(e) is None,
    ensures
        apply_entries(c, e) == settings_from_entries(c, e),
    decreases e.len(),
{
    lemma_setting_keys_distinct();
    if e.len() > 0 {
        lemma_entries_last_value(c, e.drop_last());
    }
}

proof fn lemma_setting_keys_distinct()
    ensures
        "hotkey"@ != "lower_players"@,
        "hotkey"@ != "upper_players"@,
        "lower_players"@ != "upper_players"@,
{
    reveal_strlit("hotkey");
    reveal_strlit("lower_players");
    reveal_strlit("upper_players");
    assert("hotkey"@.len() != "lower_players"@.len());
    assert("hotkey"@.len() != "upper_players"@.len());
    assert("lower_players"@[0] != "upper_players"@[0]);
}

/// Law: reading a fault-free document gives each setting the value written
/// last for its key in a `[TOGGLE PLAYERS]` section, and leaves the settings
/// for which no value is written as they were.
pub proof fn lemma_last_value_wins(c: Config, d: Seq<SectionModel>)
    requires
        document_fault(d) is None,
    ensures
        apply_document(c, d) == settings_from(c, d),
    decreases d.len(),
{
    if d.len() > 0 {
        let rest = d.drop_last();
        let s = d.last();
        lemma_last_value_wins(c, rest);
        let before = apply_document(c, rest);
        if s.0 == Some(settings_section()) {
            lemma_entries_last_value(before, s.1);
        }
    }
}

/// Law: reading the same configuration file twice gives the same settings as
/// reading it once.
pub proof fn lemma_reload_idempotent(c: Config, contents: Seq<u8>)
    requires
        file_fault(contents) is None,
    ensures
        reloaded(reloaded(c, contents), contents) == reloaded(c, contents),
{
    let d = ini_sections(file_text(contents)).unwrap();
    lemma_last_value_wins(c, d);
    lemma_last_value_wins(reloaded(c, contents), d);
}

/// Law: a fault-free document without a `[TOGGLE PLAYERS]` section leaves the
/// settings unchanged.
pub proof fn lemma_other_sections_ignored(c: Config, d: Seq<SectionModel>)
    requires
        document_fault(d) is None,
        forall|i: int| 0 <= i < d.len() ==> #[trigger] d[i].0 != Some(settings_section()),
    ensures
        apply_document(c, d) == c,
    decreases d.len(),
{
    if d.len() > 0 {
        let rest = d.drop_last();
        assert forall|i: int| 0 <= i < rest.len() implies #[trigger] rest[i].0 != Some(
            settings_section(),
        ) by {
            assert(rest[i] == d[i]);
        }
        lemma_other_sections_ignored(c, rest);
        assert(d.last() == d[d.len() - 1]);
    }
}

proof fn lemma_entries_fault_kinds(e: Seq<(Seq<char>, Seq<char>)>)
    ensures
        entries_fault(e) != Some(ConfigError::Syntax),
        entries_fault(e) != Some(ConfigError::NotUtf8),
    decreases e.len(),
{
    if e.len() > 0 {
        lemma_entries_fault_kinds(e.drop_last());
    }
}

proof fn lemma_document_fault_kinds(d: Seq<SectionModel>)
    ensures
        document_fault(d) != Some(ConfigError::Syntax),
        document_fault(d) != Some(ConfigError::NotUtf8),
    decreases d.len(),
{
    if d.len() > 0 {
        lemma_document_fault_kinds(d.drop_last());
        lemma_entries_fault_kinds(d.last().1);
    }
}

/// Law: a file is reported as a syntax error exactly when its text is UTF-8
/// and the INI reader rejects it, and as not UTF-8 exactly when it is not.
pub proof fn lemma_fault_kinds(contents: Seq<u8>)
    ensures
        file_fault(contents) == Some(ConfigError::Syntax) <==> (valid_utf8(without_bom(contents))
            && ini_sections(file_text(contents)) is None),
        file_fault(contents) == Some(ConfigError::NotUtf8) <==> !valid_utf8(without_bom(contents)),
{
    if valid_utf8(without_bom(contents)) {
        if let Some(d) = ini_sections(file_text(contents)) {
            lemma_document_fault_kinds(d);
        }
    }
}

/// Law: a file whose text reads as no sections (empty, blank, or only
/// comments) can be read, and leaves the settings as they were.
pub proof fn lemma_no_sections_file(c: Config, contents: Seq<u8>)
    requires
        valid_utf8(without_bom(contents)),
        ini_sections(file_text(contents)) == Some(Seq::<SectionModel>::empty()),
    ensures
        file_fault(contents) is None,
        reloaded(c, contents) == c,
{
}

/// Law: an empty file can be read, and leaves the settings as they were.
pub proof fn lemma_empty_file(c: Config)
    ensures
        file_fault(Seq::empty()) is None,
        reloaded(c, Seq::empty()) == c,
{
    let e = Seq::<u8>::empty();
    assert(without_bom(e) =~= e);
    assert(decode_utf8(e) =~= Seq::<char>::empty());
    lemma_empty_text();
    lemma_no_sections_file(c, e);
}

/// Law: a line feed added at the end of a readable file whose text does not
/// end in a backslash changes neither whether the file can be read nor the
/// settings it gives; the last line counts whether or not it is terminated.
pub proof fn lemma_file_trailing_line_feed(c: Config, contents: Seq<u8>)
    requires
        valid_utf8(without_bom(contents)),
        file_text(contents).len() == 0 || file_text(contents).last() != '\\',
    ensures
        file_fault(contents.push(10)) == file_fault(contents),
        reloaded(c, contents.push(10)) == reloaded(c, contents),
{
    let x = without_bom(contents);
    let longer = contents.push(10);
    if has_bom(contents) {
        assert(has_bom(longer));
        assert(without_bom(longer) =~= x.push(10));
    } else {
        assert(!has_bom(longer));
        assert(without_bom(longer) =~= x.push(10));
    }
    let chars = decode_utf8(x);
    decode_utf8_encode_utf8(x);
    lemma_encode_push(chars, '\n');
    assert(((10u32 & 0x7F) as u8) == 10u8) by (bit_vector);
    assert(encode_scalar('\n' as u32) =~= seq![10u8]);
    assert(x + seq![10u8] =~= x.push(10));
    encode_utf8_valid_utf8(chars.push('\n'));
    encode_utf8_decode_utf8(chars.push('\n'));
    assert(file_text(longer) == chars.push('\n'));
    lemma_trailing_line_feed(chars);
}

/// The bytes of a configuration file after an optional byte order mark.
pub fn file_body(contents: &[u8]) -> (body: &[u8])
    ensures
        body@ == without_bom(contents@),
{
    let n = contents.len();
    if n >= 3 && contents[0] == 0xEF && contents[1] == 0xBB && contents[2] == 0xBF {
        slice_subrange(contents, 3, n)
    } else {
        assert(contents@.subrange(0, n as int) =~= contents@);
        contents
    }
}

} // verus!
