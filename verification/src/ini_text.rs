//! The INI text format of the configuration file, read one character at a
//! time.
//!
//! - Between items, white space is skipped. `;` or `#` at the very start of a
//!   line begins a comment that runs to the end of the line; elsewhere it is
//!   an error.
//! - `[name]` starts a section; the name is trimmed.
//! - `key=value` or `key:value` adds an entry to the current section (or, before
//!   any header, to an unnamed section). The key runs up to the `=` or `:`
//!   and must not be empty once trimmed; the value runs to the end of the line
//!   or of the text and is trimmed. A value may start with a quoted part (`"`
//!   or `'`), which may span lines.
//! - Backslash escapes `\0 \a \b \t \r \n`, an escaped line break (dropped),
//!   `\xHHHH` (a character by its hexadecimal code), and `\c` for any other
//!   `c`, apply in names, keys and values.
use crate::config::{entries_model, section_model, sections_model, IniSection, SectionModel};
use crate::text::{chars_of, parse_unsigned, parse_unsigned_from};
use crate::utils::decode_text;
use vstd::prelude::*;
use vstd::utf8::*;

verus! {

/// What the reader is in the middle of.
#[derive(Clone, Copy, Debug, PartialEq, Eq, Structural)]
pub enum Mode {
    /// Between items.
    Top,
    /// In a comment.
    Comment,
    /// In a section header, after `[`.
    Section,
    /// In a key.
    Key,
    /// After `=` or `:`, skipping white space before the value.
    ValueLead,
    /// In the quoted start of a value.
    Quoted { quote: char },
    /// In a value.
    Value,
    /// The text was rejected.
    Failed,
}

/// Where the reader is in an escape sequence.
#[derive(Clone, Copy, Debug, PartialEq, Eq, Structural)]
pub enum Escape {
    Plain,
    /// Just after a backslash.
    Backslash,
    /// In the four digits of `\x`.
    Hex,
}

/// The reader's state after some prefix of the text.
pub struct ParseState {
    pub mode: Mode,
    pub escape: Escape,
    /// Whether the last character read was a line feed, or none was read.
    pub line_start: bool,
    /// The name, key or value read so far.
    pub buf: Seq<char>,
    /// The digits of a `\x` escape read so far.
    pub hex: Seq<char>,
    /// The key of the value being read.
    pub key: Seq<char>,
    /// The sections read so far.
    pub doc: Seq<SectionModel>,
}

/// Unicode white space, as `char::is_whitespace` and `str::trim` use it.
pub open spec fn is_white_space(c: char) -> bool {
    let n = c as u32;
    (9 <= n && n <= 13) || n == 32 || n == 0x85 || n == 0xA0 || n == 0x1680 || (0x2000 <= n && n
        <= 0x200A) || n == 0x2028 || n == 0x2029 || n == 0x202F || n == 0x205F || n == 0x3000
}

pub open spec fn trim_start(s: Seq<char>) -> Seq<char>
    decreases s.len(),
{
    if s.len() > 0 && is_white_space(s[0]) {
        trim_start(s.drop_first())
    } else {
        s
    }
}

pub open spec fn trim_end(s: Seq<char>) -> Seq<char>
    decreases s.len(),
{
    if s.len() > 0 && is_white_space(s.last()) {
        trim_end(s.drop_last())
    } else {
        s
    }
}

/// `s` without white space at either end.
pub open spec fn trim(s: Seq<char>) -> Seq<char> {
    trim_end(trim_start(s))
}

/// The character that `\c` stands for, when `c` is not `x` or a line feed.
pub open spec fn escaped(c: char) -> char {
    if c == '0' {
        '\0'
    } else if c == 'a' {
        '\x07'
    } else if c == 'b' {
        '\x08'
    } else if c == 't' {
        '\t'
    } else if c == 'r' {
        '\r'
    } else if c == 'n' {
        '\n'
    } else {
        c
    }
}

/// Whether `v` is the code of a character.
pub open spec fn is_char_code(v: nat) -> bool {
    v <= 0x10FFFF && !(0xD800 <= v && v <= 0xDFFF)
}

/// The character of a `\x` escape's four digits, if they give one.
pub open spec fn hex_escape(h: Seq<char>) -> Option<char> {
    match parse_unsigned(h, 16, 0xffff_ffff) {
        Some(v) => if is_char_code(v) {
            Some(v as char)
        } else {
            None
        },
        None => None,
    }
}

/// `s` once it has failed.
pub open spec fn failed(s: ParseState) -> ParseState {
    ParseState { mode: Mode::Failed, ..s }
}

/// The document with one more entry: into the last section, or into a new
/// unnamed section when there is none yet.
pub open spec fn add_entry(doc: Seq<SectionModel>, key: Seq<char>, value: Seq<char>) -> Seq<
    SectionModel,
> {
    if doc.len() == 0 {
        seq![(None, seq![(key, value)])]
    } else {
        doc.update(doc.len() - 1, (doc.last().0, doc.last().1.push((key, value))))
    }
}

/// One character of a name, key or value, outside its terminators.
pub open spec fn string_char(s: ParseState, c: char) -> ParseState {
    match s.escape {
        Escape::Plain => if c == '\\' {
            ParseState { escape: Escape::Backslash, ..s }
        } else {
            ParseState { buf: s.buf.push(c), ..s }
        },
        Escape::Backslash => if c == 'x' {
            ParseState { escape: Escape::Hex, hex: Seq::empty(), ..s }
        } else if c == '\n' {
            ParseState { escape: Escape::Plain, ..s }
        } else {
            ParseState { escape: Escape::Plain, buf: s.buf.push(escaped(c)), ..s }
        },
        Escape::Hex => if c == '\\' {
            failed(s)
        } else if s.hex.len() + 1 < 4 {
            ParseState { hex: s.hex.push(c), ..s }
        } else {
            match hex_escape(s.hex.push(c)) {
                Some(h) => ParseState {
                    escape: Escape::Plain,
                    buf: s.buf.push(h),
                    hex: s.hex.push(c),
                    ..s
                },
                None => failed(ParseState { hex: s.hex.push(c), ..s }),
            }
        },
    }
}

/// One character of a value: a line break outside an escape ends it.
pub open spec fn value_char(s: ParseState, c: char) -> ParseState {
    if s.escape == Escape::Plain && (c == '\n' || c == '\r') {
        ParseState {
            mode: Mode::Top,
            line_start: c == '\n',
            doc: add_entry(s.doc, s.key, trim(s.buf)),
            ..s
        }
    } else {
        string_char(s, c)
    }
}

/// The reader's state after one more character.
pub open spec fn step(s: ParseState, c: char) -> ParseState {
    match s.mode {
        Mode::Failed => s,
        Mode::Top => if is_white_space(c) {
            ParseState { line_start: c == '\n', ..s }
        } else if c == ';' || c == '#' {
            if s.line_start {
                ParseState { mode: Mode::Comment, ..s }
            } else {
                failed(s)
            }
        } else if c == '[' {
            ParseState { mode: Mode::Section, escape: Escape::Plain, buf: Seq::empty(), ..s }
        } else if c == '=' || c == ':' {
            failed(s)
        } else {
            string_char(
                ParseState { mode: Mode::Key, escape: Escape::Plain, buf: Seq::empty(), ..s },
                c,
            )
        },
        Mode::Comment => if c == '\n' {
            ParseState { mode: Mode::Top, line_start: true, ..s }
        } else {
            s
        },
        Mode::Section => if s.escape == Escape::Plain && c == ']' {
            ParseState {
                mode: Mode::Top,
                line_start: false,
                doc: s.doc.push((Some(trim(s.buf)), Seq::empty())),
                ..s
            }
        } else {
            string_char(s, c)
        },
        Mode::Key => if s.escape == Escape::Plain && (c == '=' || c == ':') {
            if trim(s.buf).len() == 0 {
                failed(s)
            } else {
                ParseState { mode: Mode::ValueLead, key: trim(s.buf), ..s }
            }
        } else {
            string_char(s, c)
        },
        Mode::ValueLead => if is_white_space(c) && c != '\n' && c != '\r' {
            s
        } else if c == '"' || c == '\'' {
            ParseState {
                mode: Mode::Quoted { quote: c },
                escape: Escape::Plain,
                buf: Seq::empty(),
                ..s
            }
        } else {
            value_char(ParseState { mode: Mode::Value, escape: Escape::Plain, buf: Seq::empty(), ..s }, c)
        },
        Mode::Quoted { quote } => if s.escape == Escape::Plain && c == quote {
            ParseState { mode: Mode::Value, ..s }
        } else {
            string_char(s, c)
        },
        Mode::Value => value_char(s, c),
    }
}

/// The state before any character.
pub open spec fn initial_state() -> ParseState {
    ParseState {
        mode: Mode::Top,
        escape: Escape::Plain,
        line_start: true,
        buf: Seq::empty(),
        hex: Seq::empty(),
        key: Seq::empty(),
        doc: Seq::empty(),
    }
}

/// The state after reading `t` from `s`.
pub open spec fn run_from(s: ParseState, t: Seq<char>) -> ParseState
    decreases t.len(),
{
    if t.len() == 0 {
        s
    } else {
        step(run_from(s, t.drop_last()), t.last())
    }
}

/// The state after reading `t`.
pub open spec fn run(t: Seq<char>) -> ParseState {
    run_from(initial_state(), t)
}

/// The document, once the text has ended in state `s`; `None` where the end
/// comes inside a header, key, quoted part or escape.
pub open spec fn finish(s: ParseState) -> Option<Seq<SectionModel>> {
    match s.mode {
        Mode::Top | Mode::Comment => Some(s.doc),
        Mode::ValueLead => Some(add_entry(s.doc, s.key, Seq::empty())),
        Mode::Value => if s.escape == Escape::Plain {
            Some(add_entry(s.doc, s.key, trim(s.buf)))
        } else {
            None
        },
        _ => None,
    }
}

/// The sections of an INI text, in order, or `None` where the text is
/// rejected.
pub open spec fn parse_ini_text(t: Seq<char>) -> Option<Seq<SectionModel>> {
    finish(run(t))
}

/// Whether reading `t` ends between items at the start of a line.
pub open spec fn at_line_start(t: Seq<char>) -> bool {
    run(t).mode == Mode::Top && run(t).line_start
}

/// A character that needs no escape and ends nothing in names, keys and
/// values.
pub open spec fn plain_char(c: char) -> bool {
    !is_white_space(c) && c != '\\' && c != '=' && c != ':' && c != ';' && c != '#' && c != '['
        && c != ']' && c != '"' && c != '\''
}

pub open spec fn plain(s: Seq<char>) -> bool {
    forall|i: int| 0 <= i < s.len() ==> plain_char(#[trigger] s[i])
}

/// A line ending: a line feed, or a carriage return and a line feed.
pub open spec fn line_end(crlf: bool) -> Seq<char> {
    if crlf {
        seq!['\r', '\n']
    } else {
        seq!['\n']
    }
}

pub proof fn lemma_run_from_append(s: ParseState, a: Seq<char>, b: Seq<char>)
    ensures
        run_from(s, a + b) == run_from(run_from(s, a), b),
    decreases b.len(),
{
    if b.len() == 0 {
        assert(a + b =~= a);
    } else {
        assert((a + b).drop_last() =~= a + b.drop_last());
        assert((a + b).last() == b.last());
        lemma_run_from_append(s, a, b.drop_last());
    }
}

proof fn lemma_run_one(s: ParseState, c: char)
    ensures
        run_from(s, seq![c]) == step(s, c),
{
    assert(seq![c].drop_last() =~= Seq::<char>::empty());
    assert(run_from(s, Seq::<char>::empty()) == s);
    assert(seq![c].last() == c);
}

/// Plain characters just extend the name, key or value being read.
proof fn lemma_plain_run(s: ParseState, t: Seq<char>)
    requires
        s.mode == Mode::Key || s.mode == Mode::Value || s.mode == Mode::Section,
        s.escape == Escape::Plain,
        plain(t),
    ensures
        run_from(s, t) == (ParseState { buf: s.buf + t, ..s }),
    decreases t.len(),
{
    if t.len() == 0 {
        assert(s.buf + t =~= s.buf);
    } else {
        lemma_plain_run(s, t.drop_last());
        assert(plain_char(t[t.len() - 1]));
        assert(s.buf + t =~= (s.buf + t.drop_last()).push(t.last()));
    }
}

proof fn lemma_trim_plain(s: Seq<char>)
    requires
        plain(s),
    ensures
        trim(s) == s,
{
    if s.len() > 0 {
        assert(plain_char(s[0]));
        assert(plain_char(s[s.len() - 1]));
    }
}

proof fn lemma_trim_empty()
    ensures
        trim(Seq::<char>::empty()) == Seq::<char>::empty(),
{
}

/// The end of a line, read between items, leaves the reader at the start of
/// the next line with the same document.
proof fn lemma_line_end(s: ParseState, crlf: bool)
    requires
        s.mode == Mode::Top,
    ensures
        run_from(s, line_end(crlf)) == (ParseState { line_start: true, ..s }),
{
    if crlf {
        assert(line_end(crlf).drop_last() =~= seq!['\r']);
        lemma_run_one(s, '\r');
    } else {
        lemma_run_one(s, '\n');
    }
}

/// Law: the empty text is read as no sections, at the start of a line.
pub proof fn lemma_empty_text()
    ensures
        at_line_start(Seq::empty()),
        run(Seq::empty()).doc == Seq::<SectionModel>::empty(),
        parse_ini_text(Seq::empty()) == Some(Seq::<SectionModel>::empty()),
{
}

/// Law: at the start of a line, the text read so far gives the sections read
/// so far.
pub proof fn lemma_line_start_document(t: Seq<char>)
    requires
        at_line_start(t),
    ensures
        parse_ini_text(t) == Some(run(t).doc),
{
}

proof fn lemma_key_run(s0: ParseState, key: Seq<char>)
    requires
        s0.mode == Mode::Top,
        key.len() > 0,
        plain(key),
    ensures
        run_from(s0, key + seq!['=']) == (ParseState {
            mode: Mode::ValueLead,
            escape: Escape::Plain,
            buf: key,
            key: key,
            ..s0
        }),
{
    let s1 = step(s0, key[0]);
    assert(plain_char(key[0]));
    assert(s1 == (ParseState { mode: Mode::Key, escape: Escape::Plain, buf: seq![key[0]], ..s0 }));
    lemma_run_one(s0, key[0]);
    let rest = key.drop_first();
    assert(plain(rest)) by {
        assert forall|i: int| 0 <= i < rest.len() implies plain_char(#[trigger] rest[i]) by {
            assert(rest[i] == key[i + 1]);
        }
    }
    lemma_plain_run(s1, rest);
    assert(seq![key[0]] + rest =~= key);
    lemma_run_from_append(s0, seq![key[0]], rest);
    let s2 = run_from(s0, key);
    assert(s2 == (ParseState { mode: Mode::Key, escape: Escape::Plain, buf: key, ..s0 }));
    lemma_trim_plain(key);
    lemma_run_one(s2, '=');
    lemma_run_from_append(s0, key, seq!['=']);
}

proof fn lemma_value_run(s3: ParseState, value: Seq<char>, crlf: bool)
    requires
        s3.mode == Mode::ValueLead,
        plain(value),
    ensures
        finish(run_from(s3, value)) == Some(add_entry(s3.doc, s3.key, value)),
        run_from(s3, value + line_end(crlf)).mode == Mode::Top,
        run_from(s3, value + line_end(crlf)).line_start,
        run_from(s3, value + line_end(crlf)).doc == add_entry(s3.doc, s3.key, value),
{
    lemma_trim_plain(value);
    lemma_trim_empty();
    let s4 = run_from(s3, value);
    if value.len() == 0 {
        assert(s4 == s3);
        assert(value =~= Seq::<char>::empty());
    } else {
        assert(plain_char(value[0]));
        let v1 = step(s3, value[0]);
        assert(v1 == (ParseState {
            mode: Mode::Value,
            escape: Escape::Plain,
            buf: seq![value[0]],
            ..s3
        }));
        lemma_run_one(s3, value[0]);
        let vrest = value.drop_first();
        assert(plain(vrest)) by {
            assert forall|i: int| 0 <= i < vrest.len() implies plain_char(#[trigger] vrest[i]) by {
                assert(vrest[i] == value[i + 1]);
            }
        }
        lemma_plain_run(v1, vrest);
        assert(seq![value[0]] + vrest =~= value);
        lemma_run_from_append(s3, seq![value[0]], vrest);
        assert(s4 == (ParseState { mode: Mode::Value, escape: Escape::Plain, buf: value, ..s3 }));
    }
    lemma_run_from_append(s3, value, line_end(crlf));
    lemma_close_value(s4, value, crlf);
}

proof fn lemma_close_value(s4: ParseState, value: Seq<char>, crlf: bool)
    requires
        (s4.mode == Mode::Value && s4.escape == Escape::Plain && s4.buf == value) || (s4.mode
            == Mode::ValueLead && value.len() == 0),
        trim(value) == value,
    ensures
        run_from(s4, line_end(crlf)).mode == Mode::Top,
        run_from(s4, line_end(crlf)).line_start,
        run_from(s4, line_end(crlf)).doc == add_entry(s4.doc, s4.key, value),
{
    lemma_trim_empty();
    if s4.mode == Mode::ValueLead {
        assert(value =~= Seq::<char>::empty());
    }
    if crlf {
        let s5 = step(s4, '\r');
        assert(s5.mode == Mode::Top && s5.doc == add_entry(s4.doc, s4.key, value));
        assert(line_end(crlf).drop_last() =~= seq!['\r']);
        lemma_run_one(s4, '\r');
    } else {
        let s5 = step(s4, '\n');
        assert(s5.mode == Mode::Top && s5.doc == add_entry(s4.doc, s4.key, value));
        lemma_run_one(s4, '\n');
    }
}

/// Law: a line `key=value` read at the start of a line adds the entry
/// (key, value) to the last section, whether or not a line ending follows.
pub proof fn lemma_entry_line(t: Seq<char>, key: Seq<char>, value: Seq<char>, crlf: bool)
    requires
        at_line_start(t),
        key.len() > 0,
        plain(key),
        plain(value),
    ensures
        parse_ini_text(t + key + seq!['='] + value) == Some(add_entry(run(t).doc, key, value)),
        at_line_start(t + key + seq!['='] + value + line_end(crlf)),
        run(t + key + seq!['='] + value + line_end(crlf)).doc == add_entry(run(t).doc, key, value),
{
    let s0 = run(t);
    lemma_key_run(s0, key);
    let s3 = run_from(s0, key + seq!['=']);
    lemma_value_run(s3, value, crlf);
    let e = line_end(crlf);
    lemma_run_from_append(initial_state(), t, key + seq!['=']);
    lemma_run_from_append(initial_state(), t + (key + seq!['=']), value);
    lemma_run_from_append(initial_state(), t + (key + seq!['=']), value + e);
    assert(t + key + seq!['='] + value =~= t + (key + seq!['=']) + value);
    assert(t + key + seq!['='] + value + e =~= t + (key + seq!['=']) + (value + e));
}

/// Law: a line `[name]` read at the start of a line starts a new section of
/// that name.
pub proof fn lemma_header_line(t: Seq<char>, name: Seq<char>, crlf: bool)
    requires
        at_line_start(t),
        plain(name),
    ensures
        at_line_start(t + seq!['['] + name + seq![']'] + line_end(crlf)),
        run(t + seq!['['] + name + seq![']'] + line_end(crlf)).doc == run(t).doc.push(
            (Some(name), Seq::<(Seq<char>, Seq<char>)>::empty()),
        ),
{
    let s0 = run(t);
    let s1 = step(s0, '[');
    lemma_run_one(s0, '[');
    lemma_plain_run(s1, name);
    assert(Seq::<char>::empty() + name =~= name);
    let s2 = run_from(s1, name);
    lemma_trim_plain(name);
    let s3 = step(s2, ']');
    lemma_run_one(s2, ']');
    lemma_line_end(s3, crlf);
    let line = seq!['['] + name + seq![']'] + line_end(crlf);
    lemma_run_from_append(s0, seq!['['], name);
    lemma_run_from_append(s0, seq!['['] + name, seq![']']);
    lemma_run_from_append(s0, seq!['['] + name + seq![']'], line_end(crlf));
    lemma_run_from_append(initial_state(), t, line);
    assert(t + seq!['['] + name + seq![']'] + line_end(crlf) =~= t + line);
}

/// Law: a comment line read at the start of a line changes no section.
pub proof fn lemma_comment_line(t: Seq<char>, comment: Seq<char>, crlf: bool)
    requires
        at_line_start(t),
        forall|i: int| 0 <= i < comment.len() ==> #[trigger] comment[i] != '\n',
    ensures
        at_line_start(t + seq![';'] + comment + line_end(crlf)),
        run(t + seq![';'] + comment + line_end(crlf)).doc == run(t).doc,
{
    let s0 = run(t);
    let s1 = step(s0, ';');
    lemma_run_one(s0, ';');
    lemma_comment_run(s1, comment);
    let e = line_end(crlf);
    if crlf {
        assert(e.drop_last() =~= seq!['\r']);
        lemma_run_one(s1, '\r');
    } else {
        lemma_run_one(s1, '\n');
    }
    let line = seq![';'] + comment + e;
    lemma_run_from_append(s0, seq![';'], comment);
    lemma_run_from_append(s0, seq![';'] + comment, e);
    lemma_run_from_append(initial_state(), t, line);
    assert(t + seq![';'] + comment + e =~= t + line);
}

proof fn lemma_comment_run(s: ParseState, t: Seq<char>)
    requires
        s.mode == Mode::Comment,
        forall|i: int| 0 <= i < t.len() ==> #[trigger] t[i] != '\n',
    ensures
        run_from(s, t) == s,
    decreases t.len(),
{
    if t.len() > 0 {
        lemma_comment_run(s, t.drop_last());
        assert(t[t.len() - 1] != '\n');
    }
}

/// What holds of every state the reader reaches: between items, in comments
/// and before a value, no escape is open; a quote is `"` or `'`; an open
/// backslash was the last character read.
pub open spec fn reachable_shape(s: ParseState, t: Seq<char>) -> bool {
    &&& (s.mode == Mode::Top || s.mode == Mode::Comment || s.mode == Mode::ValueLead) ==> s.escape
        == Escape::Plain
    &&& (s.mode matches Mode::Quoted { quote } ==> quote == '"' || quote == '\'')
    &&& (s.escape == Escape::Backslash && s.mode != Mode::Failed) ==> t.len() > 0 && t.last()
        == '\\'
    &&& (s.escape == Escape::Hex && s.mode != Mode::Failed) ==> s.hex.len() < 4
}

proof fn lemma_reachable(t: Seq<char>)
    ensures
        reachable_shape(run(t), t),
    decreases t.len(),
{
    if t.len() > 0 {
        lemma_reachable(t.drop_last());
    }
}

proof fn lemma_hex_line_feed(h: Seq<char>)
    requires
        h.len() == 4,
        h.last() == '\n',
    ensures
        hex_escape(h) is None,
{
    let digits = crate::text::unsigned_digits(h);
    assert(digits.len() > 0 && digits.last() == '\n');
}

/// Law: a line feed added at the end of a text that does not end in a
/// backslash changes nothing that is read: the last line counts whether or
/// not it is terminated.
pub proof fn lemma_trailing_line_feed(t: Seq<char>)
    requires
        t.len() == 0 || t.last() != '\\',
    ensures
        parse_ini_text(t.push('\n')) == parse_ini_text(t),
{
    assert(t.push('\n').drop_last() =~= t);
    lemma_reachable(t);
    let s = run(t);
    lemma_trim_empty();
    if s.mode != Mode::Failed && s.escape == Escape::Hex && s.hex.len() + 1 >= 4 {
        lemma_hex_line_feed(s.hex.push('\n'));
    }
}

fn is_ws(c: char) -> (b: bool)
    ensures
        b == is_white_space(c),
{
    let n = c as u32;
    (9 <= n && n <= 13) || n == 32 || n == 0x85 || n == 0xA0 || n == 0x1680 || (0x2000 <= n && n
        <= 0x200A) || n == 0x2028 || n == 0x2029 || n == 0x202F || n == 0x205F || n == 0x3000
}

/// `s` without white space at either end.
pub fn trim_chars(s: &Vec<char>) -> (r: Vec<char>)
    ensures
        r@ == trim(s@),
{
    let n = s.len();
    let mut i: usize = 0;
    assert(s@.skip(0) =~= s@);
    while i < n && is_ws(s[i])
        invariant
            i <= n,
            n == s@.len(),
            trim_start(s@) == trim_start(s@.skip(i as int)),
        decreases n - i,
    {
        assert(s@.skip(i as int).drop_first() =~= s@.skip(i + 1));
        i = i + 1;
    }
    assert(trim_start(s@) == s@.skip(i as int));
    let mut j: usize = n;
    assert(s@.subrange(i as int, n as int) =~= s@.skip(i as int));
    while j > i && is_ws(s[j - 1])
        invariant
            i <= j <= n,
            n == s@.len(),
            trim(s@) == trim_end(s@.subrange(i as int, j as int)),
        decreases j,
    {
        assert(s@.subrange(i as int, j as int).drop_last() =~= s@.subrange(i as int, j - 1));
        j = j - 1;
    }
    let mut r: Vec<char> = Vec::new();
    let mut k: usize = i;
    while k < j
        invariant
            i <= k <= j <= n,
            n == s@.len(),
            r@ == s@.subrange(i as int, k as int),
        decreases j - k,
    {
        r.push(s[k]);
        k = k + 1;
        assert(r@ =~= s@.subrange(i as int, k as int));
    }
    r
}

fn escaped_exec(c: char) -> (r: char)
    ensures
        r == escaped(c),
{
    if c == '0' {
        '\0'
    } else if c == 'a' {
        '\x07'
    } else if c == 'b' {
        '\x08'
    } else if c == 't' {
        '\t'
    } else if c == 'r' {
        '\r'
    } else if c == 'n' {
        '\n'
    } else {
        c
    }
}

/// Appends the UTF-8 encoding of a character code.
fn push_scalar(bytes: &mut Vec<u8>, v: u32)
    requires
        is_scalar(v),
    ensures
        final(bytes)@ == old(bytes)@ + encode_scalar(v),
{
    if v <= 0x7F {
        bytes.push((v & 0x7F) as u8);
    } else if v <= 0x7FF {
        bytes.push(0xC0 | ((v >> 6) & 0x1F) as u8);
        bytes.push(0x80 | (v & 0x3F) as u8);
    } else if v <= 0xFFFF {
        bytes.push(0xE0 | ((v >> 12) & 0x0F) as u8);
        bytes.push(0x80 | ((v >> 6) & 0x3F) as u8);
        bytes.push(0x80 | (v & 0x3F) as u8);
    } else {
        bytes.push(0xF0 | ((v >> 18) & 0x7) as u8);
        bytes.push(0x80 | ((v >> 12) & 0x3F) as u8);
        bytes.push(0x80 | ((v >> 6) & 0x3F) as u8);
        bytes.push(0x80 | (v & 0x3F) as u8);
    }
    assert(final(bytes)@ =~= old(bytes)@ + encode_scalar(v));
}

pub proof fn lemma_encode_push(s: Seq<char>, c: char)
    ensures
        encode_utf8(s.push(c)) == encode_utf8(s) + encode_scalar(c as u32),
    decreases s.len(),
{
    assert(encode_utf8(Seq::<char>::empty()) =~= Seq::<u8>::empty());
    if s.len() == 0 {
        assert(s =~= Seq::<char>::empty());
        assert(s.push(c)[0] == c);
        assert(s.push(c).drop_first() =~= Seq::<char>::empty());
        assert(encode_utf8(s.push(c)) == encode_scalar(c as u32) + encode_utf8(
            Seq::<char>::empty(),
        ));
        assert(encode_scalar(c as u32) + Seq::<u8>::empty() =~= encode_scalar(c as u32));
        assert(Seq::<u8>::empty() + encode_scalar(c as u32) =~= encode_scalar(c as u32));
    } else {
        assert(s.push(c).drop_first() =~= s.drop_first().push(c));
        lemma_encode_push(s.drop_first(), c);
        assert(s.push(c)[0] == s[0]);
        assert(encode_utf8(s.push(c)) == encode_scalar(s[0] as u32) + encode_utf8(
            s.push(c).drop_first(),
        ));
        assert(encode_scalar(s[0] as u32) + (encode_utf8(s.drop_first()) + encode_scalar(c as u32))
            =~= (encode_scalar(s[0] as u32) + encode_utf8(s.drop_first())) + encode_scalar(
            c as u32,
        ));
    }
}

/// The string of the characters `s`.
pub fn string_of(s: &Vec<char>) -> (r: String)
    ensures
        r@ == s@,
{
    let mut bytes: Vec<u8> = Vec::new();
    let mut i: usize = 0;
    while i < s.len()
        invariant
            i <= s@.len(),
            bytes@ == encode_utf8(s@.take(i as int)),
        decreases s@.len() - i,
    {
        let c = s[i];
        proof {
            char_is_scalar(c);
            lemma_encode_push(s@.take(i as int), c);
            assert(s@.take(i + 1) =~= s@.take(i as int).push(c));
        }
        push_scalar(&mut bytes, c as u32);
        i = i + 1;
    }
    assert(s@.take(s@.len() as int) =~= s@);
    proof {
        encode_utf8_valid_utf8(s@);
        encode_utf8_decode_utf8(s@);
    }
    match decode_text(bytes.as_slice()) {
        Some(r) => r,
        None => String::new(),
    }
}

/// The character whose code is `v`.
fn char_of_code(v: u32) -> (c: char)
    requires
        is_char_code(v as nat),
    ensures
        c == (v as nat) as char,
{
    let mut bytes: Vec<u8> = Vec::new();
    push_scalar(&mut bytes, v);
    let ghost ch = (v as nat) as char;
    proof {
        assert(ch as u32 == v);
        assert(seq![ch].drop_first() =~= Seq::<char>::empty());
        assert(encode_utf8(Seq::<char>::empty()) =~= Seq::<u8>::empty());
        assert(seq![ch][0] == ch);
        assert(encode_utf8(seq![ch]) == encode_scalar(ch as u32) + encode_utf8(
            Seq::<char>::empty(),
        ));
        assert(encode_utf8(seq![ch]) =~= encode_scalar(v));
        encode_utf8_valid_utf8(seq![ch]);
        encode_utf8_decode_utf8(seq![ch]);
        assert(bytes@ =~= encode_scalar(v));
    }
    match decode_text(bytes.as_slice()) {
        Some(s) => s.as_str().get_char(0),
        None => '\0',
    }
}

fn hex_escape_exec(h: &Vec<char>) -> (r: Option<char>)
    ensures
        r == hex_escape(h@),
{
    assert(h@.skip(0) =~= h@);
    match parse_unsigned_from(h, 0, 16, 0xffff_ffff) {
        Some(v) => if v <= 0x10FFFF && !(0xD800 <= v && v <= 0xDFFF) {
            Some(char_of_code(v))
        } else {
            None
        },
        None => None,
    }
}

/// Adds an entry to the last section, or to a new unnamed one.
fn add_entry_exec(doc: &mut Vec<IniSection>, key: &Vec<char>, value: &Vec<char>)
    ensures
        sections_model(final(doc)@) == add_entry(sections_model(old(doc)@), key@, value@),
{
    let k = string_of(key);
    let v = string_of(value);
    let ghost before = sections_model(doc@);
    if doc.len() == 0 {
        let mut entries: Vec<(String, String)> = Vec::new();
        entries.push((k, v));
        doc.push(IniSection { name: None, entries });
        assert(entries_model(doc@[0].entries@) =~= seq![(key@, value@)]);
        assert(sections_model(doc@) =~= add_entry(before, key@, value@));
    } else {
        let ghost n = doc@.len();
        let mut last = doc.pop().unwrap();
        let ghost old_entries = last.entries@;
        last.entries.push((k, v));
        assert(entries_model(last.entries@) =~= entries_model(old_entries).push((key@, value@)));
        doc.push(last);
        assert(sections_model(doc@) =~= add_entry(before, key@, value@));
    }
}

/// The executable reader: `state` gives what it stands for.
struct Reader {
    mode: Mode,
    escape: Escape,
    line_start: bool,
    buf: Vec<char>,
    hex: Vec<char>,
    key: Vec<char>,
    doc: Vec<IniSection>,
}

impl Reader {
    spec fn state(&self) -> ParseState {
        ParseState {
            mode: self.mode,
            escape: self.escape,
            line_start: self.line_start,
            buf: self.buf@,
            hex: self.hex@,
            key: self.key@,
            doc: sections_model(self.doc@),
        }
    }

    fn new() -> (r: Reader)
        ensures
            r.state() == initial_state(),
    {
        let r = Reader {
            mode: Mode::Top,
            escape: Escape::Plain,
            line_start: true,
            buf: Vec::new(),
            hex: Vec::new(),
            key: Vec::new(),
            doc: Vec::new(),
        };
        assert(sections_model(r.doc@) =~= Seq::<SectionModel>::empty());
        r
    }

    fn string_char(&mut self, c: char)
        ensures
            final(self).state() == string_char(old(self).state(), c),
    {
        match self.escape {
            Escape::Plain => {
                if c == '\\' {
                    self.escape = Escape::Backslash;
                } else {
                    self.buf.push(c);
                }
            },
            Escape::Backslash => {
                if c == 'x' {
                    self.escape = Escape::Hex;
                    self.hex = Vec::new();
                } else if c == '\n' {
                    self.escape = Escape::Plain;
                } else {
                    self.escape = Escape::Plain;
                    self.buf.push(escaped_exec(c));
                }
            },
            Escape::Hex => {
                if c == '\\' {
                    self.mode = Mode::Failed;
                } else if self.hex.len() < 3 {
                    self.hex.push(c);
                } else {
                    self.hex.push(c);
                    match hex_escape_exec(&self.hex) {
                        Some(h) => {
                            self.escape = Escape::Plain;
                            self.buf.push(h);
                        },
                        None => {
                            self.mode = Mode::Failed;
                        },
                    }
                }
            },
        }
        assert(final(self).state() =~= string_char(old(self).state(), c));
    }

    fn value_char(&mut self, c: char)
        ensures
            final(self).state() == value_char(old(self).state(), c),
    {
        if self.escape == Escape::Plain && (c == '\n' || c == '\r') {
            let value = trim_chars(&self.buf);
            add_entry_exec(&mut self.doc, &self.key, &value);
            self.mode = Mode::Top;
            self.line_start = c == '\n';
        } else {
            self.string_char(c);
        }
    }

    fn step(&mut self, c: char)
        ensures
            final(self).state() == step(old(self).state(), c),
    {
        match self.mode {
            Mode::Failed => {},
            Mode::Top => {
                if is_ws(c) {
                    self.line_start = c == '\n';
                } else if c == ';' || c == '#' {
                    if self.line_start {
                        self.mode = Mode::Comment;
                    } else {
                        self.mode = Mode::Failed;
                    }
                } else if c == '[' {
                    self.mode = Mode::Section;
                    self.escape = Escape::Plain;
                    self.buf = Vec::new();
                } else if c == '=' || c == ':' {
                    self.mode = Mode::Failed;
                } else {
                    self.mode = Mode::Key;
                    self.escape = Escape::Plain;
                    self.buf = Vec::new();
                    self.string_char(c);
                }
            },
            Mode::Comment => {
                if c == '\n' {
                    self.mode = Mode::Top;
                    self.line_start = true;
                }
            },
            Mode::Section => {
                if self.escape == Escape::Plain && c == ']' {
                    let name = trim_chars(&self.buf);
                    let ghost before = sections_model(self.doc@);
                    let entries: Vec<(String, String)> = Vec::new();
                    assert(entries_model(entries@) =~= Seq::<(Seq<char>, Seq<char>)>::empty());
                    self.doc.push(IniSection { name: Some(string_of(&name)), entries });
                    assert(sections_model(self.doc@) =~= before.push(
                        (Some(name@), Seq::<(Seq<char>, Seq<char>)>::empty()),
                    ));
                    self.mode = Mode::Top;
                    self.line_start = false;
                } else {
                    self.string_char(c);
                }
            },
            Mode::Key => {
                if self.escape == Escape::Plain && (c == '=' || c == ':') {
                    let key = trim_chars(&self.buf);
                    if key.len() == 0 {
                        self.mode = Mode::Failed;
                    } else {
                        self.mode = Mode::ValueLead;
                        self.key = key;
                    }
                } else {
                    self.string_char(c);
                }
            },
            Mode::ValueLead => {
                if is_ws(c) && c != '\n' && c != '\r' {
                } else if c == '"' || c == '\'' {
                    self.mode = Mode::Quoted { quote: c };
                    self.escape = Escape::Plain;
                    self.buf = Vec::new();
                } else {
                    self.mode = Mode::Value;
                    self.escape = Escape::Plain;
                    self.buf = Vec::new();
                    self.value_char(c);
                }
            },
            Mode::Quoted { quote } => {
                if self.escape == Escape::Plain && c == quote {
                    self.mode = Mode::Value;
                } else {
                    self.string_char(c);
                }
            },
            Mode::Value => {
                self.value_char(c);
            },
        }
        assert(final(self).state() =~= step(old(self).state(), c));
    }
}

/// Reads an INI text: its sections in order, or `None` where it is rejected.
pub fn parse_ini(text: &str) -> (res: Option<Vec<IniSection>>)
    ensures
        parse_ini_text(text@) == (match res {
            Some(v) => Some(sections_model(v@)),
            None => None,
        }),
{
    let chars = chars_of(text);
    let mut reader = Reader::new();
    let mut i: usize = 0;
    while i < chars.len()
        invariant
            i <= chars@.len(),
            reader.state() == run(chars@.take(i as int)),
        decreases chars@.len() - i,
    {
        assert(chars@.take(i + 1).drop_last() =~= chars@.take(i as int));
        assert(chars@.take(i + 1).last() == chars@[i as int]);
        reader.step(chars[i]);
        i = i + 1;
    }
    assert(chars@.take(chars@.len() as int) =~= text@);
    let Reader { mode, escape, line_start, buf, hex, key, mut doc } = reader;
    match mode {
        Mode::Top | Mode::Comment => Some(doc),
        Mode::ValueLead => {
            let empty: Vec<char> = Vec::new();
            add_entry_exec(&mut doc, &key, &empty);
            assert(empty@ =~= Seq::<char>::empty());
            Some(doc)
        },
        Mode::Value => {
            if escape == Escape::Plain {
                let value = trim_chars(&buf);
                add_entry_exec(&mut doc, &key, &value);
                Some(doc)
            } else {
                None
            }
        },
        _ => None,
    }
}

} // verus!
