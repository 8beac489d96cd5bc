//! The grammar, written down as spec functions over sequences of characters.
//!
//! Every function here mirrors one scanning step of the parser: skipping
//! whitespace, reading an identifier, reading a pattern value, reading one
//! entity, and reading a whole document.  The executable parser's contracts
//! say that it returns exactly what these functions describe.
//!
//! Positions are indices into the input sequence; a scan at position `i`
//! reads `s[i]` first, and position `s.len()` means the input is exhausted.

use vstd::prelude::*;

use crate::ast::SpecEntity;
use crate::ast::SpecPattern;

verus! {

/// The conditions on which a parse fails.
pub ghost enum ErrorKind {
    /// An identifier scan was started with no character left at all.
    UnexpectedEndOfInput,
    /// An entity began with a character that cannot start an identifier:
    /// the identifier scan consumed nothing, and an entity's identifier
    /// may not be empty.
    ExpectedIdentifier,
    /// An entity's identifier was not followed by `=` on its line.
    ExpectedEquals,
    /// A quote-delimited value never saw its closing `"`, or held a raw
    /// newline.
    UnclosedString,
    /// A continuation line was started although the identifier's own line
    /// already held content.
    MalformedMultilineStart,
}

/// The message the parser reports for each failure condition.
pub open spec fn message_of(kind: ErrorKind) -> Seq<char> {
    match kind {
        ErrorKind::UnexpectedEndOfInput => "Unexpected end of input."@,
        ErrorKind::ExpectedIdentifier => "Expected an identifier"@,
        ErrorKind::ExpectedEquals => "Expected '='"@,
        ErrorKind::UnclosedString => "Unclosed string"@,
        ErrorKind::MalformedMultilineStart => "Multiline string should have the ID line empty"@,
    }
}

/// Whitespace, newlines included.
pub open spec fn is_ws_char(c: char) -> bool {
    c == ' ' || c == '\n' || c == '\t' || c == '\r'
}

/// Whitespace that is significant within a single line: spaces and tabs
/// only.
pub open spec fn is_line_ws_char(c: char) -> bool {
    c == ' ' || c == '\t'
}

/// A character that may start an identifier.
pub open spec fn is_ident_start_char(c: char) -> bool {
    ('a' <= c && c <= 'z') || ('A' <= c && c <= 'Z') || c == '_'
}

/// A character that may continue an identifier.
pub open spec fn is_ident_char(c: char) -> bool {
    is_ident_start_char(c) || ('0' <= c && c <= '9') || c == '-'
}

/// The position of the first character at or after `i` that is not
/// whitespace (`s.len()` if every remaining character is).
pub open spec fn skip_ws_from(s: Seq<char>, i: int) -> int
    decreases s.len() - i,
    when 0 <= i <= s.len()
{
    if i < s.len() && is_ws_char(s[i]) {
        skip_ws_from(s, i + 1)
    } else {
        i
    }
}

/// The position of the first character at or after `i` that is not line
/// whitespace.
pub open spec fn skip_line_ws_from(s: Seq<char>, i: int) -> int
    decreases s.len() - i,
    when 0 <= i <= s.len()
{
    if i < s.len() && is_line_ws_char(s[i]) {
        skip_line_ws_from(s, i + 1)
    } else {
        i
    }
}

/// The position of the first character at or after `i` that cannot
/// continue an identifier.
pub open spec fn ident_end(s: Seq<char>, i: int) -> int
    decreases s.len() - i,
    when 0 <= i <= s.len()
{
    if i < s.len() && is_ident_char(s[i]) {
        ident_end(s, i + 1)
    } else {
        i
    }
}

pub proof fn lemma_skip_ws_from_bounds(s: Seq<char>, i: int)
    requires
        0 <= i <= s.len(),
    ensures
        i <= skip_ws_from(s, i) <= s.len(),
    decreases s.len() - i,
{
    if i < s.len() && is_ws_char(s[i]) {
        lemma_skip_ws_from_bounds(s, i + 1);
    }
}

pub proof fn lemma_skip_line_ws_from_bounds(s: Seq<char>, i: int)
    requires
        0 <= i <= s.len(),
    ensures
        i <= skip_line_ws_from(s, i) <= s.len(),
    decreases s.len() - i,
{
    if i < s.len() && is_line_ws_char(s[i]) {
        lemma_skip_line_ws_from_bounds(s, i + 1);
    }
}

pub proof fn lemma_ident_end_bounds(s: Seq<char>, i: int)
    requires
        0 <= i <= s.len(),
    ensures
        i <= ident_end(s, i) <= s.len(),
    decreases s.len() - i,
{
    if i < s.len() && is_ident_char(s[i]) {
        lemma_ident_end_bounds(s, i + 1);
    }
}

/// What scanning an identifier at a position yields: the (possibly empty)
/// name read, and the position of the first character after it.
pub ghost struct IdentScan {
    pub name: Seq<char>,
    pub next: int,
}

/// Scanning an identifier at position `i < s.len()`.  When the first
/// character cannot start an identifier, the scan consumes nothing and the
/// name is empty; otherwise the name extends greedily over every character
/// that may continue an identifier.
pub open spec fn scan_ident(s: Seq<char>, i: int) -> IdentScan {
    if !is_ident_start_char(s[i]) {
        IdentScan { name: Seq::empty(), next: i }
    } else {
        let j = ident_end(s, i + 1);
        IdentScan { name: s.subrange(i, j), next: j }
    }
}

/// What scanning a pattern yields on success: the logical text (`text`,
/// continuation lines joined by `'\n'`, delimiters stripped), the raw
/// content characters consumed (`source`), and the position after the
/// pattern.
pub ghost struct PatScan {
    pub text: Seq<char>,
    pub source: Seq<char>,
    pub next: int,
}

/// One step of the pattern scan per character, carrying the text read so
/// far (`buf`), the raw content read so far (`src`), whether the value is
/// quote-delimited, and whether the identifier's own line is still the
/// current line.
///
/// - A newline inside a quote-delimited value fails; outside one it ends
///   the pattern unless, after line whitespace, a `|` confirms a
///   continuation line.  A continuation is only allowed while the
///   identifier's own line holds no content; one space of indentation
///   after the `|` is trimmed, and lines are joined with `'\n'`.
/// - A `"` closes a quote-delimited value; in a line-delimited value it is
///   ordinary content.
/// - The end of the input ends the pattern, and fails if a quote is still
///   open.
pub open spec fn scan_pattern_loop(
    s: Seq<char>,
    i: int,
    buf: Seq<char>,
    src: Seq<char>,
    quoted: bool,
    first_line: bool,
) -> Result<PatScan, ErrorKind>
    decreases s.len() - i,
    when 0 <= i <= s.len()
{
    if i >= s.len() {
        if quoted {
            Err(ErrorKind::UnclosedString)
        } else {
            Ok(PatScan { text: buf, source: src, next: i })
        }
    } else if s[i] == '\n' {
        if quoted {
            Err(ErrorKind::UnclosedString)
        } else {
            let j = skip_line_ws_from(s, i + 1);
            if j >= s.len() || s[j] != '|' {
                Ok(PatScan { text: buf, source: src, next: j })
            } else if first_line && buf.len() != 0 {
                Err(ErrorKind::MalformedMultilineStart)
            } else {
                proof {
                    lemma_skip_line_ws_from_bounds(s, i + 1);
                }
                let k = if j + 1 < s.len() && s[j + 1] == ' ' {
                    j + 2
                } else {
                    j + 1
                };
                let joined = if buf.len() != 0 {
                    buf.push('\n')
                } else {
                    buf
                };
                scan_pattern_loop(s, k, joined, src, quoted, false)
            }
        }
    } else if quoted && s[i] == '"' {
        Ok(PatScan { text: buf, source: src, next: i + 1 })
    } else {
        scan_pattern_loop(s, i + 1, buf.push(s[i]), src.push(s[i]), quoted, first_line)
    }
}

/// Scanning a pattern at position `i`: a value starting with `"` is
/// quote-delimited (the opening quote is consumed), anything else is
/// line-delimited.
pub open spec fn scan_pattern(s: Seq<char>, i: int) -> Result<PatScan, ErrorKind> {
    if 0 <= i < s.len() && s[i] == '"' {
        scan_pattern_loop(s, i + 1, Seq::empty(), Seq::empty(), true, true)
    } else {
        scan_pattern_loop(s, i, Seq::empty(), Seq::empty(), false, true)
    }
}

/// The pattern value a successful pattern scan produces: the raw source
/// and exactly one text element holding the joined text.
pub open spec fn pattern_value(p: PatScan) -> SpecPattern {
    SpecPattern { source: p.source, elements: seq![p.text] }
}

pub proof fn lemma_scan_pattern_loop_next(
    s: Seq<char>,
    i: int,
    buf: Seq<char>,
    src: Seq<char>,
    quoted: bool,
    first_line: bool,
)
    requires
        0 <= i <= s.len(),
    ensures
        match scan_pattern_loop(s, i, buf, src, quoted, first_line) {
            Ok(p) => i <= p.next <= s.len(),
            Err(_) => true,
        },
    decreases s.len() - i,
{
    if i >= s.len() {
    } else if s[i] == '\n' {
        if !quoted {
            let j = skip_line_ws_from(s, i + 1);
            lemma_skip_line_ws_from_bounds(s, i + 1);
            if j >= s.len() || s[j] != '|' {
            } else if first_line && buf.len() != 0 {
            } else {
                let k = if j + 1 < s.len() && s[j + 1] == ' ' {
                    j + 2
                } else {
                    j + 1
                };
                let joined = if buf.len() != 0 {
                    buf.push('\n')
                } else {
                    buf
                };
                lemma_scan_pattern_loop_next(s, k, joined, src, quoted, false);
            }
        }
    } else if quoted && s[i] == '"' {
    } else {
        lemma_scan_pattern_loop_next(s, i + 1, buf.push(s[i]), src.push(s[i]), quoted, first_line);
    }
}

pub proof fn lemma_scan_pattern_loop_err_kinds(
    s: Seq<char>,
    i: int,
    buf: Seq<char>,
    src: Seq<char>,
    quoted: bool,
    first_line: bool,
)
    requires
        0 <= i <= s.len(),
    ensures
        match scan_pattern_loop(s, i, buf, src, quoted, first_line) {
            Ok(_) => true,
            Err(kind) => kind == ErrorKind::UnclosedString || kind
                == ErrorKind::MalformedMultilineStart,
        },
    decreases s.len() - i,
{
    if i >= s.len() {
    } else if s[i] == '\n' {
        if !quoted {
            let j = skip_line_ws_from(s, i + 1);
            lemma_skip_line_ws_from_bounds(s, i + 1);
            if j >= s.len() || s[j] != '|' {
            } else if first_line && buf.len() != 0 {
            } else {
                let k = if j + 1 < s.len() && s[j + 1] == ' ' {
                    j + 2
                } else {
                    j + 1
                };
                let joined = if buf.len() != 0 {
                    buf.push('\n')
                } else {
                    buf
                };
                lemma_scan_pattern_loop_err_kinds(s, k, joined, src, quoted, false);
            }
        }
    } else if quoted && s[i] == '"' {
    } else {
        lemma_scan_pattern_loop_err_kinds(
            s,
            i + 1,
            buf.push(s[i]),
            src.push(s[i]),
            quoted,
            first_line,
        );
    }
}

/// A failing pattern scan fails with the unclosed-string or the
/// malformed-multiline error and with no other kind.
pub proof fn lemma_scan_pattern_err_kinds(s: Seq<char>, i: int)
    requires
        0 <= i <= s.len(),
    ensures
        match scan_pattern(s, i) {
            Ok(_) => true,
            Err(kind) => kind == ErrorKind::UnclosedString || kind
                == ErrorKind::MalformedMultilineStart,
        },
{
    if 0 <= i < s.len() && s[i] == '"' {
        lemma_scan_pattern_loop_err_kinds(s, i + 1, Seq::empty(), Seq::empty(), true, true);
    } else {
        lemma_scan_pattern_loop_err_kinds(s, i, Seq::empty(), Seq::empty(), false, true);
    }
}

pub proof fn lemma_scan_pattern_next(s: Seq<char>, i: int)
    requires
        0 <= i <= s.len(),
    ensures
        match scan_pattern(s, i) {
            Ok(p) => i <= p.next <= s.len(),
            Err(_) => true,
        },
{
    if 0 <= i < s.len() && s[i] == '"' {
        lemma_scan_pattern_loop_next(s, i + 1, Seq::empty(), Seq::empty(), true, true);
    } else {
        lemma_scan_pattern_loop_next(s, i, Seq::empty(), Seq::empty(), false, true);
    }
}

/// What scanning an entity yields on success: the entity's value, and the
/// position after it.
pub ghost struct EntityScan {
    pub entity: SpecEntity,
    pub next: int,
}

/// Scanning one entity at position `0 <= i`: an identifier, line
/// whitespace, `=`, line whitespace, then a pattern.  No comment is ever
/// attached.  Scanning with no character left at all fails; the identifier
/// scanner merely returns an empty name when the first character cannot
/// start an identifier, so the entity scan itself rejects the empty
/// identifier as its own syntax error.
pub open spec fn scan_entity(s: Seq<char>, i: int) -> Result<EntityScan, ErrorKind> {
    if i >= s.len() {
        Err(ErrorKind::UnexpectedEndOfInput)
    } else {
        let id = scan_ident(s, i);
        if id.name.len() == 0 {
            Err(ErrorKind::ExpectedIdentifier)
        } else {
            let j = skip_line_ws_from(s, id.next);
            if j >= s.len() || s[j] != '=' {
                Err(ErrorKind::ExpectedEquals)
            } else {
                match scan_pattern(s, skip_line_ws_from(s, j + 1)) {
                    Ok(p) => Ok(
                        EntityScan {
                            entity: SpecEntity {
                                id: id.name,
                                comment: None,
                                value: pattern_value(p),
                            },
                            next: p.next,
                        },
                    ),
                    Err(kind) => Err(kind),
                }
            }
        }
    }
}

pub proof fn lemma_scan_entity_next(s: Seq<char>, i: int)
    requires
        0 <= i < s.len(),
    ensures
        match scan_entity(s, i) {
            Ok(e) => i < e.next <= s.len(),
            Err(_) => true,
        },
{
    let id = scan_ident(s, i);
    if is_ident_start_char(s[i]) {
        lemma_ident_end_bounds(s, i + 1);
    }
    lemma_skip_line_ws_from_bounds(s, id.next);
    let j = skip_line_ws_from(s, id.next);
    if !(j >= s.len() || s[j] != '=') {
        lemma_skip_line_ws_from_bounds(s, j + 1);
        let p0 = skip_line_ws_from(s, j + 1);
        lemma_scan_pattern_next(s, p0);
    }
}

/// Parsing a whole document from position `i`: skip whitespace, stop at
/// the end of the input, otherwise read one entity and continue after it.
/// The result is the entities in source order, or the first failure.
pub open spec fn parse_entries(s: Seq<char>, i: int) -> Result<Seq<SpecEntity>, ErrorKind>
    decreases s.len() - i,
    when 0 <= i <= s.len()
{
    let w = skip_ws_from(s, i);
    if w >= s.len() {
        Ok(Seq::empty())
    } else {
        match scan_entity(s, w) {
            Err(kind) => Err(kind),
            Ok(e) => {
                proof {
                    lemma_skip_ws_from_bounds(s, i);
                    lemma_scan_entity_next(s, w);
                }
                match parse_entries(s, e.next) {
                    Ok(rest) => Ok(seq![e.entity] + rest),
                    Err(kind) => Err(kind),
                }
            },
        }
    }
}

} // verus!
