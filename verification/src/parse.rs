//! The executable parser, proved against the grammar of [`crate::grammar`].

use vstd::prelude::*;

use crate::ast::Comment;
use crate::ast::Entry;
use crate::ast::Identifier;
use crate::ast::PatternElement;
use crate::ast::Value;
use crate::ast::entries_view;
use crate::ast::SpecEntity;
use crate::grammar::ErrorKind;
use crate::grammar::message_of;
use crate::grammar::parse_entries;
use crate::grammar::scan_entity;
use crate::grammar::scan_ident;
use crate::grammar::scan_pattern;
use crate::grammar::scan_pattern_loop;
use crate::grammar::skip_line_ws_from;
use crate::grammar::lemma_skip_line_ws_from_bounds;
use crate::grammar::lemma_skip_ws_from_bounds;
use crate::grammar::lemma_scan_entity_next;
use crate::grammar::lemma_ident_end_bounds;
use crate::grammar::lemma_scan_pattern_err_kinds;
use crate::grammar::is_ident_start_char;
use crate::grammar::skip_ws_from;
use crate::grammar::ident_end;
use crate::grammar::pattern_value;
use crate::grammar::PatScan;
use vstd::string::StrSliceExecFns;

verus! {

/// Relies on `String::push`: appends the given character to the end of the
/// string.
pub assume_specification[ String::push ](s: &mut String, c: char)
    ensures
        final(s)@ == old(s)@.push(c),
;

/// The error a failed parse reports: a descriptive message and nothing
/// more.
#[derive(Debug, PartialEq, Eq)]
pub struct ParseError {
    pub error_message: String,
}

impl View for ParseError {
    type V = Seq<char>;

    open spec fn view(&self) -> Seq<char> {
        self.error_message@
    }
}

impl ParseError {
    /// Wraps a message into an error.
    pub fn new(error_message: &str) -> (e: Self)
        ensures
            e@ == error_message@,
    {
        ParseError { error_message: error_message.to_owned() }
    }
}

/// The parser: a cursor over the input characters, the current character,
/// and a 1-based position counter.  `new` places the cursor on the first
/// character; `parse` consumes the rest of the input.
pub struct Parser {
    chars: Vec<char>,
    ch: Option<char>,
    pos: usize,
}

impl Parser {
    /// The input text the parser was made for.
    pub closed spec fn input(&self) -> Seq<char> {
        self.chars@
    }

    /// The index of the current character; `input().len()` once the input
    /// is exhausted.
    pub closed spec fn idx(&self) -> int {
        self.pos - 1
    }

    /// The cursor is on some character of the input, or one step past its
    /// end, and holds that character.
    pub closed spec fn wf(&self) -> bool {
        &&& self.chars@.len() < usize::MAX
        &&& 1 <= self.pos <= self.chars@.len() + 1
        &&& self.ch == (if self.pos <= self.chars@.len() {
            Some(self.chars@[self.pos - 1])
        } else {
            None::<char>
        })
    }

    /// Makes a parser for the given source text, with the cursor on its
    /// first character.
    pub fn new(source: &str) -> (p: Parser)
        requires
            source@.len() < usize::MAX,
        ensures
            p.wf(),
            p.input() == source@,
            p.idx() == 0,
    {
        let n = source.unicode_len();
        let mut chars: Vec<char> = Vec::new();
        for i in 0..n
            invariant
                n == source@.len() < usize::MAX,
                chars@ =~= source@.subrange(0, i as int),
        {
            chars.push(source.get_char(i));
        }
        assert(chars@ =~= source@);
        let mut p = Parser { chars, ch: None, pos: 0 };
        p.bump();
        p
    }

    /// Consumes one character: the next one becomes current, or the end of
    /// the input is reached, and the position advances.  Advancing is
    /// idempotent at the end of the input: once every character has been
    /// consumed, further calls keep reporting end of input and leave the
    /// cursor where it is.
    fn bump(&mut self)
        requires
            old(self).pos <= old(self).chars@.len() + 1,
            old(self).chars@.len() < usize::MAX,
        ensures
            final(self).chars@ == old(self).chars@,
            final(self).pos == (if old(self).pos <= old(self).chars@.len() {
                old(self).pos + 1
            } else {
                old(self).pos as int
            }),
            final(self).ch == (if final(self).pos <= final(self).chars@.len() {
                Some(final(self).chars@[final(self).pos - 1])
            } else {
                None::<char>
            }),
    {
        if self.pos < self.chars.len() {
            self.ch = Some(self.chars[self.pos]);
            self.pos = self.pos + 1;
        } else {
            self.ch = None;
            if self.pos <= self.chars.len() {
                self.pos = self.pos + 1;
            }
        }
    }

    /// Whether the current character equals `c`.
    fn ch_is(&self, c: char) -> (b: bool)
        ensures
            b == (self.ch == Some(c)),
    {
        match self.ch {
            Some(cur) => cur == c,
            None => false,
        }
    }

    /// Advances past any run of whitespace, newlines included.
    fn get_ws(&mut self)
        requires
            old(self).wf(),
        ensures
            final(self).wf(),
            final(self).input() == old(self).input(),
            final(self).idx() == skip_ws_from(old(self).input(), old(self).idx()),
    {
        let ghost s = self.chars@;
        let ghost i0 = self.idx();
        loop
            invariant
                self.wf(),
                self.chars@ == s,
                0 <= i0 <= s.len(),
                skip_ws_from(s, self.idx()) == skip_ws_from(s, i0),
            ensures
                self.wf(),
                self.chars@ == s,
                self.idx() == skip_ws_from(s, i0),
            decreases s.len() - self.idx(),
        {
            if self.ch_is(' ') || self.ch_is('\n') || self.ch_is('\t') || self.ch_is('\r') {
                self.bump();
            } else {
                break;
            }
        }
    }

    /// Advances past any run of spaces and tabs; newlines are significant
    /// and stop the scan.
    fn get_line_ws(&mut self)
        requires
            old(self).wf(),
        ensures
            final(self).wf(),
            final(self).input() == old(self).input(),
            final(self).idx() == skip_line_ws_from(old(self).input(), old(self).idx()),
    {
        let ghost s = self.chars@;
        let ghost i0 = self.idx();
        loop
            invariant
                self.wf(),
                self.chars@ == s,
                0 <= i0 <= s.len(),
                skip_line_ws_from(s, self.idx()) == skip_line_ws_from(s, i0),
            ensures
                self.wf(),
                self.chars@ == s,
                self.idx() == skip_line_ws_from(s, i0),
            decreases s.len() - self.idx(),
        {
            if self.ch_is(' ') || self.ch_is('\t') {
                self.bump();
            } else {
                break;
            }
        }
    }

    /// Reads one identifier from the current position.  With no character
    /// left at all the scan fails; a first character that cannot start an
    /// identifier yields an empty identifier without consuming input, and
    /// the caller treats that as its own syntax error.
    fn get_identifier(&mut self) -> (r: Result<Identifier, ParseError>)
        requires
            old(self).wf(),
        ensures
            final(self).wf(),
            final(self).input() == old(self).input(),
            match r {
                Ok(id) => {
                    &&& old(self).idx() < old(self).input().len()
                    &&& id@ == scan_ident(old(self).input(), old(self).idx()).name
                    &&& final(self).idx() == scan_ident(old(self).input(), old(self).idx()).next
                },
                Err(e) => {
                    &&& old(self).idx() == old(self).input().len()
                    &&& e@ == message_of(ErrorKind::UnexpectedEndOfInput)
                    &&& final(self).idx() == old(self).idx()
                },
            },
    {
        let ghost s = self.chars@;
        let ghost i0 = self.idx();
        let mut name = String::new();

        let first = match self.ch {
            Some(c) => c,
            None => {
                return Err(ParseError::new("Unexpected end of input."));
            },
        };

        if ('a' <= first && first <= 'z') || ('A' <= first && first <= 'Z') || first == '_' {
            name.push(first);
        } else {
            assert(name@ =~= scan_ident(s, i0).name);
            return Ok(Identifier { name });
        }
        self.bump();
        assert(name@ =~= s.subrange(i0, i0 + 1));

        loop
            invariant
                self.wf(),
                self.chars@ == s,
                0 <= i0 < self.idx() <= s.len(),
                name@ == s.subrange(i0, self.idx()),
                ident_end(s, self.idx()) == ident_end(s, i0 + 1),
            ensures
                self.wf(),
                self.chars@ == s,
                i0 < self.idx() <= s.len(),
                name@ == s.subrange(i0, self.idx()),
                self.idx() == ident_end(s, i0 + 1),
            decreases s.len() - self.idx(),
        {
            let c = match self.ch {
                Some(c) => c,
                None => {
                    break;
                },
            };

            if ('a' <= c && c <= 'z') || ('A' <= c && c <= 'Z') || ('0' <= c && c <= '9')
                || c == '_' || c == '-' {
                name.push(c);
            } else {
                break;
            }
            assert(name@ =~= s.subrange(i0, self.idx() + 1));
            self.bump();
        }

        Ok(Identifier { name })
    }

    /// Scans a pattern value: a quote-delimited single-line string, or a
    /// line-delimited value that may continue over `|`-prefixed lines.
    /// On success the value holds the raw content characters consumed and
    /// exactly one text element with the joined logical text.
    fn get_pattern(&mut self) -> (r: Result<Value, ParseError>)
        requires
            old(self).wf(),
        ensures
            final(self).wf(),
            final(self).input() == old(self).input(),
            match (r, scan_pattern(old(self).input(), old(self).idx())) {
                (Ok(v), Ok(p)) => v@ == pattern_value(p) && final(self).idx() == p.next,
                (Err(e), Err(kind)) => e@ == message_of(kind),
                (_, _) => false,
            },
    {
        let ghost s = self.chars@;
        let ghost i0 = self.idx();
        let mut buffer = String::new();
        let mut source = String::new();
        let mut quote_delimited: bool = false;
        let mut first_line: bool = true;

        if self.ch_is('"') {
            quote_delimited = true;
            self.bump();
        }

        loop
            invariant_except_break
                scan_pattern_loop(s, self.idx(), buffer@, source@, quote_delimited, first_line)
                    == scan_pattern(s, i0),
            invariant
                self.wf(),
                self.chars@ == s,
                s == old(self).input(),
                i0 == old(self).idx(),
            ensures
                self.wf(),
                self.chars@ == s,
                s == old(self).input(),
                i0 == old(self).idx(),
                quote_delimited ==> scan_pattern(s, i0) == Err::<PatScan, ErrorKind>(
                    ErrorKind::UnclosedString,
                ),
                !quote_delimited ==> scan_pattern(s, i0) == Ok::<PatScan, ErrorKind>(
                    (PatScan { text: buffer@, source: source@, next: self.idx() }),
                ),
            decreases s.len() - self.idx(),
        {
            match self.ch {
                Some(c) => {
                    if c == '\n' {
                        if quote_delimited {
                            return Err(ParseError::new("Unclosed string"));
                        }
                        let ghost newline_at = self.idx();
                        self.bump();
                        self.get_line_ws();
                        proof {
                            lemma_skip_line_ws_from_bounds(s, newline_at + 1);
                        }

                        if !self.ch_is('|') {
                            break;
                        }
                        if first_line && !buffer.as_str().is_empty() {
                            return Err(
                                ParseError::new("Multiline string should have the ID line empty"),
                            );
                        }
                        first_line = false;
                        self.bump();
                        if self.ch_is(' ') {
                            self.bump();
                        }
                        if !buffer.as_str().is_empty() {
                            buffer.push('\n');
                        }
                    } else if quote_delimited && c == '"' {
                        self.bump();
                        quote_delimited = false;
                        break;
                    } else {
                        source.push(c);
                        buffer.push(c);
                        self.bump();
                    }
                },
                None => {
                    break;
                },
            }
        }

        if quote_delimited {
            return Err(ParseError::new("Unclosed string"));
        }

        let ghost text_fin = buffer@;
        let ghost source_fin = source@;
        let mut elements: Vec<PatternElement> = Vec::new();
        elements.push(PatternElement::TextElement { value: buffer });
        let value = Value::Pattern { source, elements };
        proof {
            assert(value@.elements =~= seq![text_fin]);
        }
        Ok(value)
    }

    /// Parses one entity: `Identifier LineWS '=' LineWS Pattern`.  The
    /// identifier may not be empty: the identifier scanner consumes
    /// nothing on a mismatch, and this parser treats that as its own
    /// syntax error.  The entity carries the given comment, which this
    /// grammar never supplies.  On the errors this function raises itself
    /// the contract also fixes the cursor: nothing consumed for a missing
    /// identifier, and on a missing `=` exactly the identifier and the
    /// line whitespace after it, the offending character left unread.
    fn get_entity(&mut self, comment: Option<Comment>) -> (r: Result<Entry, ParseError>)
        requires
            old(self).wf(),
            comment is None,
        ensures
            final(self).wf(),
            final(self).input() == old(self).input(),
            match (r, scan_entity(old(self).input(), old(self).idx())) {
                (Ok(entry), Ok(e)) => entry@ == e.entity && final(self).idx() == e.next,
                (Err(err), Err(kind)) => {
                    &&& err@ == message_of(kind)
                    &&& kind == ErrorKind::UnexpectedEndOfInput ==> final(self).idx() == old(
                        self,
                    ).idx()
                    &&& kind == ErrorKind::ExpectedIdentifier ==> final(self).idx() == old(
                        self,
                    ).idx()
                    &&& kind == ErrorKind::ExpectedEquals ==> final(self).idx()
                        == skip_line_ws_from(
                        old(self).input(),
                        scan_ident(old(self).input(), old(self).idx()).next,
                    )
                },
                (_, _) => false,
            },
    {
        let id = match self.get_identifier() {
            Ok(id) => id,
            Err(err) => {
                return Err(err);
            },
        };
        if id.name.as_str().is_empty() {
            proof {
                if is_ident_start_char(old(self).input()[old(self).idx()]) {
                    lemma_ident_end_bounds(old(self).input(), old(self).idx() + 1);
                }
            }
            return Err(ParseError::new("Expected an identifier"));
        }
        self.get_line_ws();

        if !self.ch_is('=') {
            return Err(ParseError::new("Expected '='"));
        }
        self.bump();

        self.get_line_ws();

        proof {
            lemma_scan_pattern_err_kinds(old(self).input(), self.idx());
        }
        match self.get_pattern() {
            Ok(value) => Ok(Entry::Entity { id, comment, value }),
            Err(err) => Err(err),
        }
    }

    /// Parses one entry.  An entry is currently always an entity.
    fn get_entry(&mut self, comment: Option<Comment>) -> (r: Result<Entry, ParseError>)
        requires
            old(self).wf(),
            comment is None,
        ensures
            final(self).wf(),
            final(self).input() == old(self).input(),
            match (r, scan_entity(old(self).input(), old(self).idx())) {
                (Ok(entry), Ok(e)) => entry@ == e.entity && final(self).idx() == e.next,
                (Err(err), Err(kind)) => err@ == message_of(kind),
                (_, _) => false,
            },
    {
        self.get_entity(comment)
    }

    /// Parses the rest of the input: whitespace-separated entries until the
    /// input is exhausted.  The result is every entry in source order, or
    /// the first error, exactly as [`parse_entries`] describes; a failing
    /// parse returns no partial result.
    pub fn parse(&mut self) -> (r: Result<Vec<Entry>, ParseError>)
        requires
            old(self).wf(),
        ensures
            final(self).wf(),
            final(self).input() == old(self).input(),
            r is Ok ==> final(self).idx() == final(self).input().len(),
            match (r, parse_entries(old(self).input(), old(self).idx())) {
                (Ok(entries), Ok(spec_entries)) => entries_view(entries@) == spec_entries,
                (Err(err), Err(kind)) => err@ == message_of(kind),
                (_, _) => false,
            },
    {
        let ghost s = self.chars@;
        let ghost i0 = self.idx();
        let mut entries: Vec<Entry> = Vec::new();

        loop
            invariant
                self.wf(),
                self.chars@ == s,
                s == old(self).input(),
                i0 == old(self).idx(),
                0 <= i0 <= s.len(),
                match parse_entries(s, self.idx()) {
                    Ok(rest) => parse_entries(s, i0) == Ok::<Seq<SpecEntity>, ErrorKind>(
                        entries_view(entries@) + rest,
                    ),
                    Err(kind) => parse_entries(s, i0) == Err::<Seq<SpecEntity>, ErrorKind>(kind),
                },
            ensures
                self.wf(),
                self.chars@ == s,
                self.idx() == s.len(),
                parse_entries(s, i0) == Ok::<Seq<SpecEntity>, ErrorKind>(entries_view(entries@)),
            decreases s.len() - self.idx(),
        {
            let ghost iter_start = self.idx();
            self.get_ws();
            proof {
                lemma_skip_ws_from_bounds(s, iter_start);
            }

            if self.ch.is_none() {
                proof {
                    assert(entries_view(entries@) + Seq::<SpecEntity>::empty()
                        =~= entries_view(entries@));
                }
                break;
            }

            let ghost entity_at = self.idx();
            let comment = None;
            match self.get_entry(comment) {
                Ok(entry) => {
                    proof {
                        lemma_scan_entity_next(s, entity_at);
                        let e = scan_entity(s, entity_at)->Ok_0;
                        assert(entries_view(entries@.push(entry)) =~= entries_view(
                            entries@,
                        ).push(entry@));
                        assert forall|rest: Seq<SpecEntity>|
                            entries_view(entries@) + (seq![e.entity] + rest) =~= entries_view(
                                entries@.push(entry),
                            ) + rest by {
                            assert(entry@ == e.entity);
                        }
                    }
                    entries.push(entry);
                },
                Err(err) => {
                    return Err(err);
                },
            }
        }

        Ok(entries)
    }
}

} // verus!
