//! Grammar-level guarantees, proved from the spec functions of
//! [`crate::grammar`].
//!
//! Each public proof function here states one guarantee of the grammar
//! over all inputs of a given shape.  They speak about [`parse_entries`],
//! the same function that [`crate::parse::Parser::parse`] is proved to
//! implement, so each guarantee carries over to the executable parser.

use vstd::prelude::*;

use crate::ast::SpecEntity;
use crate::ast::SpecPattern;
use crate::grammar::ErrorKind;
use crate::grammar::EntityScan;
use crate::grammar::PatScan;
use crate::grammar::ident_end;
use crate::grammar::is_ident_char;
use crate::grammar::is_ident_start_char;
use crate::grammar::is_line_ws_char;
use crate::grammar::is_ws_char;
use crate::grammar::lemma_scan_entity_next;
use crate::grammar::lemma_skip_ws_from_bounds;
use crate::grammar::parse_entries;
use crate::grammar::pattern_value;
use crate::grammar::scan_entity;
use crate::grammar::scan_ident;
use crate::grammar::scan_pattern;
use crate::grammar::scan_pattern_loop;
use crate::grammar::skip_line_ws_from;
use crate::grammar::skip_ws_from;

verus! {

/// A sequence that the identifier scanner reads whole: a start character
/// followed by continuation characters.
pub open spec fn valid_ident(id: Seq<char>) -> bool {
    &&& id.len() > 0
    &&& is_ident_start_char(id[0])
    &&& forall|m: int| 1 <= m < id.len() ==> is_ident_char(#[trigger] id[m])
}

/// A sequence of spaces and tabs only.
pub open spec fn line_ws_only(w: Seq<char>) -> bool {
    forall|m: int| 0 <= m < w.len() ==> is_line_ws_char(#[trigger] w[m])
}

/// The identifier line of an entity up to and including the whitespace
/// after `=`: identifier, line whitespace, `=`, line whitespace.
pub open spec fn entity_line_prefix(id: Seq<char>, ws1: Seq<char>, ws2: Seq<char>) -> Seq<char> {
    id + ws1 + seq!['='] + ws2
}

proof fn lemma_skip_line_ws_run(s: Seq<char>, i: int, j: int)
    requires
        0 <= i <= j <= s.len(),
        forall|m: int| i <= m < j ==> is_line_ws_char(#[trigger] s[m]),
        j == s.len() || !is_line_ws_char(s[j]),
    ensures
        skip_line_ws_from(s, i) == j,
    decreases j - i,
{
    if i < j {
        lemma_skip_line_ws_run(s, i + 1, j);
    }
}

proof fn lemma_ident_end_run(s: Seq<char>, i: int, j: int)
    requires
        0 <= i <= j <= s.len(),
        forall|m: int| i <= m < j ==> is_ident_char(#[trigger] s[m]),
        j == s.len() || !is_ident_char(s[j]),
    ensures
        ident_end(s, i) == j,
    decreases j - i,
{
    if i < j {
        lemma_ident_end_run(s, i + 1, j);
    }
}

/// Characters that are neither a newline nor, in a quote-delimited value,
/// a quote are consumed one by one into both accumulators.
proof fn lemma_scan_plain_run(
    s: Seq<char>,
    i: int,
    j: int,
    buf: Seq<char>,
    src: Seq<char>,
    quoted: bool,
    first_line: bool,
)
    requires
        0 <= i <= j <= s.len(),
        forall|m: int| i <= m < j ==> #[trigger] s[m] != '\n' && (quoted ==> s[m] != '"'),
    ensures
        scan_pattern_loop(s, i, buf, src, quoted, first_line) == scan_pattern_loop(
            s,
            j,
            buf + s.subrange(i, j),
            src + s.subrange(i, j),
            quoted,
            first_line,
        ),
    decreases j - i,
{
    if i < j {
        lemma_scan_plain_run(s, i + 1, j, buf.push(s[i]), src.push(s[i]), quoted, first_line);
        assert(buf.push(s[i]) + s.subrange(i + 1, j) =~= buf + s.subrange(i, j));
        assert(src.push(s[i]) + s.subrange(i + 1, j) =~= src + s.subrange(i, j));
    } else {
        assert(buf + s.subrange(i, i) =~= buf);
        assert(src + s.subrange(i, i) =~= src);
    }
}

/// Reading an entity whose identifier line is well formed comes down to
/// reading the pattern after the whitespace that follows `=`.
proof fn lemma_entity_prefix(id: Seq<char>, ws1: Seq<char>, ws2: Seq<char>, tail: Seq<char>)
    requires
        valid_ident(id),
        line_ws_only(ws1),
        line_ws_only(ws2),
        tail.len() > 0 ==> !is_line_ws_char(tail[0]),
    ensures
        ({
            let s = entity_line_prefix(id, ws1, ws2) + tail;
            let c = entity_line_prefix(id, ws1, ws2).len() as int;
            &&& skip_ws_from(s, 0) == 0
            &&& scan_entity(s, 0) == (match scan_pattern(s, c) {
                Ok(p) => Ok::<EntityScan, ErrorKind>(
                    (EntityScan {
                        entity: SpecEntity { id: id, comment: None, value: pattern_value(p) },
                        next: p.next,
                    }),
                ),
                Err(kind) => Err::<EntityScan, ErrorKind>(kind),
            })
        }),
{
    let s = entity_line_prefix(id, ws1, ws2) + tail;
    let a = id.len() as int;
    let b = a + ws1.len();
    let c = b + 1 + ws2.len();

    assert forall|m: int| 0 <= m < a implies s[m] == id[m] by {}
    assert forall|m: int| a <= m < b implies s[m] == ws1[m - a] by {}
    assert(s[b] == '=');
    assert forall|m: int| b + 1 <= m < c implies s[m] == ws2[m - b - 1] by {}
    assert forall|m: int| c <= m < s.len() implies s[m] == tail[m - c] by {}

    assert(!is_ws_char(s[0]));
    assert(skip_ws_from(s, 0) == 0);

    assert(is_ident_start_char(s[0]));
    lemma_ident_end_run(s, 1, a);
    assert(scan_ident(s, 0).name =~= id);
    assert(scan_ident(s, 0).next == a);

    lemma_skip_line_ws_run(s, a, b);
    assert(s[b] == '=');
    lemma_skip_line_ws_run(s, b + 1, c);
}

/// Once one entity has been read whole, the parse holds exactly that
/// entity.
proof fn lemma_single_entity_close(s: Seq<char>, entity: SpecEntity)
    requires
        s.len() > 0,
        skip_ws_from(s, 0) == 0,
        scan_entity(s, 0) == Ok::<EntityScan, ErrorKind>(
            (EntityScan { entity: entity, next: s.len() as int }),
        ),
    ensures
        parse_entries(s, 0) == Ok::<Seq<SpecEntity>, ErrorKind>(seq![entity]),
{
    assert(skip_ws_from(s, s.len() as int) == s.len());
    assert(parse_entries(s, s.len() as int) == Ok::<Seq<SpecEntity>, ErrorKind>(
        Seq::<SpecEntity>::empty(),
    ));
    assert(seq![entity] + Seq::<SpecEntity>::empty() =~= seq![entity]);
}

/// For every well-formed single-line entry — an identifier, line
/// whitespace, `=`, line whitespace, then a value that stays on its line
/// (no newline, not quote-delimited, not starting with line whitespace) —
/// parsing succeeds and yields exactly one entity: its identifier is that
/// identifier, and its pattern text is the value with the whitespace after
/// `=` trimmed away.
pub proof fn lemma_single_line_entry(id: Seq<char>, ws1: Seq<char>, ws2: Seq<char>, val: Seq<char>)
    requires
        valid_ident(id),
        line_ws_only(ws1),
        line_ws_only(ws2),
        forall|m: int| 0 <= m < val.len() ==> #[trigger] val[m] != '\n',
        val.len() > 0 ==> !is_line_ws_char(val[0]) && val[0] != '"',
    ensures
        parse_entries(entity_line_prefix(id, ws1, ws2) + val, 0) == Ok::<
            Seq<SpecEntity>,
            ErrorKind,
        >(seq![
            SpecEntity {
                id: id,
                comment: None,
                value: SpecPattern { source: val, elements: seq![val] },
            },
        ]),
{
    let s = entity_line_prefix(id, ws1, ws2) + val;
    let c = entity_line_prefix(id, ws1, ws2).len() as int;
    lemma_entity_prefix(id, ws1, ws2, val);

    assert forall|m: int| c <= m < s.len() implies #[trigger] s[m] != '\n' by {
        assert(s[m] == val[m - c]);
    }
    lemma_scan_plain_run(s, c, s.len() as int, Seq::empty(), Seq::empty(), false, true);
    assert(Seq::<char>::empty() + s.subrange(c, s.len() as int) =~= val);
    assert(scan_pattern(s, c) == Ok::<PatScan, ErrorKind>(
        (PatScan { text: val, source: val, next: s.len() as int }),
    ));

    lemma_single_entity_close(
        s,
        SpecEntity {
            id: id,
            comment: None,
            value: SpecPattern { source: val, elements: seq![val] },
        },
    );
}

/// A quote-delimited literal that holds no newline and no quote, and is
/// closed before the input ends, parses successfully: the entity's pattern
/// text is the literal with its quote delimiters stripped.
pub proof fn lemma_quoted_literal_ok(id: Seq<char>, ws1: Seq<char>, ws2: Seq<char>, val: Seq<char>)
    requires
        valid_ident(id),
        line_ws_only(ws1),
        line_ws_only(ws2),
        forall|m: int| 0 <= m < val.len() ==> #[trigger] val[m] != '\n' && val[m] != '"',
    ensures
        parse_entries(entity_line_prefix(id, ws1, ws2) + seq!['"'] + val + seq!['"'], 0) == Ok::<
            Seq<SpecEntity>,
            ErrorKind,
        >(seq![
            SpecEntity {
                id: id,
                comment: None,
                value: SpecPattern { source: val, elements: seq![val] },
            },
        ]),
{
    let tail = seq!['"'] + val + seq!['"'];
    let s = entity_line_prefix(id, ws1, ws2) + tail;
    let c = entity_line_prefix(id, ws1, ws2).len() as int;
    assert(entity_line_prefix(id, ws1, ws2) + seq!['"'] + val + seq!['"'] =~= s);
    assert(!is_line_ws_char(tail[0]));
    lemma_entity_prefix(id, ws1, ws2, tail);

    assert forall|m: int| 0 <= m < tail.len() implies #[trigger] s[c + m] == tail[m] by {}
    assert(s[c] == '"');
    let close = c + 1 + val.len();
    assert forall|m: int| c + 1 <= m < close implies #[trigger] s[m] != '\n' && (true ==> s[m]
        != '"') by {
        assert(s[m] == tail[m - c]);
        assert(tail[m - c] == val[m - c - 1]);
    }
    lemma_scan_plain_run(s, c + 1, close, Seq::empty(), Seq::empty(), true, true);
    assert(Seq::<char>::empty() + s.subrange(c + 1, close) =~= val);
    assert(s[close] == '"');
    assert(scan_pattern(s, c) == Ok::<PatScan, ErrorKind>(
        (PatScan { text: val, source: val, next: s.len() as int }),
    ));

    lemma_single_entity_close(
        s,
        SpecEntity {
            id: id,
            comment: None,
            value: SpecPattern { source: val, elements: seq![val] },
        },
    );
}

/// A quote-delimited literal that never sees its closing quote before the
/// input ends fails, and fails with the unclosed-string error.
pub proof fn lemma_quoted_literal_unclosed(
    id: Seq<char>,
    ws1: Seq<char>,
    ws2: Seq<char>,
    val: Seq<char>,
)
    requires
        valid_ident(id),
        line_ws_only(ws1),
        line_ws_only(ws2),
        forall|m: int| 0 <= m < val.len() ==> #[trigger] val[m] != '\n' && val[m] != '"',
    ensures
        parse_entries(entity_line_prefix(id, ws1, ws2) + seq!['"'] + val, 0) == Err::<
            Seq<SpecEntity>,
            ErrorKind,
        >(ErrorKind::UnclosedString),
{
    let tail = seq!['"'] + val;
    let s = entity_line_prefix(id, ws1, ws2) + tail;
    let c = entity_line_prefix(id, ws1, ws2).len() as int;
    assert(entity_line_prefix(id, ws1, ws2) + seq!['"'] + val =~= s);
    assert(!is_line_ws_char(tail[0]));
    lemma_entity_prefix(id, ws1, ws2, tail);

    assert forall|m: int| 0 <= m < tail.len() implies #[trigger] s[c + m] == tail[m] by {}
    assert(s[c] == '"');
    assert forall|m: int| c + 1 <= m < s.len() implies #[trigger] s[m] != '\n' && (true ==> s[m]
        != '"') by {
        assert(s[m] == tail[m - c]);
        assert(tail[m - c] == val[m - c - 1]);
    }
    lemma_scan_plain_run(s, c + 1, s.len() as int, Seq::empty(), Seq::empty(), true, true);
    assert(scan_pattern(s, c) == Err::<PatScan, ErrorKind>(ErrorKind::UnclosedString));
}

/// A raw, unescaped newline inside a quote-delimited literal fails, and
/// fails with the unclosed-string error, whatever follows the newline.
pub proof fn lemma_newline_in_quoted(
    id: Seq<char>,
    ws1: Seq<char>,
    ws2: Seq<char>,
    pre: Seq<char>,
    rest: Seq<char>,
)
    requires
        valid_ident(id),
        line_ws_only(ws1),
        line_ws_only(ws2),
        forall|m: int| 0 <= m < pre.len() ==> #[trigger] pre[m] != '\n' && pre[m] != '"',
    ensures
        parse_entries(
            entity_line_prefix(id, ws1, ws2) + seq!['"'] + pre + seq!['\n'] + rest,
            0,
        ) == Err::<Seq<SpecEntity>, ErrorKind>(ErrorKind::UnclosedString),
{
    let tail = seq!['"'] + pre + seq!['\n'] + rest;
    let s = entity_line_prefix(id, ws1, ws2) + tail;
    let c = entity_line_prefix(id, ws1, ws2).len() as int;
    assert(entity_line_prefix(id, ws1, ws2) + seq!['"'] + pre + seq!['\n'] + rest =~= s);
    assert(!is_line_ws_char(tail[0]));
    lemma_entity_prefix(id, ws1, ws2, tail);

    assert forall|m: int| 0 <= m < tail.len() implies #[trigger] s[c + m] == tail[m] by {}
    assert(s[c] == '"');
    let nl = c + 1 + pre.len();
    assert forall|m: int| c + 1 <= m < nl implies #[trigger] s[m] != '\n' && (true ==> s[m] != '"')
        by {
        assert(s[m] == tail[m - c]);
        assert(tail[m - c] == pre[m - c - 1]);
    }
    lemma_scan_plain_run(s, c + 1, nl, Seq::empty(), Seq::empty(), true, true);
    assert(s[nl] == '\n');
    assert(scan_pattern(s, c) == Err::<PatScan, ErrorKind>(ErrorKind::UnclosedString));
}

/// Starting a continuation line although the identifier's own line already
/// holds content fails, and fails with the malformed-multiline error,
/// whatever follows the `|` marker.
pub proof fn lemma_continuation_after_content(
    id: Seq<char>,
    ws1: Seq<char>,
    ws2: Seq<char>,
    val: Seq<char>,
    lws: Seq<char>,
    rest: Seq<char>,
)
    requires
        valid_ident(id),
        line_ws_only(ws1),
        line_ws_only(ws2),
        val.len() > 0,
        !is_line_ws_char(val[0]),
        val[0] != '"',
        forall|m: int| 0 <= m < val.len() ==> #[trigger] val[m] != '\n',
        line_ws_only(lws),
    ensures
        parse_entries(
            entity_line_prefix(id, ws1, ws2) + val + seq!['\n'] + lws + seq!['|'] + rest,
            0,
        ) == Err::<Seq<SpecEntity>, ErrorKind>(ErrorKind::MalformedMultilineStart),
{
    let tail = val + seq!['\n'] + lws + seq!['|'] + rest;
    let s = entity_line_prefix(id, ws1, ws2) + tail;
    let c = entity_line_prefix(id, ws1, ws2).len() as int;
    assert(entity_line_prefix(id, ws1, ws2) + val + seq!['\n'] + lws + seq!['|'] + rest =~= s);
    assert(!is_line_ws_char(tail[0]));
    lemma_entity_prefix(id, ws1, ws2, tail);

    assert forall|m: int| 0 <= m < tail.len() implies #[trigger] s[c + m] == tail[m] by {}
    let nl = c + val.len();
    assert forall|m: int| c <= m < nl implies #[trigger] s[m] != '\n' && (false ==> s[m] != '"')
        by {
        assert(s[m] == tail[m - c]);
        assert(tail[m - c] == val[m - c]);
    }
    assert(s[c] != '"');
    lemma_scan_plain_run(s, c, nl, Seq::empty(), Seq::empty(), false, true);
    let buf = Seq::<char>::empty() + s.subrange(c, nl);
    assert(buf =~= val);
    assert(s[nl] == '\n');

    let pipe = nl + 1 + lws.len();
    assert forall|m: int| nl + 1 <= m < pipe implies is_line_ws_char(#[trigger] s[m]) by {
        assert(s[m] == tail[m - c]);
        assert(tail[m - c] == lws[m - c - val.len() - 1]);
    }
    assert(s[pipe] == '|');
    lemma_skip_line_ws_run(s, nl + 1, pipe);
    assert(scan_pattern_loop(s, nl, buf, buf, false, true) == Err::<PatScan, ErrorKind>(
        ErrorKind::MalformedMultilineStart,
    ));
    assert(scan_pattern(s, c) == Err::<PatScan, ErrorKind>(ErrorKind::MalformedMultilineStart));
}

/// An entity may not bind an empty identifier: wherever an entity is
/// scanned at a character that cannot start an identifier, the identifier
/// scan consumes nothing and the entity scan itself rejects the empty
/// identifier, whatever follows.
pub proof fn lemma_empty_identifier_rejected(s: Seq<char>, i: int)
    requires
        0 <= i < s.len(),
        !is_ident_start_char(s[i]),
    ensures
        scan_entity(s, i) == Err::<EntityScan, ErrorKind>(ErrorKind::ExpectedIdentifier),
{
}

/// An input whose first character is `#` fails to parse: no comment syntax
/// is recognized, and a `#` cannot start an identifier, so the parse
/// reports the missing identifier.
pub proof fn lemma_leading_hash_fails(s: Seq<char>)
    requires
        s.len() > 0,
        s[0] == '#',
    ensures
        parse_entries(s, 0) == Err::<Seq<SpecEntity>, ErrorKind>(ErrorKind::ExpectedIdentifier),
{
    assert(!is_ws_char(s[0]));
    assert(skip_ws_from(s, 0) == 0);
    assert(!is_ident_start_char(s[0]));
    lemma_empty_identifier_rejected(s, 0);
}

/// A quote-delimited literal holding neither a newline nor a quote, and
/// closed before the input ends, scans successfully wherever the pattern
/// starts and whatever follows it: the text and the source are the
/// literal with its delimiters stripped, and nothing past the closing
/// quote is consumed.
pub proof fn lemma_scan_pattern_quoted_closes(s: Seq<char>, i: int, close: int)
    requires
        0 <= i < s.len(),
        s[i] == '"',
        i < close < s.len(),
        s[close] == '"',
        forall|m: int| i < m < close ==> #[trigger] s[m] != '\n' && s[m] != '"',
    ensures
        scan_pattern(s, i) == Ok::<PatScan, ErrorKind>(
            (PatScan {
                text: s.subrange(i + 1, close),
                source: s.subrange(i + 1, close),
                next: close + 1,
            }),
        ),
{
    lemma_scan_plain_run(s, i + 1, close, Seq::empty(), Seq::empty(), true, true);
    assert(Seq::<char>::empty() + s.subrange(i + 1, close) =~= s.subrange(i + 1, close));
}

/// A quote-delimited literal that never sees a closing quote before the
/// input ends fails with the unclosed-string error, wherever the pattern
/// starts.
pub proof fn lemma_scan_pattern_quoted_unclosed(s: Seq<char>, i: int)
    requires
        0 <= i < s.len(),
        s[i] == '"',
        forall|m: int| i < m < s.len() ==> #[trigger] s[m] != '\n' && s[m] != '"',
    ensures
        scan_pattern(s, i) == Err::<PatScan, ErrorKind>(ErrorKind::UnclosedString),
{
    lemma_scan_plain_run(s, i + 1, s.len() as int, Seq::empty(), Seq::empty(), true, true);
}

/// A raw, unescaped newline before any closing quote of a quote-delimited
/// literal fails with the unclosed-string error, wherever the pattern
/// starts and whatever follows the newline.
pub proof fn lemma_scan_pattern_newline_in_quoted(s: Seq<char>, i: int, nl: int)
    requires
        0 <= i < s.len(),
        s[i] == '"',
        i < nl < s.len(),
        s[nl] == '\n',
        forall|m: int| i < m < nl ==> #[trigger] s[m] != '\n' && s[m] != '"',
    ensures
        scan_pattern(s, i) == Err::<PatScan, ErrorKind>(ErrorKind::UnclosedString),
{
    lemma_scan_plain_run(s, i + 1, nl, Seq::empty(), Seq::empty(), true, true);
}

/// A continuation line after an identifier line that already holds
/// content fails with the malformed-multiline error, wherever the pattern
/// starts and whatever follows the `|` marker.
pub proof fn lemma_scan_pattern_continuation_after_content(
    s: Seq<char>,
    i: int,
    nl: int,
    pipe: int,
)
    requires
        0 <= i < s.len(),
        s[i] != '"',
        i < nl < s.len(),
        s[nl] == '\n',
        forall|m: int| i <= m < nl ==> #[trigger] s[m] != '\n',
        nl < pipe < s.len(),
        s[pipe] == '|',
        forall|m: int| nl < m < pipe ==> is_line_ws_char(#[trigger] s[m]),
    ensures
        scan_pattern(s, i) == Err::<PatScan, ErrorKind>(ErrorKind::MalformedMultilineStart),
{
    lemma_scan_plain_run(s, i, nl, Seq::empty(), Seq::empty(), false, true);
    let buf = Seq::<char>::empty() + s.subrange(i, nl);
    assert(buf.len() == nl - i);
    lemma_skip_line_ws_run(s, nl + 1, pipe);
}

/// Every entity of a successful parse binds a pattern with exactly one
/// text element; an empty pattern still yields one empty text element.
pub proof fn lemma_patterns_have_one_element(s: Seq<char>, i: int)
    requires
        0 <= i <= s.len(),
    ensures
        match parse_entries(s, i) {
            Ok(entities) => forall|k: int|
                0 <= k < entities.len() ==> #[trigger] entities[k].value.elements.len() == 1,
            Err(_) => true,
        },
    decreases s.len() - i,
{
    let w = skip_ws_from(s, i);
    lemma_skip_ws_from_bounds(s, i);
    if w < s.len() {
        match scan_entity(s, w) {
            Err(_) => {},
            Ok(e) => {
                lemma_scan_entity_next(s, w);
                lemma_patterns_have_one_element(s, e.next);
                match parse_entries(s, e.next) {
                    Err(_) => {},
                    Ok(rest) => {
                        assert forall|k: int| 0 <= k < (seq![e.entity] + rest).len() implies #[trigger] (seq![
                            e.entity,
                        ] + rest)[k].value.elements.len() == 1 by {
                            if k > 0 {
                                assert((seq![e.entity] + rest)[k] == rest[k - 1]);
                            }
                        }
                    },
                }
            },
        }
    }
}

/// Parsing depends on the input characters alone: equal inputs parse to
/// equal results, with no hidden state taking part.
pub proof fn lemma_parse_deterministic(s1: Seq<char>, s2: Seq<char>)
    requires
        s1 == s2,
    ensures
        parse_entries(s1, 0) == parse_entries(s2, 0),
{
}

} // verus!

