//! The data types that a successful parse produces.

use vstd::prelude::*;

verus! {

/// The name an entry binds its value to.
#[derive(Debug, PartialEq, Eq)]
pub struct Identifier {
    pub name: String,
}

impl View for Identifier {
    type V = Seq<char>;

    open spec fn view(&self) -> Seq<char> {
        self.name@
    }
}

/// A comment that may precede an entry.  The current grammar recognizes no
/// comment syntax, so no parse ever attaches one; the type exists so that an
/// entry can carry one once the grammar grows.
#[derive(Debug, PartialEq, Eq)]
pub struct Comment {
    pub content: String,
}

impl View for Comment {
    type V = Seq<char>;

    open spec fn view(&self) -> Seq<char> {
        self.content@
    }
}

/// One element of a pattern.  A text element holds the logical text of the
/// pattern: continuation lines joined by `'\n'`, quote delimiters stripped.
#[derive(Debug, PartialEq, Eq)]
pub enum PatternElement {
    TextElement { value: String },
}

impl View for PatternElement {
    type V = Seq<char>;

    open spec fn view(&self) -> Seq<char> {
        match self {
            PatternElement::TextElement { value } => value@,
        }
    }
}

/// The mathematical value of a [`Value`]: the raw characters the pattern
/// body consumed and the logical text of each element.
pub ghost struct SpecPattern {
    pub source: Seq<char>,
    pub elements: Seq<Seq<char>>,
}

/// The value an entry binds: a pattern.  `source` holds every content
/// character consumed while scanning the pattern body (structural markers
/// such as the newline before a continuation line, the `|` marker, its one
/// trimmed indentation space and quote delimiters excluded); `elements`
/// holds the logical text.  A successfully parsed pattern always has
/// exactly one text element, which holds the joined text; an empty pattern
/// yields one empty text element.
#[derive(Debug, PartialEq, Eq)]
pub enum Value {
    Pattern { source: String, elements: Vec<PatternElement> },
}

impl View for Value {
    type V = SpecPattern;

    open spec fn view(&self) -> SpecPattern {
        match self {
            Value::Pattern { source, elements } => SpecPattern {
                source: source@,
                elements: elements@.map_values(|e: PatternElement| e@),
            },
        }
    }
}

/// The mathematical value of an [`Entry`].
pub ghost struct SpecEntity {
    pub id: Seq<char>,
    pub comment: Option<Seq<char>>,
    pub value: SpecPattern,
}

/// One entry of a parsed document: an entity binding an identifier to a
/// pattern value, with an optional (currently never attached) comment.
#[derive(Debug, PartialEq, Eq)]
pub enum Entry {
    Entity { id: Identifier, comment: Option<Comment>, value: Value },
}

impl View for Entry {
    type V = SpecEntity;

    open spec fn view(&self) -> SpecEntity {
        match self {
            Entry::Entity { id, comment, value } => SpecEntity {
                id: id@,
                comment: match comment {
                    Some(c) => Some(c@),
                    None => None,
                },
                value: value@,
            },
        }
    }
}

/// The values of a sequence of entries, entry by entry.
pub open spec fn entries_view(entries: Seq<Entry>) -> Seq<SpecEntity> {
    entries.map_values(|e: Entry| e@)
}

} // verus!
